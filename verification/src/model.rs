use vstd::prelude::*;

verus! {

/// How a product can be had.
#[derive(Clone, Copy, Debug, PartialEq, Eq, Structural)]
pub enum ProductKind {
    Available,
    Orderable,
    Beverage,
}

/// A product of the menu.
#[derive(Debug)]
pub struct Product {
    pub id: u32,
    pub kind: ProductKind,
    pub name: String,
    pub price: u16,
    pub max_num: u8,
    pub ingredients: Option<String>,
    pub image: Vec<u8>,
}

/// The abstract content of a product.
pub struct ProductView {
    pub id: u32,
    pub kind: ProductKind,
    pub name: Seq<char>,
    pub price: u16,
    pub max_num: u8,
    pub ingredients: Option<Seq<char>>,
    pub image: Seq<u8>,
}

pub open spec fn optional_text(s: Option<String>) -> Option<Seq<char>> {
    match s {
        Some(t) => Some(t@),
        None => None,
    }
}

impl View for Product {
    type V = ProductView;

    open spec fn view(&self) -> ProductView {
        ProductView {
            id: self.id,
            kind: self.kind,
            name: self.name@,
            price: self.price,
            max_num: self.max_num,
            ingredients: optional_text(self.ingredients),
            image: self.image@,
        }
    }
}

/// Two products are taken as the same product when their ids agree, or
/// else when everything but the id agrees.
pub open spec fn products_match(a: ProductView, b: ProductView) -> bool {
    a.id == b.id || (a.kind == b.kind && a.name == b.name && a.price == b.price && a.max_num
        == b.max_num && a.ingredients == b.ingredients && a.image == b.image)
}

pub fn texts_equal(a: &String, b: &String) -> (r: bool)
    ensures
        r == (a@ == b@),
{
    *a == *b
}

fn optional_texts_equal(a: &Option<String>, b: &Option<String>) -> (r: bool)
    ensures
        r == (optional_text(*a) == optional_text(*b)),
{
    match (a, b) {
        (None, None) => true,
        (Some(x), Some(y)) => texts_equal(x, y),
        _ => false,
    }
}

pub fn bytes_equal(a: &Vec<u8>, b: &Vec<u8>) -> (r: bool)
    ensures
        r == (a@ == b@),
{
    if a.len() != b.len() {
        return false;
    }
    let n = a.len();
    let mut i: usize = 0;
    while i < n
        invariant
            n == a@.len(),
            n == b@.len(),
            i <= n,
            forall|j: int| 0 <= j < i ==> a@[j] == b@[j],
        decreases n - i,
    {
        if a[i] != b[i] {
            return false;
        }
        i += 1;
    }
    assert(a@ =~= b@);
    true
}

impl Product {
    /// Whether `self` and `other` are taken as the same product.
    pub fn same_product(&self, other: &Product) -> (r: bool)
        ensures
            r == products_match(self@, other@),
    {
        self.id == other.id || (self.kind == other.kind && texts_equal(&self.name, &other.name)
            && self.price == other.price && self.max_num == other.max_num && optional_texts_equal(
            &self.ingredients,
            &other.ingredients,
        ) && bytes_equal(&self.image, &other.image))
    }

    /// The product as stored under the id that the database gave it.
    pub fn with_id(self, insert_id: u64) -> (r: Product)
        ensures
            r@ == (ProductView { id: insert_id as u32, ..self@ }),
    {
        let mut product = self;
        product.id = insert_id as u32;
        product
    }
}

impl PartialEq for Product {
    fn eq(&self, other: &Self) -> (r: bool) {
        self.same_product(other)
    }
}

impl vstd::std_specs::cmp::PartialEqSpecImpl for Product {
    open spec fn obeys_eq_spec() -> bool {
        true
    }

    open spec fn eq_spec(&self, other: &Self) -> bool {
        products_match(self@, other@)
    }
}

/// An order: who placed it and what its cart holds, as (item id, quantity) pairs.
#[derive(Debug)]
pub struct Order {
    pub id: u32,
    pub owner: String,
    pub owner_name: String,
    pub cart: Vec<(u32, u32)>,
}

/// The abstract content of an order.
pub struct OrderView {
    pub id: u32,
    pub owner: Seq<char>,
    pub owner_name: Seq<char>,
    pub cart: Seq<(u32, u32)>,
}

impl View for Order {
    type V = OrderView;

    open spec fn view(&self) -> OrderView {
        OrderView {
            id: self.id,
            owner: self.owner@,
            owner_name: self.owner_name@,
            cart: self.cart@,
        }
    }
}

/// Two orders are taken as the same order when their ids agree, or else
/// when owner, owner's name and cart agree.
pub open spec fn orders_match(a: OrderView, b: OrderView) -> bool {
    a.id == b.id || (a.owner == b.owner && a.owner_name == b.owner_name && a.cart == b.cart)
}

pub fn carts_equal(a: &Vec<(u32, u32)>, b: &Vec<(u32, u32)>) -> (r: bool)
    ensures
        r == (a@ == b@),
{
    if a.len() != b.len() {
        return false;
    }
    let n = a.len();
    let mut i: usize = 0;
    while i < n
        invariant
            n == a@.len(),
            n == b@.len(),
            i <= n,
            forall|j: int| 0 <= j < i ==> a@[j] == b@[j],
        decreases n - i,
    {
        if a[i].0 != b[i].0 || a[i].1 != b[i].1 {
            return false;
        }
        i += 1;
    }
    assert(a@ =~= b@);
    true
}

impl Order {
    /// Whether `self` and `other` are taken as the same order.
    pub fn same_order(&self, other: &Order) -> (r: bool)
        ensures
            r == orders_match(self@, other@),
    {
        self.id == other.id || (texts_equal(&self.owner, &other.owner) && texts_equal(
            &self.owner_name,
            &other.owner_name,
        ) && carts_equal(&self.cart, &other.cart))
    }

    /// The cart of the order, to be changed in place.
    pub fn cart_mut(&mut self) -> (r: &mut Vec<(u32, u32)>)
        ensures
            *r == old(self).cart,
            final(self).id == old(self).id,
            final(self).owner == old(self).owner,
            final(self).owner_name == old(self).owner_name,
            final(self).cart == *final(r),
    {
        &mut self.cart
    }
}

impl PartialEq for Order {
    fn eq(&self, other: &Self) -> (r: bool) {
        self.same_order(other)
    }
}

impl vstd::std_specs::cmp::PartialEqSpecImpl for Order {
    open spec fn obeys_eq_spec() -> bool {
        true
    }

    open spec fn eq_spec(&self, other: &Self) -> bool {
        orders_match(self@, other@)
    }
}


/// Products compare as the same product both ways round, and every product
/// is the same product as itself.
pub proof fn lemma_product_matching_is_symmetric(a: ProductView, b: ProductView)
    ensures
        products_match(a, a),
        products_match(a, b) == products_match(b, a),
{
}

/// Orders compare as the same order both ways round, and every order is
/// the same order as itself.
pub proof fn lemma_order_matching_is_symmetric(a: OrderView, b: OrderView)
    ensures
        orders_match(a, a),
        orders_match(a, b) == orders_match(b, a),
{
}

} // verus!
