use vstd::prelude::*;

use crate::auth::AuthToken;
use crate::error::{Error, ErrorView, Reason, Status};
use crate::model::{Order, OrderView};

verus! {

/// One row of the join of orders and carts: the order's fields and one
/// (item id, quantity) entry of its cart.
#[derive(Debug)]
pub struct OrderRow {
    pub id: u32,
    pub owner: String,
    pub owner_name: String,
    pub item: u32,
    pub quantity: u32,
}

/// The order that a row opens.
pub open spec fn order_of_row(r: OrderRow) -> OrderView {
    OrderView { id: r.id, owner: r.owner@, owner_name: r.owner_name@, cart: seq![(r.item, r.quantity)] }
}

/// The orders that a sequence of rows reads as: a row whose id is that of
/// the order read last adds its entry to that order's cart; any other row
/// opens a new order.
pub open spec fn grouped(rows: Seq<OrderRow>) -> Seq<OrderView>
    decreases rows.len(),
{
    if rows.len() == 0 {
        seq![]
    } else {
        let prev = grouped(rows.drop_last());
        let r = rows.last();
        if prev.len() > 0 && prev.last().id == r.id {
            prev.update(
                prev.len() - 1,
                OrderView { cart: prev.last().cart.push((r.item, r.quantity)), ..prev.last() },
            )
        } else {
            prev.push(order_of_row(r))
        }
    }
}

pub open spec fn views_of(orders: Seq<Order>) -> Seq<OrderView> {
    orders.map_values(|o: Order| o@)
}

fn clone_text(s: &String) -> (r: String)
    ensures
        r@ == s@,
{
    s.clone()
}

/// Reads the rows of a query, ordered by order id, as orders.
pub fn group_rows(rows: &Vec<OrderRow>) -> (orders: Vec<Order>)
    ensures
        views_of(orders@) == grouped(rows@),
{
    let n = rows.len();
    let mut orders: Vec<Order> = Vec::new();
    let mut i: usize = 0;
    assert(rows@.take(0) =~= Seq::<OrderRow>::empty());
    while i < n
        invariant
            n == rows@.len(),
            i <= n,
            views_of(orders@) == grouped(rows@.take(i as int)),
        decreases n - i,
    {
        let row = &rows[i];
        let ghost prev = views_of(orders@);
        assert(rows@.take(i + 1).drop_last() =~= rows@.take(i as int));
        assert(rows@.take(i + 1).last() == rows@[i as int]);
        let len = orders.len();
        if len > 0 && orders[len - 1].id == row.id {
            let mut last = orders.pop().unwrap();
            assert(last@ == prev.last());
            last.cart.push((row.item, row.quantity));
            orders.push(last);
            assert(views_of(orders@) =~= prev.update(
                prev.len() - 1,
                OrderView { cart: prev.last().cart.push((row.item, row.quantity)), ..prev.last() },
            ));
        } else {
            let order = Order {
                id: row.id,
                owner: clone_text(&row.owner),
                owner_name: clone_text(&row.owner_name),
                cart: vec![(row.item, row.quantity)],
            };
            assert(order@.cart =~= seq![(row.item, row.quantity)]);
            orders.push(order);
            assert(views_of(orders@) =~= prev.push(order_of_row(*row)));
        }
        i += 1;
    }
    assert(rows@.take(n as int) =~= rows@);
    orders
}


pub open spec fn missing_order_error() -> ErrorView {
    ErrorView {
        passthrough: false,
        status: Status::BadRequest,
        reason: Reason::Database,
        message: "The requested resource does not exist"@,
    }
}

/// Reads the rows of one order, the one being closed, as that order: its
/// fields come from the first row, its cart from all of them.
pub fn order_from_rows(rows: &Vec<OrderRow>) -> (r: Result<Order, Error>)
    ensures
        rows@.len() == 0 ==> (r matches Err(e) && e@ == missing_order_error()),
        rows@.len() > 0 ==> (r matches Ok(order) && order@ == (OrderView {
            id: rows@[0].id,
            owner: rows@[0].owner@,
            owner_name: rows@[0].owner_name@,
            cart: row_entries(rows@),
        })),
{
    let n = rows.len();
    if n == 0 {
        return Err(
            Error::Static {
                status: Status::BadRequest,
                reason: Reason::Database,
                message: "The requested resource does not exist",
            },
        );
    }
    let mut cart: Vec<(u32, u32)> = Vec::new();
    let mut i: usize = 0;
    while i < n
        invariant
            n == rows@.len(),
            i <= n,
            cart@ == row_entries(rows@.take(i as int)),
        decreases n - i,
    {
        cart.push((rows[i].item, rows[i].quantity));
        assert(row_entries(rows@.take(i + 1)) =~= row_entries(rows@.take(i as int)).push(
            (rows@[i as int].item, rows@[i as int].quantity),
        ));
        i += 1;
    }
    assert(rows@.take(n as int) =~= rows@);
    Ok(
        Order {
            id: rows[0].id,
            owner: clone_text(&rows[0].owner),
            owner_name: clone_text(&rows[0].owner_name),
            cart,
        },
    )
}

/// The body of a request that places an order: the name to show and the
/// cart, as (item id, quantity) pairs.
#[derive(Debug)]
pub struct PutOrder {
    pub owner_name: String,
    pub cart: Vec<(u32, u32)>,
}

pub fn new_order(owner_name: String, cart: Vec<(u32, u32)>) -> (r: PutOrder)
    ensures
        r.owner_name == owner_name,
        r.cart == cart,
{
    PutOrder { owner_name, cart }
}

pub open spec fn unvalidated_token_error() -> ErrorView {
    ErrorView {
        passthrough: false,
        status: Status::InternalServerError,
        reason: Reason::Authentication,
        message: "JWT Token wasn't correctly validated"@,
    }
}

/// The claims that the authorization step attached to a request; a route
/// behind that step finds none only when the step was left out.
pub fn claims_of(token: Option<&AuthToken>) -> (r: Result<&AuthToken, Error>)
    ensures
        token is None ==> (r is Err && r->Err_0@ == unvalidated_token_error()),
        token is Some ==> r == Ok::<&AuthToken, Error>(token->0),
{
    match token {
        Some(t) => Ok(t),
        None => Err(
            Error::Static {
                status: Status::InternalServerError,
                reason: Reason::Authentication,
                message: "JWT Token wasn't correctly validated",
            },
        ),
    }
}

pub open spec fn empty_cart_error() -> ErrorView {
    ErrorView { passthrough: false, status: Status::BadRequest, reason: Reason::Request, message: "The cart is empty"@ }
}

pub open spec fn over_limit_error() -> ErrorView {
    ErrorView {
        passthrough: false,
        status: Status::BadRequest,
        reason: Reason::Request,
        message: "The quantity exceeds the maximum for the product"@,
    }
}

/// Some entry of the cart asks for more of a product than the product's
/// limit allows; `limits` pairs product ids with their maximum quantity.
pub open spec fn exceeds_limit(cart: Seq<(u32, u32)>, limits: Seq<(u32, u8)>) -> bool {
    exists|i: int, j: int|
        0 <= i < cart.len() && 0 <= j < limits.len() && #[trigger] cart[i].0 == #[trigger] limits[j].0
            && cart[i].1 > limits[j].1
}

/// Why an order is refused before it is stored, if it is.
pub open spec fn put_order_refusal(
    authenticated: bool,
    cart: Seq<(u32, u32)>,
    limits: Seq<(u32, u8)>,
) -> Option<ErrorView> {
    if !authenticated {
        Some(unvalidated_token_error())
    } else if cart.len() == 0 {
        Some(empty_cart_error())
    } else if exceeds_limit(cart, limits) {
        Some(over_limit_error())
    } else {
        None
    }
}

fn first_excess(cart: &Vec<(u32, u32)>, limits: &Vec<(u32, u8)>) -> (r: bool)
    ensures
        r == exceeds_limit(cart@, limits@),
{
    let n = cart.len();
    let m = limits.len();
    let mut i: usize = 0;
    while i < n
        invariant
            n == cart@.len(),
            m == limits@.len(),
            i <= n,
            forall|a: int, b: int|
                0 <= a < i && 0 <= b < m && #[trigger] cart@[a].0 == #[trigger] limits@[b].0
                    ==> cart@[a].1 <= limits@[b].1,
        decreases n - i,
    {
        let mut j: usize = 0;
        while j < m
            invariant
                n == cart@.len(),
                m == limits@.len(),
                i < n,
                j <= m,
                forall|a: int, b: int|
                    0 <= a < i && 0 <= b < m && #[trigger] cart@[a].0 == #[trigger] limits@[b].0
                        ==> cart@[a].1 <= limits@[b].1,
                forall|b: int|
                    0 <= b < j && cart@[i as int].0 == #[trigger] limits@[b].0 ==> cart@[i as int].1
                        <= limits@[b].1,
            decreases m - j,
        {
            if cart[i].0 == limits[j].0 && cart[i].1 > limits[j].1 as u32 {
                assert(cart@[i as int].0 == limits@[j as int].0);
                return true;
            }
            j += 1;
        }
        i += 1;
    }
    false
}

/// Checks an order before it is stored: the request must carry verified
/// claims, the cart must not be empty, and no entry may ask for more of a
/// product than its limit in `limits`.
pub fn check_put_order(token: Option<&AuthToken>, order: &PutOrder, limits: &Vec<(u32, u8)>) -> (r:
    Result<(), Error>)
    ensures
        match put_order_refusal(token is Some, order.cart@, limits@) {
            None => r is Ok,
            Some(e) => r matches Err(err) && err@ == e,
        },
{
    if token.is_none() {
        return Err(
            Error::Static {
                status: Status::InternalServerError,
                reason: Reason::Authentication,
                message: "JWT Token wasn't correctly validated",
            },
        );
    }
    if order.cart.len() == 0 {
        return Err(
            Error::Static {
                status: Status::BadRequest,
                reason: Reason::Request,
                message: "The cart is empty",
            },
        );
    }
    if first_excess(&order.cart, limits) {
        return Err(
            Error::Static {
                status: Status::BadRequest,
                reason: Reason::Request,
                message: "The quantity exceeds the maximum for the product",
            },
        );
    }
    Ok(())
}

/// The order as stored: under the id that the database gave it, owned by
/// the subject of the request's claims.
pub fn placed_order(order: PutOrder, owner: &AuthToken, insert_id: u64) -> (r: Order)
    ensures
        r@ == (OrderView {
            id: insert_id as u32,
            owner: owner.sub@,
            owner_name: order.owner_name@,
            cart: order.cart@,
        }),
{
    Order {
        id: insert_id as u32,
        owner: clone_text(&owner.sub),
        owner_name: order.owner_name,
        cart: order.cart,
    }
}

/// The cart entries of a sequence of orders, one order after the other.
pub open spec fn entries_of(orders: Seq<OrderView>) -> Seq<(u32, u32)>
    decreases orders.len(),
{
    if orders.len() == 0 {
        seq![]
    } else {
        entries_of(orders.drop_last()) + orders.last().cart
    }
}

/// The (item id, quantity) entries that the rows carry.
pub open spec fn row_entries(rows: Seq<OrderRow>) -> Seq<(u32, u32)> {
    rows.map_values(|r: OrderRow| (r.item, r.quantity))
}

/// Reading rows as orders loses no cart entry, adds none, and keeps their
/// order: the carts, one after the other, hold exactly the rows' entries.
pub proof fn lemma_grouping_keeps_entries(rows: Seq<OrderRow>)
    ensures
        entries_of(grouped(rows)) == row_entries(rows),
    decreases rows.len(),
{
    if rows.len() > 0 {
        let prev = grouped(rows.drop_last());
        let r = rows.last();
        lemma_grouping_keeps_entries(rows.drop_last());
        assert(row_entries(rows) =~= row_entries(rows.drop_last()).push((r.item, r.quantity)));
        if prev.len() > 0 && prev.last().id == r.id {
            let o = OrderView { cart: prev.last().cart.push((r.item, r.quantity)), ..prev.last() };
            let g = prev.update(prev.len() - 1, o);
            assert(g.drop_last() =~= prev.drop_last());
            assert(entries_of(g) == entries_of(prev.drop_last()) + o.cart);
            assert(entries_of(prev) == entries_of(prev.drop_last()) + prev.last().cart);
            assert(entries_of(g) =~= entries_of(prev).push((r.item, r.quantity)));
        } else {
            let g = prev.push(order_of_row(r));
            assert(g.drop_last() =~= prev);
            assert(entries_of(g) =~= entries_of(prev) + seq![(r.item, r.quantity)]);
        }
    }
}

/// Every order read from rows has a non-empty cart, and two orders read one
/// after the other never share an id.
pub proof fn lemma_grouped_orders_are_separate(rows: Seq<OrderRow>)
    ensures
        forall|i: int| 0 <= i < grouped(rows).len() ==> #[trigger] grouped(rows)[i].cart.len() > 0,
        forall|i: int|
            0 <= i < grouped(rows).len() - 1 ==> #[trigger] grouped(rows)[i].id != grouped(rows)[i
                + 1].id,
    decreases rows.len(),
{
    if rows.len() > 0 {
        lemma_grouped_orders_are_separate(rows.drop_last());
        let prev = grouped(rows.drop_last());
        let r = rows.last();
        let g = grouped(rows);
        if prev.len() > 0 && prev.last().id == r.id {
            assert forall|i: int| 0 <= i < g.len() implies #[trigger] g[i].cart.len() > 0 by {
                if i < prev.len() - 1 {
                    assert(g[i] == prev[i]);
                }
            }
            assert forall|i: int| 0 <= i < g.len() - 1 implies #[trigger] g[i].id != g[i + 1].id by {
                assert(g[i].id == prev[i].id);
                assert(g[i + 1].id == prev[i + 1].id);
            }
        } else {
            assert forall|i: int| 0 <= i < g.len() implies #[trigger] g[i].cart.len() > 0 by {
                if i < prev.len() {
                    assert(g[i] == prev[i]);
                }
            }
            assert forall|i: int| 0 <= i < g.len() - 1 implies #[trigger] g[i].id != g[i + 1].id by {
                assert(g[i] == prev[i]);
                if i + 1 < prev.len() {
                    assert(g[i + 1] == prev[i + 1]);
                }
            }
        }
    }
}

/// Rows ordered by id.
pub open spec fn rows_sorted(rows: Seq<OrderRow>) -> bool {
    forall|i: int, j: int| 0 <= i <= j < rows.len() ==> rows[i].id <= rows[j].id
}

proof fn lemma_grouped_sorted(rows: Seq<OrderRow>)
    requires
        rows_sorted(rows),
    ensures
        forall|i: int, j: int|
            0 <= i < j < grouped(rows).len() ==> grouped(rows)[i].id < grouped(rows)[j].id,
        rows.len() > 0 ==> grouped(rows).len() > 0 && grouped(rows).last().id == rows.last().id,
        rows.len() == 0 ==> grouped(rows).len() == 0,
    decreases rows.len(),
{
    if rows.len() > 0 {
        let front = rows.drop_last();
        assert(rows_sorted(front));
        lemma_grouped_sorted(front);
        if front.len() > 0 {
            assert(front.last() == rows[rows.len() - 2]);
        }
    }
}

/// Where the rows come ordered by id, as the queries ask for, every order
/// is read once: the orders come with strictly increasing ids.
pub proof fn lemma_sorted_rows_give_unique_orders(rows: Seq<OrderRow>)
    requires
        rows_sorted(rows),
    ensures
        forall|i: int, j: int|
            0 <= i < j < grouped(rows).len() ==> grouped(rows)[i].id < grouped(rows)[j].id,
{
    lemma_grouped_sorted(rows);
}


/// The rows whose order belongs to `owner`, in their order.
pub open spec fn rows_owned_by(rows: Seq<OrderRow>, owner: Seq<char>) -> Seq<OrderRow>
    decreases rows.len(),
{
    if rows.len() == 0 {
        rows
    } else {
        let front = rows_owned_by(rows.drop_last(), owner);
        if rows.last().owner@ == owner {
            front.push(rows.last())
        } else {
            front
        }
    }
}

/// The orders that belong to `owner`, in their order.
pub open spec fn orders_owned_by(orders: Seq<OrderView>, owner: Seq<char>) -> Seq<OrderView>
    decreases orders.len(),
{
    if orders.len() == 0 {
        orders
    } else {
        let front = orders_owned_by(orders.drop_last(), owner);
        if orders.last().owner == owner {
            front.push(orders.last())
        } else {
            front
        }
    }
}

/// Rows of one order id all name the same owner, as rows of a join on the
/// orders table do.
pub open spec fn owners_consistent(rows: Seq<OrderRow>) -> bool {
    forall|i: int, j: int|
        0 <= i < rows.len() && 0 <= j < rows.len() && #[trigger] rows[i].id == #[trigger] rows[j].id
            ==> rows[i].owner@ == rows[j].owner@
}

proof fn lemma_grouped_owner_witness(rows: Seq<OrderRow>)
    ensures
        forall|k: int|
            0 <= k < grouped(rows).len() ==> exists|i: int|
                0 <= i < rows.len() && rows[i].id == #[trigger] grouped(rows)[k].id && rows[i].owner@
                    == grouped(rows)[k].owner,
    decreases rows.len(),
{
    if rows.len() > 0 {
        let front = rows.drop_last();
        lemma_grouped_owner_witness(front);
        let prev = grouped(front);
        let g = grouped(rows);
        assert forall|k: int| 0 <= k < g.len() implies exists|i: int|
            0 <= i < rows.len() && rows[i].id == #[trigger] g[k].id && rows[i].owner@ == g[k].owner by {
            if k < prev.len() {
                assert(g[k].id == prev[k].id && g[k].owner == prev[k].owner);
                let i = choose|i: int|
                    0 <= i < front.len() && front[i].id == #[trigger] prev[k].id && front[i].owner@
                        == prev[k].owner;
                assert(rows[i] == front[i]);
            } else {
                assert(rows[rows.len() - 1] == rows.last());
            }
        }
    }
}

proof fn lemma_owned_orders_come_from(orders: Seq<OrderView>, owner: Seq<char>)
    ensures
        forall|k: int|
            0 <= k < orders_owned_by(orders, owner).len() ==> exists|j: int|
                0 <= j < orders.len() && #[trigger] orders_owned_by(orders, owner)[k] == orders[j],
    decreases orders.len(),
{
    if orders.len() > 0 {
        let front = orders.drop_last();
        lemma_owned_orders_come_from(front, owner);
        let f = orders_owned_by(orders, owner);
        let ff = orders_owned_by(front, owner);
        assert forall|k: int| 0 <= k < f.len() implies exists|j: int|
            0 <= j < orders.len() && #[trigger] f[k] == orders[j] by {
            if k < ff.len() {
                assert(f[k] == ff[k]);
                let j = choose|j: int| 0 <= j < front.len() && #[trigger] ff[k] == front[j];
                assert(orders[j] == front[j]);
            } else {
                assert(f[k] == orders[orders.len() - 1]);
            }
        }
    }
}

/// Reading only one owner's rows gives that owner's orders out of all the
/// orders read: for rows ordered by id, whose rows of one order name one
/// owner, grouping and keeping an owner's rows can be done in either order.
/// So the orders that a subject sees are the orders among all orders that
/// belong to it, with the same carts, in the same order.
pub proof fn lemma_grouping_commutes_with_owner(rows: Seq<OrderRow>, owner: Seq<char>)
    requires
        rows_sorted(rows),
        owners_consistent(rows),
    ensures
        grouped(rows_owned_by(rows, owner)) == orders_owned_by(grouped(rows), owner),
    decreases rows.len(),
{
    if rows.len() > 0 {
        let front = rows.drop_last();
        let r = rows.last();
        assert(rows_sorted(front)) by {
            assert forall|i: int, j: int| 0 <= i <= j < front.len() implies front[i].id <= front[j].id by {
                assert(front[i] == rows[i] && front[j] == rows[j]);
            }
        }
        assert(owners_consistent(front)) by {
            assert forall|i: int, j: int|
                0 <= i < front.len() && 0 <= j < front.len() && #[trigger] front[i].id == #[trigger] front[j].id
                implies front[i].owner@ == front[j].owner@ by {
                assert(front[i] == rows[i] && front[j] == rows[j]);
            }
        }
        lemma_grouping_commutes_with_owner(front, owner);
        lemma_grouped_sorted(front);
        lemma_grouped_owner_witness(front);
        let prev = grouped(front);
        let fprev = orders_owned_by(prev, owner);
        let frows = rows_owned_by(front, owner);
        assert(fprev == grouped(frows));
        assert(r == rows[rows.len() - 1]);
        if r.owner@ == owner {
            assert(rows_owned_by(rows, owner) == frows.push(r));
            assert(frows.push(r).drop_last() =~= frows);
            assert(frows.push(r).last() == r);
        } else {
            assert(rows_owned_by(rows, owner) == frows);
        }
        if prev.len() > 0 && prev.last().id == r.id {
            let k = prev.len() - 1;
            let i = choose|i: int|
                0 <= i < front.len() && front[i].id == #[trigger] prev[k].id && front[i].owner@
                    == prev[k].owner;
            assert(rows[i] == front[i]);
            assert(prev.last().owner == r.owner@);
            let x = OrderView { cart: prev.last().cart.push((r.item, r.quantity)), ..prev.last() };
            let g = prev.update(k, x);
            assert(g.drop_last() =~= prev.drop_last());
            assert(g.last() == x);
            if r.owner@ == owner {
                assert(fprev == orders_owned_by(prev.drop_last(), owner).push(prev.last()));
                let y = OrderView { cart: fprev.last().cart.push((r.item, r.quantity)), ..fprev.last() };
                assert(y == x);
                assert(fprev.update(fprev.len() - 1, y) =~= orders_owned_by(prev.drop_last(), owner).push(x));
            } else {
                assert(fprev == orders_owned_by(prev.drop_last(), owner));
            }
        } else {
            let g = prev.push(order_of_row(r));
            assert(g.drop_last() =~= prev);
            assert(g.last() == order_of_row(r));
            if r.owner@ == owner {
                if fprev.len() > 0 {
                    lemma_owned_orders_come_from(prev, owner);
                    let j = choose|j: int| 0 <= j < prev.len() && #[trigger] fprev[fprev.len() - 1] == prev[j];
                    assert(front.last() == rows[rows.len() - 2]);
                    assert(prev.last().id <= r.id);
                    if j < prev.len() - 1 {
                        assert(prev[j].id < prev[prev.len() - 1].id);
                    }
                    assert(fprev.last().id != r.id);
                }
            }
        }
    }
}


/// Every order read from rows carries the id, owner and owner's name of a
/// row with its id: no order takes its fields from another order's rows.
pub proof fn lemma_grouped_orders_come_from_rows(rows: Seq<OrderRow>)
    ensures
        forall|k: int|
            0 <= k < grouped(rows).len() ==> exists|i: int|
                0 <= i < rows.len() && rows[i].id == #[trigger] grouped(rows)[k].id && rows[i].owner@
                    == grouped(rows)[k].owner && rows[i].owner_name@ == grouped(rows)[k].owner_name,
    decreases rows.len(),
{
    if rows.len() > 0 {
        let front = rows.drop_last();
        lemma_grouped_orders_come_from_rows(front);
        let prev = grouped(front);
        let g = grouped(rows);
        assert forall|k: int| 0 <= k < g.len() implies exists|i: int|
            0 <= i < rows.len() && rows[i].id == #[trigger] g[k].id && rows[i].owner@ == g[k].owner
                && rows[i].owner_name@ == g[k].owner_name by {
            if k < prev.len() {
                assert(g[k].id == prev[k].id && g[k].owner == prev[k].owner && g[k].owner_name
                    == prev[k].owner_name);
                let i = choose|i: int|
                    0 <= i < front.len() && front[i].id == #[trigger] prev[k].id && front[i].owner@
                        == prev[k].owner && front[i].owner_name@ == prev[k].owner_name;
                assert(rows[i] == front[i]);
            } else {
                assert(rows[rows.len() - 1] == rows.last());
            }
        }
    }
}

} // verus!
