use order_desk::model::{Order, Product, ProductKind};

fn product(id: u32, name: &str) -> Product {
    Product {
        id,
        kind: ProductKind::Available,
        name: String::from(name),
        price: 100,
        max_num: 3,
        ingredients: None,
        image: vec![0x89, 0x50, 0x4E, 0x47, 0x0D, 0x0A, 0x1A, 0x0A],
    }
}

#[test]
fn products_with_same_id_are_equal() {
    assert!(product(1, "Test") == product(1, "Other"));
}

#[test]
fn products_with_same_content_are_equal() {
    assert!(product(1, "Test") == product(3, "Test"));
}

#[test]
fn different_products_differ() {
    assert!(product(1, "Test") != product(2, "Other"));
    let mut with_ingredients = product(2, "Test");
    with_ingredients.ingredients = Some(String::from("flour"));
    assert!(product(1, "Test") != with_ingredients);
    let mut other_image = product(2, "Test");
    other_image.image.push(0);
    assert!(product(1, "Test") != other_image);
}

#[test]
fn stored_product_takes_insert_id() {
    let stored = product(0, "Test").with_id(7);
    assert_eq!(stored.id, 7);
    assert_eq!(stored.name, "Test");
    assert_eq!(product(0, "Test").with_id((1u64 << 32) + 1).id, 1);
}

fn order(id: u32, owner: &str) -> Order {
    Order { id, owner: owner.to_string(), owner_name: "Test".to_string(), cart: vec![(1, 3)] }
}

#[test]
fn orders_compare_like_products() {
    assert!(order(1, "a") == order(1, "b"));
    assert!(order(1, "a") == order(2, "a"));
    assert!(order(1, "a") != order(2, "b"));
}

#[test]
fn cart_can_be_changed_in_place() {
    let mut o = order(1, "a");
    o.cart_mut().push((2, 1));
    assert_eq!(o.cart, vec![(1, 3), (2, 1)]);
    assert_eq!(o.id, 1);
}
