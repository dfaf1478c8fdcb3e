use order_desk::auth::{AuthToken, Moment};
use order_desk::error::{Reason, Status};
use order_desk::model::Order;
use order_desk::orders::{check_put_order, group_rows, new_order, order_from_rows, placed_order, OrderRow};

fn row(id: u32, owner: &str, item: u32, quantity: u32) -> OrderRow {
    OrderRow {
        id,
        owner: owner.to_string(),
        owner_name: format!("{} name", owner),
        item,
        quantity,
    }
}

fn token() -> AuthToken {
    AuthToken {
        sub: "test".to_string(),
        exp: Moment { seconds: 0, nanos: 0, offset_seconds: 0 },
        idempotency: "test".to_string(),
    }
}

#[test]
fn rows_are_grouped_by_order() {
    let rows = vec![row(1, "a", 10, 1), row(1, "a", 11, 2), row(2, "b", 10, 3)];
    let orders = group_rows(&rows);
    assert_eq!(orders.len(), 2);
    assert_eq!(orders[0].id, 1);
    assert_eq!(orders[0].owner, "a");
    assert_eq!(orders[0].owner_name, "a name");
    assert_eq!(orders[0].cart, vec![(10, 1), (11, 2)]);
    assert_eq!(orders[1].id, 2);
    assert_eq!(orders[1].cart, vec![(10, 3)]);
}

#[test]
fn no_rows_give_no_orders() {
    assert!(group_rows(&vec![]).is_empty());
}

#[test]
fn separated_rows_of_one_id_open_new_orders() {
    let rows = vec![row(1, "a", 1, 1), row(2, "b", 2, 2), row(1, "a", 3, 3)];
    let orders = group_rows(&rows);
    assert_eq!(orders.len(), 3);
    let entries: Vec<(u32, u32)> = orders.iter().flat_map(|o| o.cart.clone()).collect();
    assert_eq!(entries, vec![(1, 1), (2, 2), (3, 3)]);
}

#[test]
fn closed_order_reads_all_rows() {
    let rows = vec![row(7, "a", 10, 1), row(7, "a", 11, 2)];
    let order = order_from_rows(&rows).unwrap();
    assert_eq!(order.id, 7);
    assert_eq!(order.owner, "a");
    assert_eq!(order.cart, vec![(10, 1), (11, 2)]);
}

#[test]
fn closing_missing_order_is_refused() {
    let e = order_from_rows(&vec![]).unwrap_err();
    assert_eq!(e.status_code(), Status::BadRequest);
    assert_eq!(e.reason(), Reason::Database);
    assert_eq!(e.message(), "The requested resource does not exist");
}

#[test]
fn order_without_claims_is_refused() {
    let order = new_order(String::from("Test"), vec![(1, 3)]);
    let e = check_put_order(None, &order, &vec![(1, 3)]).unwrap_err();
    assert_eq!(e.status_code().code(), 500);
    assert_eq!(e.reason(), Reason::Authentication);
    assert_eq!(e.message(), "JWT Token wasn't correctly validated");
}

#[test]
fn empty_cart_is_refused() {
    let order = new_order(String::from("Test"), vec![]);
    let e = check_put_order(Some(&token()), &order, &vec![(1, 3)]).unwrap_err();
    assert_eq!(e.status_code(), Status::BadRequest);
    assert_eq!(e.reason(), Reason::Request);
    assert_eq!(e.message(), "The cart is empty");
}

#[test]
fn quantity_over_max_num_is_refused() {
    let order = new_order(String::from("Test"), vec![(1, 4)]);
    let e = check_put_order(Some(&token()), &order, &vec![(1, 3)]).unwrap_err();
    assert_eq!(e.status_code(), Status::BadRequest);
    assert_eq!(e.reason(), Reason::Request);
    assert_eq!(e.message(), "The quantity exceeds the maximum for the product");
}

#[test]
fn order_within_limits_is_accepted() {
    let order = new_order(String::from("Test"), vec![(1, 3), (2, 9)]);
    assert!(check_put_order(Some(&token()), &order, &vec![(1, 3)]).is_ok());
}

#[test]
fn placed_order_takes_id_and_owner() {
    let order = new_order(String::from("Test"), vec![(1, 3)]);
    let expected = Order {
        id: 2,
        owner: String::from("test"),
        owner_name: String::from("Test"),
        cart: vec![(1, 3)],
    };
    let placed = placed_order(order, &token(), 2);
    assert!(placed.same_order(&expected));
    assert_eq!(placed.owner, "test");
    assert_eq!(placed.owner_name, "Test");
    assert_eq!(placed.cart, vec![(1, 3)]);
}

#[test]
fn placed_order_id_keeps_low_bits() {
    let order = new_order(String::from("T"), vec![(1, 1)]);
    assert_eq!(placed_order(order, &token(), (1u64 << 32) + 5).id, 5);
}

#[test]
fn owner_sees_their_orders_among_all() {
    let rows = vec![row(1, "a", 10, 1), row(1, "a", 11, 2), row(2, "b", 10, 3), row(3, "a", 12, 1)];
    let all = group_rows(&rows);
    let own_rows: Vec<OrderRow> = rows.into_iter().filter(|r| r.owner == "a").collect();
    let own = group_rows(&own_rows);
    let all_of_a: Vec<&Order> = all.iter().filter(|o| o.owner == "a").collect();
    assert_eq!(own.len(), all_of_a.len());
    for (x, y) in own.iter().zip(all_of_a) {
        assert_eq!(x.id, y.id);
        assert_eq!(x.cart, y.cart);
    }
    assert_eq!(own[1].id, 3);
}
