use delivery_order::{DeliveryOrder, Trade};

fn sample_order() -> DeliveryOrder {
    DeliveryOrder::default()
        .with_date(String::from("20210104"))
        .with_code(String::from("600000"))
        .with_name(String::from("浦发银行"))
        .with_kind(String::from("买入"))
        .with_count(String::from("100"))
        .with_prize(String::from("9.680"))
        .with_amount(String::from("-973.00"))
        .with_owned(String::from("100"))
        .with_trade(Trade::Buy)
}

#[test]
fn a_default_order_is_empty_and_ignored() {
    let order = DeliveryOrder::default();
    assert_eq!(order.get_code(), "");
    assert_eq!(order.get_name(), "");
    assert_eq!(order.get_date(), "");
    assert_eq!(order.get_kind(), "");
    assert_eq!(order.get_count(), "");
    assert_eq!(order.get_prize(), "");
    assert_eq!(order.get_amount(), "");
    assert_eq!(order.get_owned(), "");
    assert_eq!(order.get_trade(), &Trade::Ignore);
    assert!(!order.is_valid());
}

#[test]
fn builders_set_one_field_each() {
    let order = sample_order();
    assert_eq!(order.get_date(), "20210104");
    assert_eq!(order.get_code(), "600000");
    assert_eq!(order.get_name(), "浦发银行");
    assert_eq!(order.get_kind(), "买入");
    assert_eq!(order.get_count(), "100");
    assert_eq!(order.get_prize(), "9.680");
    assert_eq!(order.get_amount(), "-973.00");
    assert_eq!(order.get_owned(), "100");
    assert_eq!(order.get_trade(), &Trade::Buy);
}

#[test]
fn setters_set_one_field_each() {
    let mut order = sample_order();
    order.set_code(String::from("000001"));
    assert_eq!(order.get_code(), "000001");
    assert_eq!(order.get_name(), "浦发银行");
    order.set_name(String::from("平安银行"));
    order.set_date(String::from("20210105"));
    order.set_kind(String::from("卖出"));
    order.set_count(String::from("-50"));
    order.set_prize(String::from("19.5"));
    order.set_amount(String::from("975.00"));
    order.set_owned(String::from("50"));
    assert_eq!(order.get_code(), "000001");
    assert_eq!(order.get_name(), "平安银行");
    assert_eq!(order.get_date(), "20210105");
    assert_eq!(order.get_kind(), "卖出");
    assert_eq!(order.get_count(), "-50");
    assert_eq!(order.get_prize(), "19.5");
    assert_eq!(order.get_amount(), "975.00");
    assert_eq!(order.get_owned(), "50");
    assert_eq!(order.get_trade(), &Trade::Buy);
}

#[test]
fn an_order_is_valid_unless_its_action_is_ignore() {
    for trade in [Trade::Buy, Trade::Sell, Trade::In, Trade::Out] {
        assert!(DeliveryOrder::default().with_trade(trade).is_valid());
    }
    assert!(!sample_order().with_trade(Trade::Ignore).is_valid());
}

#[test]
fn a_clone_holds_the_same_fields() {
    let order = sample_order();
    let copy = order.clone();
    assert_eq!(copy.to_row(), order.to_row());
    assert_eq!(copy.get_trade(), order.get_trade());
}

#[test]
fn to_row_has_the_order_of_the_report() {
    assert_eq!(
        sample_order().to_row(),
        vec!["20210104", "600000", "浦发银行", "买入", "100", "9.680", "-973.00", "100"]
    );
}
