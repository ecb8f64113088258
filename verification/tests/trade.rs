use delivery_order::trade::classify;
use delivery_order::Trade;

#[test]
fn classify_follows_the_table() {
    assert_eq!(classify("证券卖出"), Trade::Sell);
    assert_eq!(classify("证券买入"), Trade::Buy);
    assert_eq!(classify("开放基金认购结果"), Trade::Buy);
    assert_eq!(classify("银证转存"), Trade::In);
    assert_eq!(classify("银行转存"), Trade::In);
    assert_eq!(classify("利息归本"), Trade::In);
    assert_eq!(classify("银证转取"), Trade::Out);
    assert_eq!(classify("银行转取"), Trade::Out);
}

#[test]
fn classify_gives_ignore_for_every_other_text() {
    let texts = ["", "卖出", "买入", "证券卖出 ", " 证券卖出", "证券", "红利入账", "sell", "证券卖出\t"];
    for text in texts {
        assert_eq!(classify(text), Trade::Ignore, "{:?}", text);
    }
}

#[test]
fn every_action_but_ignore_has_a_label() {
    assert_eq!(Trade::Sell.label(), Some("卖出"));
    assert_eq!(Trade::Buy.label(), Some("买入"));
    assert_eq!(Trade::In.label(), Some("银证转入"));
    assert_eq!(Trade::Out.label(), Some("银证转出"));
    assert_eq!(Trade::Ignore.label(), None);
}

#[test]
fn from_label_is_the_inverse_of_label() {
    for trade in [Trade::Sell, Trade::Buy, Trade::In, Trade::Out] {
        assert_eq!(Trade::from_label(trade.label().unwrap()), trade);
    }
    assert_eq!(Trade::from_label(""), Trade::Ignore);
    assert_eq!(Trade::from_label("证券卖出"), Trade::Ignore);
    assert_eq!(Trade::from_label("卖出 "), Trade::Ignore);
}

#[test]
fn the_default_action_is_ignore() {
    assert_eq!(Trade::default(), Trade::Ignore);
}
