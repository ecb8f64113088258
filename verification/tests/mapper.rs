use delivery_order::schema::{column_kind, map_columns, map_fixed, Column, FixedSchema};
use delivery_order::{OrderError, Trade};

fn strings(items: &[&str]) -> Vec<String> {
    items.iter().map(|v| String::from(*v)).collect()
}

fn twenty(prefix: &str) -> Vec<String> {
    (0..20).map(|i| format!("{}{}", prefix, i)).collect()
}

fn fixed_line() -> Vec<String> {
    let mut columns = twenty("x");
    columns[0] = String::from(" 20210104 ");
    columns[2] = String::from("600000");
    columns[3] = String::from("浦发银行");
    columns[4] = String::from("卖出");
    columns[5] = String::from("-300.00");
    columns[6] = String::from("9.680");
    columns[11] = String::from("2904.00");
    columns[18] = String::from("700");
    columns
}

#[test]
fn column_kind_knows_every_synonym() {
    assert_eq!(column_kind("发生日期"), Column::Date);
    assert_eq!(column_kind("日期"), Column::Date);
    assert_eq!(column_kind("证券代码"), Column::Code);
    assert_eq!(column_kind("证券名称"), Column::Name);
    assert_eq!(column_kind("股票名称"), Column::Name);
    assert_eq!(column_kind("成交数量"), Column::Quantity);
    assert_eq!(column_kind("发生数量"), Column::Quantity);
    assert_eq!(column_kind("成交价格"), Column::Price);
    assert_eq!(column_kind("成交均价"), Column::Price);
    assert_eq!(column_kind("发生金额"), Column::Amount);
    assert_eq!(column_kind("收付金额"), Column::Amount);
    assert_eq!(column_kind("业务名称"), Column::Business);
    assert_eq!(column_kind("业务标志"), Column::Business);
    assert_eq!(column_kind("证券数量"), Column::Remaining);
}

#[test]
fn column_kind_matches_titles_exactly() {
    for title in ["", "日期 ", " 日期", "成交日期", "证券余额", "手续费", "date"] {
        assert_eq!(column_kind(title), Column::Other, "{:?}", title);
    }
}

#[test]
fn a_sale_of_200_point_0_is_staged_with_magnitude_200() {
    let titles = strings(&["业务名称", "成交数量"]);
    let staged = map_columns(&titles, &strings(&["证券卖出", "200.0"])).unwrap();
    assert_eq!(staged.order().get_trade(), &Trade::Sell);
    assert_eq!(staged.order().get_kind(), "卖出");
    assert_eq!(staged.magnitude(), 200);
    assert_eq!(staged.remaining(), None);
}

#[test]
fn the_magnitude_is_the_absolute_value_of_the_quantity() {
    let titles = strings(&["发生数量"]);
    assert_eq!(map_columns(&titles, &strings(&["-300.00"])).unwrap().magnitude(), 300);
    assert_eq!(map_columns(&titles, &strings(&["300"])).unwrap().magnitude(), 300);
    assert_eq!(map_columns(&titles, &strings(&[" 12.9 "])).unwrap().magnitude(), 12);
    assert_eq!(map_columns(&titles, &strings(&["-1e30"])).unwrap().magnitude(), i64::MAX);
}

#[test]
fn a_line_without_a_quantity_has_magnitude_zero() {
    let staged = map_columns(&strings(&["证券代码"]), &strings(&["600000"])).unwrap();
    assert_eq!(staged.magnitude(), 0);
    assert_eq!(staged.order().get_trade(), &Trade::Ignore);
}

#[test]
fn columns_are_read_by_title_in_any_order() {
    let titles = strings(&["证券数量", "收付金额", "成交均价", "发生数量", "业务标志", "股票名称", "证券代码", "日期", "备注"]);
    let columns = strings(&["-5.0", " 1.50 ", "0.30", "5", "银行转取", " 货币 ", "511990", "20210301", "x"]);
    let staged = map_columns(&titles, &columns).unwrap();
    let order = staged.order();
    assert_eq!(order.get_date(), "20210301");
    assert_eq!(order.get_code(), "511990");
    assert_eq!(order.get_name(), "货币");
    assert_eq!(order.get_kind(), "银证转出");
    assert_eq!(order.get_prize(), "0.30");
    assert_eq!(order.get_amount(), "1.50");
    assert_eq!(order.get_count(), "");
    assert_eq!(order.get_owned(), "");
    assert_eq!(order.get_trade(), &Trade::Out);
    assert_eq!(staged.magnitude(), 5);
    assert_eq!(staged.remaining(), Some(-5));
}

#[test]
fn unknown_titles_are_passed_over() {
    let staged = map_columns(&strings(&["手续费", "印花税"]), &strings(&["5.00", "abc"])).unwrap();
    assert_eq!(staged.order().to_row(), vec!["", "", "", "", "", "", "", ""]);
    assert_eq!(staged.magnitude(), 0);
}

#[test]
fn the_later_of_two_columns_for_one_field_stands() {
    let titles = strings(&["发生日期", "日期", "成交数量", "发生数量"]);
    let staged = map_columns(&titles, &strings(&["20210101", "20210102", "10", "20"])).unwrap();
    assert_eq!(staged.order().get_date(), "20210102");
    assert_eq!(staged.magnitude(), 20);
}

#[test]
fn an_unknown_business_type_gives_ignore_and_leaves_the_label() {
    let titles = strings(&["业务名称", "业务标志"]);
    let staged = map_columns(&titles, &strings(&["证券买入", "红利入账"])).unwrap();
    assert_eq!(staged.order().get_trade(), &Trade::Ignore);
    assert_eq!(staged.order().get_kind(), "买入");
    let staged = map_columns(&titles, &strings(&["红利入账", "证券买入"])).unwrap();
    assert_eq!(staged.order().get_trade(), &Trade::Buy);
    assert_eq!(staged.order().get_kind(), "买入");
}

#[test]
fn the_business_type_is_looked_up_as_it_stands() {
    let titles = strings(&["业务名称"]);
    let staged = map_columns(&titles, &strings(&[" 证券卖出"])).unwrap();
    assert_eq!(staged.order().get_trade(), &Trade::Ignore);
    assert_eq!(staged.order().get_kind(), "");
}

#[test]
fn another_number_of_fields_than_titles_is_a_format_mismatch() {
    let titles = strings(&["证券代码", "成交数量"]);
    assert_eq!(map_columns(&titles, &strings(&["600000"])).unwrap_err(), OrderError::FormatMismatch);
    assert_eq!(
        map_columns(&titles, &strings(&["600000", "1", "2"])).unwrap_err(),
        OrderError::FormatMismatch
    );
    assert_eq!(map_columns(&titles, &strings(&[])).unwrap_err(), OrderError::FormatMismatch);
    assert_eq!(
        map_columns(&strings(&[]), &strings(&[""])).unwrap_err(),
        OrderError::FormatMismatch
    );
}

#[test]
fn a_quantity_that_is_no_number_is_a_parse_error_at_its_column() {
    let titles = strings(&["证券代码", "成交数量", "证券数量"]);
    assert_eq!(
        map_columns(&titles, &strings(&["600000", "abc", "1"])).unwrap_err(),
        OrderError::ParseError { column: 1 }
    );
    assert_eq!(
        map_columns(&titles, &strings(&["600000", "1", ""])).unwrap_err(),
        OrderError::ParseError { column: 2 }
    );
    assert_eq!(
        map_columns(&titles, &strings(&["600000", "", "x"])).unwrap_err(),
        OrderError::ParseError { column: 1 }
    );
}

#[test]
fn the_positional_schema_reads_eight_of_twenty_columns() {
    let staged = map_fixed(&fixed_line()).unwrap();
    let order = staged.order();
    assert_eq!(order.get_date(), "20210104");
    assert_eq!(order.get_code(), "600000");
    assert_eq!(order.get_name(), "浦发银行");
    assert_eq!(order.get_kind(), "卖出");
    assert_eq!(order.get_prize(), "9.680");
    assert_eq!(order.get_amount(), "2904.00");
    assert_eq!(order.get_count(), "");
    assert_eq!(order.get_owned(), "");
    assert_eq!(order.get_trade(), &Trade::Sell);
    assert_eq!(staged.magnitude(), 300);
    assert_eq!(staged.remaining(), Some(700));
}

#[test]
fn the_positional_schema_copies_the_flag_as_it_stands() {
    let mut columns = fixed_line();
    columns[4] = String::from(" 申购 ");
    let staged = map_fixed(&columns).unwrap();
    assert_eq!(staged.order().get_kind(), " 申购 ");
    assert_eq!(staged.order().get_trade(), &Trade::Ignore);
}

#[test]
fn the_positional_schema_wants_exactly_twenty_fields() {
    let mut columns = fixed_line();
    columns.push(String::from("extra"));
    assert_eq!(map_fixed(&columns).unwrap_err(), OrderError::FormatMismatch);
    columns.truncate(19);
    assert_eq!(map_fixed(&columns).unwrap_err(), OrderError::FormatMismatch);
    assert_eq!(map_fixed(&strings(&[])).unwrap_err(), OrderError::FormatMismatch);
}

#[test]
fn the_positional_schema_reports_the_column_that_is_no_number() {
    let mut columns = fixed_line();
    columns[18] = String::from("-");
    assert_eq!(map_fixed(&columns).unwrap_err(), OrderError::ParseError { column: 18 });
    columns[5] = String::from("");
    assert_eq!(map_fixed(&columns).unwrap_err(), OrderError::ParseError { column: 5 });
}

#[test]
fn a_fixed_schema_has_twenty_titles() {
    assert!(FixedSchema::new(twenty("t")).is_ok());
    assert_eq!(FixedSchema::new(strings(&["a", "b"])).unwrap_err(), OrderError::FormatMismatch);
    assert_eq!(FixedSchema::new(strings(&[])).unwrap_err(), OrderError::FormatMismatch);
    let mut many = twenty("t");
    many.push(String::from("t20"));
    assert_eq!(FixedSchema::new(many).unwrap_err(), OrderError::FormatMismatch);
}

#[test]
fn a_fixed_schema_accepts_its_own_title_row_only() {
    let schema = FixedSchema::new(twenty("t")).unwrap();
    assert_eq!(schema.check_titles(&twenty("t")), Ok(()));
    let mut swapped = twenty("t");
    swapped.swap(3, 4);
    assert_eq!(schema.check_titles(&swapped), Err(OrderError::FormatMismatch));
    let mut last = twenty("t");
    last[19] = String::from("t19 ");
    assert_eq!(schema.check_titles(&last), Err(OrderError::FormatMismatch));
    assert_eq!(schema.check_titles(&twenty("u")), Err(OrderError::FormatMismatch));
    let mut short = twenty("t");
    short.pop();
    assert_eq!(schema.check_titles(&short), Err(OrderError::FormatMismatch));
    let mut long = twenty("t");
    long.push(String::from("t20"));
    assert_eq!(schema.check_titles(&long), Err(OrderError::FormatMismatch));
}

#[test]
fn only_a_format_mismatch_is_fatal() {
    assert!(OrderError::FormatMismatch.fatal());
    assert!(!OrderError::ParseError { column: 0 }.fatal());
    assert!(!OrderError::Overflow.fatal());
}
