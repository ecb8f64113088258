use delivery_order::htsc::Context;
use delivery_order::pipeline::{
    decode_line, supports, Action, Consumer, Delivery, Phase, Producer, Step,
};
use delivery_order::schema::FixedSchema;
use delivery_order::{DeliveryOrder, OrderError, Trade};

const TITLE_ROW: &str = "发生日期\t证券代码\t证券名称\t业务名称\t成交数量\t成交价格\t发生金额\t证券数量\n";

fn twenty(prefix: &str) -> Vec<String> {
    (0..20).map(|i| format!("{}{}", prefix, i)).collect()
}

fn record(step: Step) -> DeliveryOrder {
    match step.delivery {
        Delivery::Record(order) => order,
        other => panic!("no record: {:?}", other),
    }
}

fn is_nothing(step: &Step) -> bool {
    matches!(step.delivery, Delivery::Nothing)
}

fn is_sentinel(step: &Step) -> bool {
    matches!(step.delivery, Delivery::Sentinel)
}

/// Runs a producer over a file that is read by its titles, and gives what it
/// puts into the queue.
fn outbox(ctx: &mut Context, lines: &[&str]) -> Vec<Option<DeliveryOrder>> {
    let mut producer = Producer::new();
    let mut sent = Vec::new();
    for line in lines {
        match producer.feed(ctx, String::from(*line)).delivery {
            Delivery::Record(order) => sent.push(Some(order)),
            Delivery::Sentinel => sent.push(None),
            Delivery::Nothing => {}
        }
    }
    match producer.finish().delivery {
        Delivery::Record(order) => sent.push(Some(order)),
        Delivery::Sentinel => sent.push(None),
        Delivery::Nothing => {}
    }
    sent
}

#[test]
fn gbk_bytes_are_decoded_to_text() {
    let bytes = [0xd6u8, 0xa4, 0xc8, 0xaf, 0xb4, 0xfa, 0xc2, 0xeb];
    assert_eq!(decode_line(&bytes), Some(String::from("证券代码")));
    assert_eq!(decode_line(b"600000\t100\n"), Some(String::from("600000\t100\n")));
    assert_eq!(decode_line(&[]), Some(String::new()));
}

#[test]
fn malformed_gbk_bytes_become_replacement_characters() {
    assert_eq!(decode_line(&[0x41, 0xff, 0x42]), Some(String::from("A\u{FFFD}B")));
}

#[test]
fn a_producer_reads_gbk_lines() {
    let title: [u8; 72] = [
        0xb7, 0xa2, 0xc9, 0xfa, 0xc8, 0xd5, 0xc6, 0xda, 0x09, 0xd6, 0xa4, 0xc8, 0xaf, 0xb4, 0xfa,
        0xc2, 0xeb, 0x09, 0xd6, 0xa4, 0xc8, 0xaf, 0xc3, 0xfb, 0xb3, 0xc6, 0x09, 0xd2, 0xb5, 0xce,
        0xf1, 0xc3, 0xfb, 0xb3, 0xc6, 0x09, 0xb3, 0xc9, 0xbd, 0xbb, 0xca, 0xfd, 0xc1, 0xbf, 0x09,
        0xb3, 0xc9, 0xbd, 0xbb, 0xbc, 0xdb, 0xb8, 0xf1, 0x09, 0xb7, 0xa2, 0xc9, 0xfa, 0xbd, 0xf0,
        0xb6, 0xee, 0x09, 0xd6, 0xa4, 0xc8, 0xaf, 0xca, 0xfd, 0xc1, 0xbf, 0x0a,
    ];
    let line: [u8; 59] = [
        0x32, 0x30, 0x32, 0x31, 0x30, 0x31, 0x30, 0x34, 0x09, 0x36, 0x30, 0x30, 0x30, 0x30, 0x30,
        0x09, 0xc6, 0xd6, 0xb7, 0xa2, 0xd2, 0xf8, 0xd0, 0xd0, 0x09, 0xd6, 0xa4, 0xc8, 0xaf, 0xc2,
        0xf2, 0xc8, 0xeb, 0x09, 0x31, 0x30, 0x30, 0x2e, 0x30, 0x30, 0x09, 0x39, 0x2e, 0x36, 0x38,
        0x30, 0x09, 0x2d, 0x39, 0x37, 0x33, 0x2e, 0x30, 0x30, 0x09, 0x31, 0x30, 0x30, 0x0a,
    ];
    let mut ctx = Context::new();
    let mut producer = Producer::new();
    assert!(is_nothing(&producer.feed_bytes(&mut ctx, &title)));
    assert_eq!(
        producer.titles(),
        &vec!["发生日期", "证券代码", "证券名称", "业务名称", "成交数量", "成交价格", "发生金额", "证券数量"]
    );
    let order = record(producer.feed_bytes(&mut ctx, &line));
    assert_eq!(
        order.to_row(),
        vec!["20210104", "600000", "浦发银行", "买入", "100", "9.680", "-973.00", "100"]
    );
    assert!(is_sentinel(&producer.feed_bytes(&mut ctx, b"short line\n")));
}

#[test]
fn only_names_that_end_in_txt_are_supported() {
    assert!(supports("orders.txt"));
    assert!(supports("/tmp/交割单.txt"));
    assert!(supports("txt"));
    assert!(supports("orders_txt"));
    assert!(!supports("orders.xls"));
    assert!(!supports("orders.TXT"));
    assert!(!supports("orders.txt "));
    assert!(!supports("xt"));
    assert!(!supports(""));
}

#[test]
fn a_producer_goes_from_reading_to_emitting_to_drained() {
    let mut ctx = Context::new();
    let mut producer = Producer::new();
    assert_eq!(producer.phase(), Phase::Reading);
    let step = producer.feed(&mut ctx, String::from(TITLE_ROW));
    assert!(is_nothing(&step) && step.error.is_none() && step.mismatch.is_none());
    assert_eq!(producer.phase(), Phase::Emitting);
    let order = record(producer.feed(&mut ctx, String::from("d1\t600000\tn\t证券买入\t100\t1\t-100\t100")));
    assert_eq!(order.get_owned(), "100");
    assert_eq!(producer.phase(), Phase::Emitting);
    let end = producer.finish();
    assert!(is_sentinel(&end) && end.error.is_none());
    assert_eq!(producer.phase(), Phase::Drained);
}

#[test]
fn a_producer_sends_one_sentinel_only() {
    let mut ctx = Context::new();
    let mut producer = Producer::new();
    producer.feed(&mut ctx, String::from(TITLE_ROW));
    assert!(is_sentinel(&producer.finish()));
    assert!(is_nothing(&producer.finish()));
    let late = producer.feed(&mut ctx, String::from("d1\t600000\tn\t证券买入\t100\t1\t-100\t100"));
    assert!(is_nothing(&late) && late.error.is_none());
    assert_eq!(producer.phase(), Phase::Drained);
    assert!(!ctx.has("600000"));
}

#[test]
fn an_empty_file_gives_the_sentinel_alone() {
    let mut ctx = Context::new();
    let sent = outbox(&mut ctx, &[]);
    assert_eq!(sent.len(), 1);
    assert!(sent[0].is_none());
}

#[test]
fn a_record_with_action_ignore_is_never_delivered() {
    let mut ctx = Context::new();
    let sent = outbox(
        &mut ctx,
        &[
            TITLE_ROW,
            "d1\t600000\tn\t证券买入\t100\t1\t-100\t100",
            "d2\t600000\tn\t红利入账\t10\t0\t3.50\t110",
            "d3\t\t\t利息归本\t0\t0\t0.12\t0",
            "d4\t600000\tn\t股息入账\t0\t0\t1\t110",
            "d5\t600000\tn\t证券卖出\t60\t1\t60\t50",
        ],
    );
    assert_eq!(sent.len(), 4);
    let kinds: Vec<String> =
        sent.iter().flatten().map(|order| order.get_kind().clone()).collect();
    assert_eq!(kinds, vec!["买入", "银证转入", "卖出"]);
    for message in sent.iter().flatten() {
        assert!(message.is_valid());
        assert_ne!(message.get_trade(), &Trade::Ignore);
    }
    assert!(sent[3].is_none());
    assert_eq!(ctx.get_count("600000"), Some(&50));
}

#[test]
fn a_dropped_record_still_reports_its_notice() {
    let mut ctx = Context::new();
    let mut producer = Producer::new();
    producer.feed(&mut ctx, String::from(TITLE_ROW));
    let step = producer.feed(&mut ctx, String::from("d2\t600000\tn\t红利入账\t10\t0\t3.50\t110"));
    assert!(is_nothing(&step));
    assert!(step.error.is_none());
    let notice = step.mismatch.unwrap();
    assert_eq!((notice.vendor, notice.local), (110, 10));
}

#[test]
fn a_line_that_does_not_parse_is_skipped() {
    let mut ctx = Context::new();
    let mut producer = Producer::new();
    producer.feed(&mut ctx, String::from(TITLE_ROW));
    let bad = producer.feed(&mut ctx, String::from("d1\t600000\tn\t证券买入\tmany\t1\t-100\t100"));
    assert!(is_nothing(&bad));
    assert_eq!(bad.error, Some(OrderError::ParseError { column: 4 }));
    assert_eq!(producer.phase(), Phase::Emitting);
    let good = record(producer.feed(&mut ctx, String::from("d2\t600000\tn\t证券买入\t5\t1\t-5\t5")));
    assert_eq!(good.get_owned(), "5");
}

#[test]
fn a_line_of_another_format_ends_the_file() {
    let mut ctx = Context::new();
    let mut producer = Producer::new();
    producer.feed(&mut ctx, String::from(TITLE_ROW));
    record(producer.feed(&mut ctx, String::from("d1\t600000\tn\t证券买入\t100\t1\t-100\t100")));
    let bad = producer.feed(&mut ctx, String::from("\n"));
    assert!(is_sentinel(&bad));
    assert_eq!(bad.error, Some(OrderError::FormatMismatch));
    assert_eq!(producer.phase(), Phase::Drained);
    assert!(is_nothing(&producer.feed(&mut ctx, String::from("d2\t600000\tn\t证券买入\t5\t1\t-5\t105"))));
    assert!(is_nothing(&producer.finish()));
    assert_eq!(ctx.get_count("600000"), Some(&100));
}

#[test]
fn a_title_row_that_is_not_the_reference_is_rejected_before_any_record() {
    let mut ctx = Context::new();
    let mut producer = Producer::fixed(FixedSchema::new(twenty("title")).unwrap());
    let mut row = twenty("title");
    row[7] = String::from("other");
    let step = producer.feed(&mut ctx, row.join("\t") + "\n");
    assert!(is_sentinel(&step));
    assert_eq!(step.error, Some(OrderError::FormatMismatch));
    assert_eq!(producer.phase(), Phase::Drained);
    let line = "20210104\tt\t600000\t浦发银行\t卖出\t300.00\t9.680\ta\tb\tc\td\t2904.00\te\tf\tg\th\ti\tj\t700\tk\n";
    let late = producer.feed(&mut ctx, String::from(line));
    assert!(is_nothing(&late) && late.error.is_none());
    assert!(is_nothing(&producer.finish()));
    assert!(!ctx.has("600000"));
}

#[test]
fn a_title_row_of_another_length_is_rejected() {
    let mut ctx = Context::new();
    let mut producer = Producer::fixed(FixedSchema::new(twenty("title")).unwrap());
    let mut row = twenty("title");
    row.push(String::from("title20"));
    let step = producer.feed(&mut ctx, row.join("\t"));
    assert!(is_sentinel(&step));
    assert_eq!(step.error, Some(OrderError::FormatMismatch));
}

#[test]
fn a_file_of_the_positional_schema_is_read_by_position() {
    let mut ctx = Context::new();
    let mut producer = Producer::fixed(FixedSchema::new(twenty("title")).unwrap());
    let accepted = producer.feed(&mut ctx, twenty("title").join("\t") + "\r\n");
    assert!(is_nothing(&accepted) && accepted.error.is_none());
    assert_eq!(producer.phase(), Phase::Emitting);
    let line = "20210104\tt\t600000\t浦发银行\t买入\t300.00\t9.680\ta\tb\tc\td\t-2904.00\te\tf\tg\th\ti\tj\t300\tk\n";
    let order = record(producer.feed(&mut ctx, String::from(line)));
    assert_eq!(
        order.to_row(),
        vec!["20210104", "600000", "浦发银行", "买入", "300", "9.680", "-2904.00", "300"]
    );
    let unflagged = line.replace("买入", "申购");
    assert!(is_nothing(&producer.feed(&mut ctx, unflagged)));
    let short = producer.feed(&mut ctx, String::from("20210104\t600000\n"));
    assert!(is_sentinel(&short));
    assert_eq!(short.error, Some(OrderError::FormatMismatch));
}

#[test]
fn a_consumer_for_no_producer_is_complete() {
    let mut consumer = Consumer::new(0);
    assert!(consumer.is_complete());
    assert!(matches!(consumer.receive(None), Action::Finish));
    assert!(matches!(consumer.receive(Some(DeliveryOrder::default())), Action::Finish));
    assert_eq!(consumer.rows(), 0);
    assert_eq!(consumer.sentinels(), 0);
}

#[test]
fn a_consumer_numbers_rows_from_one() {
    let mut consumer = Consumer::new(1);
    for expected in 1..=3u32 {
        let order = DeliveryOrder::default().with_code(format!("c{}", expected));
        match consumer.receive(Some(order)) {
            Action::Write { row, order } => {
                assert_eq!(row, expected);
                assert_eq!(order.get_code(), &format!("c{}", expected));
            }
            other => panic!("not written: {:?}", other),
        }
    }
    assert_eq!(consumer.rows(), 3);
    assert!(!consumer.is_complete());
    assert!(matches!(consumer.receive(None), Action::Finish));
    assert!(consumer.is_complete());
}

#[test]
fn a_consumer_waits_for_every_producer() {
    let mut consumer = Consumer::new(3);
    assert!(matches!(consumer.receive(None), Action::Wait));
    assert!(matches!(consumer.receive(None), Action::Wait));
    assert_eq!(consumer.sentinels(), 2);
    assert!(!consumer.is_complete());
    assert!(matches!(consumer.receive(Some(DeliveryOrder::default())), Action::Write { row: 1, .. }));
    assert!(matches!(consumer.receive(None), Action::Finish));
    assert_eq!(consumer.sentinels(), 3);
    assert!(consumer.is_complete());
}

#[test]
fn a_complete_consumer_takes_nothing_more() {
    let mut consumer = Consumer::new(1);
    consumer.receive(Some(DeliveryOrder::default()));
    assert!(matches!(consumer.receive(None), Action::Finish));
    assert!(matches!(consumer.receive(Some(DeliveryOrder::default())), Action::Finish));
    assert!(matches!(consumer.receive(None), Action::Finish));
    assert_eq!(consumer.rows(), 1);
    assert_eq!(consumer.sentinels(), 1);
}

#[test]
fn n_producers_give_n_sentinels_and_all_their_valid_records_in_order() {
    let mut ctx = Context::new();
    let files: [&[&str]; 3] = [
        &[
            "证券代码\t业务名称\t成交数量",
            "a1\t证券买入\t1",
            "a2\t红利入账\t1",
            "a3\t证券卖出\t1",
            "a4\t证券买入\t1",
        ],
        &["证券代码\t业务名称\t成交数量"],
        &["业务名称\t证券代码", "银证转存\tb1", "其他\tb2", "银证转取\tb3"],
    ];
    let mut boxes: Vec<Vec<Option<DeliveryOrder>>> =
        files.iter().map(|lines| outbox(&mut ctx, lines)).collect();
    let expected: [&[&str]; 3] = [&["a1", "a3", "a4"], &[], &["b1", "b3"]];
    for (sent, codes) in boxes.iter().zip(expected) {
        assert_eq!(sent.len(), codes.len() + 1);
        assert!(sent.last().unwrap().is_none());
        let got: Vec<&str> = sent.iter().flatten().map(|o| o.get_code().as_str()).collect();
        assert_eq!(got, codes);
    }
    // one interleaving that keeps each producer's own order
    let turns = [2, 0, 0, 1, 2, 0, 2, 0];
    for sent in boxes.iter_mut() {
        sent.reverse();
    }
    let mut consumer = Consumer::new(3);
    let mut written: Vec<(u32, String)> = Vec::new();
    let mut finished_at = None;
    for (place, who) in turns.iter().enumerate() {
        assert!(!consumer.is_complete());
        let message = boxes[*who].pop().unwrap();
        match consumer.receive(message) {
            Action::Write { row, order } => written.push((row, order.get_code().clone())),
            Action::Wait => {}
            Action::Finish => finished_at = Some(place),
            Action::Full { .. } => panic!("the report is not full"),
        }
    }
    assert!(boxes.iter().all(|sent| sent.is_empty()));
    assert_eq!(finished_at, Some(turns.len() - 1));
    assert!(consumer.is_complete());
    assert_eq!(consumer.sentinels(), 3);
    assert_eq!(consumer.rows(), 5);
    let rows: Vec<(u32, &str)> = written.iter().map(|(row, code)| (*row, code.as_str())).collect();
    assert_eq!(rows, vec![(1, "b1"), (2, "a1"), (3, "a3"), (4, "b3"), (5, "a4")]);
}
