use delivery_order::extract::{Extraction, SourceFile};
use delivery_order::htsc::{extract_from_file, Context};
use delivery_order::OrderError;

/// The lines as a vendor file holds them, in GBK.
fn lines(texts: &[&str]) -> Vec<Vec<u8>> {
    texts.iter().map(|t| encoding_rs::GBK.encode(t).0.into_owned()).collect()
}

fn codes(extraction: &Extraction) -> Vec<Option<String>> {
    extraction
        .messages
        .iter()
        .map(|m| m.as_ref().map(|order| order.get_code().clone()))
        .collect()
}

fn some(code: &str) -> Option<String> {
    Some(String::from(code))
}

#[test]
fn a_whole_file_gives_its_valid_records_and_one_sentinel() {
    // the title row in GBK: 证券代码, 业务名称, 成交数量
    let title: Vec<u8> = vec![
        0xd6, 0xa4, 0xc8, 0xaf, 0xb4, 0xfa, 0xc2, 0xeb, 0x09, 0xd2, 0xb5, 0xce, 0xf1, 0xc3, 0xfb,
        0xb3, 0xc6, 0x09, 0xb3, 0xc9, 0xbd, 0xbb, 0xca, 0xfd, 0xc1, 0xbf, 0x0a,
    ];
    // 600000, 证券买入, 100.00
    let buy: Vec<u8> = vec![
        0x36, 0x30, 0x30, 0x30, 0x30, 0x30, 0x09, 0xd6, 0xa4, 0xc8, 0xaf, 0xc2, 0xf2, 0xc8, 0xeb,
        0x09, 0x31, 0x30, 0x30, 0x2e, 0x30, 0x30, 0x0a,
    ];
    // 600000, 证券卖出, 40
    let sell: Vec<u8> = vec![
        0x36, 0x30, 0x30, 0x30, 0x30, 0x30, 0x09, 0xd6, 0xa4, 0xc8, 0xaf, 0xc2, 0xf4, 0xb3, 0xf6,
        0x09, 0x34, 0x30, 0x0a,
    ];
    let mut ctx = Context::new();
    let extraction =
        ctx.extract_from_file(String::from("orders.txt"), &vec![title, buy, sell]).unwrap();
    assert_eq!(codes(&extraction), vec![some("600000"), some("600000"), None]);
    let first = extraction.messages[0].as_ref().unwrap();
    let second = extraction.messages[1].as_ref().unwrap();
    assert_eq!(first.to_row(), vec!["", "600000", "", "买入", "100", "", "", "100"]);
    assert_eq!(second.to_row(), vec!["", "600000", "", "卖出", "-40", "", "", "60"]);
    assert!(extraction.mismatches.is_empty());
    assert!(extraction.errors.is_empty());
    assert_eq!(ctx.get_count("600000"), Some(&60));
}

#[test]
fn a_file_of_another_name_is_rejected_as_a_whole() {
    let mut ctx = Context::new();
    let content = lines(&["code\tqty\n", "600000\t1\n"]);
    assert_eq!(
        ctx.extract_from_file(String::from("orders.xls"), &content).unwrap_err(),
        OrderError::FormatMismatch
    );
    assert_eq!(
        ctx.extract_from_file(String::new(), &content).unwrap_err(),
        OrderError::FormatMismatch
    );
    assert!(!ctx.has("600000"));
}

#[test]
fn a_file_without_lines_gives_the_sentinel_alone() {
    let mut ctx = Context::new();
    let extraction = ctx.extract_from_file(String::from("empty.txt"), &Vec::new()).unwrap();
    assert_eq!(codes(&extraction), vec![None]);
    let only_titles =
        ctx.extract_from_file(String::from("titles.txt"), &lines(&["a\tb\tc\n"])).unwrap();
    assert_eq!(codes(&only_titles), vec![None]);
}

#[test]
fn rejected_lines_are_listed_with_their_index() {
    let mut ctx = Context::new();
    let content = lines(&[
        "证券代码\t业务名称\t成交数量\t证券数量\n",
        "a\t证券买入\t10\t10\n",
        "b\t证券买入\tten\t10\n",
        "c\t证券买入\t10\t-\n",
        "a\t证券卖出\t4\t7\n",
        "d\t证券买入\n",
        "e\t证券买入\t1\t1\n",
    ]);
    let extraction = ctx.extract_from_file(String::from("mixed.txt"), &content).unwrap();
    assert_eq!(codes(&extraction), vec![some("a"), some("a"), None]);
    assert_eq!(
        extraction.errors,
        vec![
            (2, OrderError::ParseError { column: 2 }),
            (3, OrderError::ParseError { column: 3 }),
            (5, OrderError::FormatMismatch),
        ]
    );
    assert_eq!(extraction.mismatches.len(), 1);
    let notice = &extraction.mismatches[0];
    assert_eq!(notice.code, "a");
    assert_eq!((notice.vendor, notice.local), (7, 6));
    assert_eq!(ctx.get_count("a"), Some(&6));
    assert!(!ctx.has("b") && !ctx.has("c") && !ctx.has("d") && !ctx.has("e"));
}

#[test]
fn records_with_action_ignore_are_left_out_of_the_messages() {
    let mut ctx = Context::new();
    let content = lines(&[
        "证券代码\t业务名称\t成交数量\n",
        "a\t红利入账\t3\n",
        "b\t证券买入\t5\n",
        "c\t\t7\n",
    ]);
    let extraction = ctx.extract_from_file(String::from("f.txt"), &content).unwrap();
    assert_eq!(codes(&extraction), vec![some("b"), None]);
    for message in extraction.messages.iter().flatten() {
        assert!(message.is_valid());
    }
    assert_eq!(ctx.get_count("a"), Some(&3));
    assert_eq!(ctx.get_count("c"), Some(&7));
}

#[test]
fn several_files_share_the_ledger_and_give_one_sentinel_each() {
    let mut ctx = Context::new();
    let files = vec![
        SourceFile {
            path: String::from("one.txt"),
            lines: lines(&["证券代码\t业务名称\t成交数量\n", "a\t证券买入\t10\n"]),
        },
        SourceFile { path: String::from("two.csv"), lines: lines(&["a\t证券买入\t10\n"]) },
        SourceFile { path: String::from("three.txt"), lines: Vec::new() },
        SourceFile {
            path: String::from("four.txt"),
            lines: lines(&["业务名称\t成交数量\t证券代码\n", "证券卖出\t4\ta\n", "证券买入\t1\tb\n"]),
        },
    ];
    let outcomes = extract_from_file(&mut ctx, &files, true);
    assert_eq!(outcomes.len(), 4);
    assert_eq!(codes(outcomes[0].as_ref().unwrap()), vec![some("a"), None]);
    assert_eq!(outcomes[1].as_ref().unwrap_err(), &OrderError::FormatMismatch);
    assert_eq!(codes(outcomes[2].as_ref().unwrap()), vec![None]);
    assert_eq!(codes(outcomes[3].as_ref().unwrap()), vec![some("a"), some("b"), None]);
    let last = outcomes[3].as_ref().unwrap();
    assert_eq!(last.messages[0].as_ref().unwrap().get_owned(), "6");
    let sentinels: usize = outcomes
        .iter()
        .flatten()
        .map(|e| e.messages.iter().filter(|m| m.is_none()).count())
        .sum();
    assert_eq!(sentinels, 3);
    assert_eq!(ctx.get_count("a"), Some(&6));
    assert_eq!(ctx.get_count("b"), Some(&1));
    assert!(ctx.debug());
}

#[test]
fn no_file_leaves_the_context_as_it_was() {
    let mut ctx = Context::new();
    assert!(extract_from_file(&mut ctx, &Vec::new(), true).is_empty());
    assert!(!ctx.debug());
}
