use delivery_order::text::{chars_of, space, split_line, trim_range, trimmed, TAB};

fn fields_by_std(line: &str) -> Vec<String> {
    line.trim().split("\t").map(|v| v.to_owned()).collect()
}

#[test]
fn space_is_the_white_space_property_of_every_character() {
    let mut code: u32 = 0;
    while code <= 0x10FFFF {
        if let Some(c) = char::from_u32(code) {
            assert_eq!(space(c), c.is_whitespace(), "U+{:04X}", code);
        }
        code += 1;
    }
}

#[test]
fn space_knows_the_ideographic_space_and_not_the_zero_width_space() {
    assert!(space(' '));
    assert!(space('\t'));
    assert!(space('\n'));
    assert!(space('\r'));
    assert!(space('\u{3000}'));
    assert!(space('\u{A0}'));
    assert!(!space('\u{200B}'));
    assert!(!space('a'));
    assert!(!space('证'));
}

#[test]
fn chars_of_gives_the_characters_in_order() {
    assert_eq!(chars_of("a证b"), vec!['a', '证', 'b']);
    assert_eq!(chars_of(""), Vec::<char>::new());
}

#[test]
fn trimmed_removes_white_space_at_both_ends_only() {
    assert_eq!(trimmed("  600000 \r\n"), "600000");
    assert_eq!(trimmed("\u{3000}浦发 银行\u{3000}"), "浦发 银行");
    assert_eq!(trimmed(""), "");
    assert_eq!(trimmed(" \t\n"), "");
    assert_eq!(trimmed("a"), "a");
}

#[test]
fn split_line_cuts_at_tabs() {
    assert_eq!(split_line("a\tb\tc\n"), vec!["a", "b", "c"]);
    assert_eq!(split_line("a\t\tb"), vec!["a", "", "b"]);
    assert_eq!(split_line("a"), vec!["a"]);
}

#[test]
fn split_line_of_an_empty_line_is_one_empty_field() {
    assert_eq!(split_line(""), vec![""]);
    assert_eq!(split_line("\n"), vec![""]);
    assert_eq!(split_line(" \t \r\n"), vec![""]);
}

#[test]
fn split_line_trims_the_line_and_not_the_fields() {
    assert_eq!(split_line("  a \t b \r\n"), vec!["a ", " b"]);
}

#[test]
fn split_line_loses_empty_fields_at_the_ends_of_the_line() {
    assert_eq!(split_line("a\tb\t\t\n"), vec!["a", "b"]);
    assert_eq!(split_line("\t\ta\tb"), vec!["a", "b"]);
}

#[test]
fn split_line_agrees_with_trim_and_split_of_std() {
    let lines = [
        "20210104\t600000\t浦发银行\t证券买入\t100.00\t9.680\t-973.00\t100\r\n",
        "\t\t\t",
        "",
        "one",
        " lead\ttrail ",
        "a\t\t\tb\t",
        "\u{3000}全角\t空格\u{3000}\n",
        "x\ty\u{85}",
    ];
    for line in lines {
        assert_eq!(split_line(line), fields_by_std(line), "{:?}", line);
        assert_eq!(trimmed(line), line.trim(), "{:?}", line);
    }
}

#[test]
fn trim_range_gives_the_bounds_of_the_trimmed_part() {
    let v = chars_of("ab  cd \t ef");
    assert_eq!(trim_range(&v, 0, v.len()), (0, 11));
    assert_eq!(trim_range(&v, 2, 7), (4, 6));
    assert_eq!(trim_range(&v, 2, 4), (4, 4));
    assert_eq!(trim_range(&v, 5, 5), (5, 5));
    assert_eq!(trim_range(&v, 6, 9), (9, 9));
    assert_eq!(trim_range(&v, 0, 0), (0, 0));
}

#[test]
fn fields_are_separated_by_the_tab() {
    assert_eq!(TAB, '\u{9}');
    assert_eq!(split_line("a b,c;d"), vec!["a b,c;d"]);
}
