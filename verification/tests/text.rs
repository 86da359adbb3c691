use emoji_kitchen::order::{merge, reverse, stable_sort};
use emoji_kitchen::show::Label;
use emoji_kitchen::text::{
    find_char, hex_digit_value, parse_hex_i64, push_decimal, push_signed_decimal,
    replace_char_in, same_text, split_all, split_first, to_ascii_lowercase, trim,
};

fn labels(items: &[(u16, &str)]) -> Vec<Label> {
    items.iter().map(|(rank, text)| Label { sort_order: *rank, text: text.to_string() }).collect()
}

fn pairs(labels: Vec<Label>) -> Vec<(u16, String)> {
    labels.into_iter().map(|label| (label.sort_order, label.text)).collect()
}

fn owned(items: &[(u16, &str)]) -> Vec<(u16, String)> {
    items.iter().map(|(rank, text)| (*rank, text.to_string())).collect()
}

fn decimal_of(n: u64) -> String {
    let mut out = String::new();
    push_decimal(&mut out, n);
    out
}

fn signed_decimal_of(i: i64) -> String {
    let mut out = String::from("=");
    push_signed_decimal(&mut out, i);
    out
}

#[test]
fn decimal_rendering_of_natural_numbers() {
    assert_eq!(decimal_of(0), "0");
    assert_eq!(decimal_of(7), "7");
    assert_eq!(decimal_of(10), "10");
    assert_eq!(decimal_of(65535), "65535");
    assert_eq!(decimal_of(20201001), "20201001");
    assert_eq!(decimal_of(u64::MAX), "18446744073709551615");
    for n in [1u64, 9, 11, 99, 100, 101, 12345, 1000000] {
        assert_eq!(decimal_of(n), n.to_string());
    }
}

#[test]
fn decimal_rendering_appends() {
    let mut out = String::from("n=");
    push_decimal(&mut out, 42);
    push_decimal(&mut out, 0);
    assert_eq!(out, "n=420");
}

#[test]
fn decimal_rendering_of_signed_numbers() {
    assert_eq!(signed_decimal_of(0), "=0");
    assert_eq!(signed_decimal_of(20220500), "=20220500");
    assert_eq!(signed_decimal_of(-1), "=-1");
    assert_eq!(signed_decimal_of(-64), "=-64");
    assert_eq!(signed_decimal_of(i64::MAX), "=9223372036854775807");
    assert_eq!(signed_decimal_of(i64::MIN), "=-9223372036854775808");
}

#[test]
fn hexadecimal_digits() {
    assert_eq!(hex_digit_value('0'), Some(0));
    assert_eq!(hex_digit_value('9'), Some(9));
    assert_eq!(hex_digit_value('a'), Some(10));
    assert_eq!(hex_digit_value('f'), Some(15));
    assert_eq!(hex_digit_value('A'), Some(10));
    assert_eq!(hex_digit_value('F'), Some(15));
    for c in ['g', 'G', '/', ':', '@', '`', ' ', '-', '+', '\u{ff11}', '\u{e9}'] {
        assert_eq!(hex_digit_value(c), None);
    }
}

#[test]
fn hexadecimal_numbers_as_the_standard_library_reads_them() {
    for s in [
        "0", "3e9", "3E9", "+3e9", "-3e9", "-0", "+0", "", "+", "-", "--1", "+-1", "1-", "g",
        "3e9\n", "7fffffffffffffff", "8000000000000000", "-8000000000000000",
        "-8000000000000001", "ffffffffffffffff", "10000000000000000", "00000000000000000001",
        "\u{ff11}", "1 2",
    ] {
        assert_eq!(parse_hex_i64(s), i64::from_str_radix(s, 16).ok(), "input {:?}", s);
    }
}

#[test]
fn replace_one_character_by_a_string() {
    assert_eq!(replace_char_in("1f468-200d-1f469", '-', "-u"), "1f468-u200d-u1f469");
    assert_eq!(replace_char_in("--", '-', "-u"), "-u-u");
    assert_eq!(replace_char_in("1f600", '-', "-u"), "1f600");
    assert_eq!(replace_char_in("", '-', "-u"), "");
    assert_eq!(replace_char_in("a_b_c", '_', "-"), "a-b-c");
    assert_eq!(replace_char_in("a.b", '.', ""), "ab");
    assert_eq!(replace_char_in("\u{e9}-\u{1f600}", '-', "-u"), "\u{e9}-u\u{1f600}");
}

#[test]
fn ascii_lowercase_touches_ascii_capitals_only() {
    assert_eq!(to_ascii_lowercase("GIF"), "gif");
    assert_eq!(to_ascii_lowercase("PnG"), "png");
    assert_eq!(to_ascii_lowercase("AZaz09@[`{"), "azaz09@[`{");
    assert_eq!(to_ascii_lowercase("\u{c9}T\u{c9}"), "\u{c9}t\u{c9}");
    assert_eq!(to_ascii_lowercase(""), "");
}

#[test]
fn same_text_compares_characters() {
    assert!(same_text("gif", "gif"));
    assert!(same_text("", ""));
    assert!(!same_text("gif", "GIF"));
    assert!(!same_text("gif", "gif "));
}

#[test]
fn first_occurrence_of_a_character() {
    assert_eq!(find_char("a/b/c", '/'), 1);
    assert_eq!(find_char("/", '/'), 0);
    assert_eq!(find_char("abc", '/'), 3);
    assert_eq!(find_char("", '/'), 0);
    assert_eq!(find_char("\u{1f600}\u{e9}/x", '/'), 2);
}

#[test]
fn split_at_the_first_occurrence() {
    assert_eq!(split_first("a/b/c", '/'), ("a", Some("b/c")));
    assert_eq!(split_first("a/", '/'), ("a", Some("")));
    assert_eq!(split_first("/a", '/'), ("", Some("a")));
    assert_eq!(split_first("abc", '/'), ("abc", None));
    assert_eq!(split_first("", '/'), ("", None));
    assert_eq!(split_first("\u{1f600}.\u{e9}", '.'), ("\u{1f600}", Some("\u{e9}")));
}

#[test]
fn split_at_every_occurrence() {
    assert_eq!(split_all("a\nb\nc", '\n'), vec!["a", "b", "c"]);
    assert_eq!(split_all("a\n", '\n'), vec!["a", ""]);
    assert_eq!(split_all("\n", '\n'), vec!["", ""]);
    assert_eq!(split_all("a\n\nb", '\n'), vec!["a", "", "b"]);
    assert_eq!(split_all("abc", '\n'), vec!["abc"]);
    assert_eq!(split_all("", '\n'), vec![""]);
}

#[test]
fn trim_removes_whitespace_at_both_ends() {
    assert_eq!(trim("  a b \n"), "a b");
    assert_eq!(trim("\t\r\n\u{a0}\u{2003}x\u{3000}"), "x");
    assert_eq!(trim("x"), "x");
    assert_eq!(trim("   "), "");
    assert_eq!(trim(""), "");
    assert_eq!(trim("\u{200b}x"), "\u{200b}x");
    for s in [" a ", "\n\na\n", "a\u{85}", "\u{1680}a", "_a_"] {
        assert_eq!(trim(s), s.trim());
    }
}

#[test]
fn reverse_turns_the_order_round() {
    assert_eq!(reverse(vec![1, 2, 3]), vec![3, 2, 1]);
    assert_eq!(reverse(vec!["a"]), vec!["a"]);
    assert_eq!(reverse(Vec::<u8>::new()), Vec::<u8>::new());
}

#[test]
fn merge_keeps_the_left_items_first_on_equal_ranks() {
    let left = labels(&[(1, "l1"), (3, "l3"), (3, "l3b")]);
    let right = labels(&[(0, "r0"), (3, "r3"), (4, "r4")]);
    assert_eq!(
        pairs(merge(left, right)),
        owned(&[(0, "r0"), (1, "l1"), (3, "l3"), (3, "l3b"), (3, "r3"), (4, "r4")])
    );
    assert_eq!(pairs(merge(Vec::new(), labels(&[(1, "r")]))), owned(&[(1, "r")]));
    assert_eq!(pairs(merge(labels(&[(1, "l")]), Vec::new())), owned(&[(1, "l")]));
    assert_eq!(pairs(merge(Vec::new(), Vec::new())), owned(&[]));
}

#[test]
fn stable_sort_orders_by_rank_and_keeps_ties_in_place() {
    let items = [
        (5, "a"),
        (1, "b"),
        (5, "c"),
        (0, "d"),
        (1, "e"),
        (65535, "f"),
        (5, "g"),
        (0, "h"),
    ];
    assert_eq!(
        pairs(stable_sort(labels(&items))),
        owned(&[
            (0, "d"),
            (0, "h"),
            (1, "b"),
            (1, "e"),
            (5, "a"),
            (5, "c"),
            (5, "g"),
            (65535, "f")
        ])
    );
    assert_eq!(pairs(stable_sort(Vec::new())), owned(&[]));
    assert_eq!(pairs(stable_sort(labels(&[(3, "x")]))), owned(&[(3, "x")]));
    assert_eq!(pairs(stable_sort(labels(&[(3, "x"), (2, "y")]))), owned(&[(2, "y"), (3, "x")]));
}

#[test]
fn stable_sort_agrees_with_the_standard_library_on_many_items() {
    let mut items: Vec<(u16, String)> = Vec::new();
    let mut seed: u32 = 12345;
    for i in 0..1000 {
        seed = seed.wrapping_mul(1103515245).wrapping_add(12345);
        items.push((((seed >> 16) % 50) as u16, i.to_string()));
    }
    let mut expected = items.clone();
    expected.sort_by(|x, y| x.0.cmp(&y.0));
    let unsorted: Vec<Label> =
        items.iter().map(|(rank, text)| Label { sort_order: *rank, text: text.clone() }).collect();
    assert_eq!(pairs(stable_sort(unsorted)), expected);
}
