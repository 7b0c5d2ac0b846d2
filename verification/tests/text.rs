use ntz_proto::text::{
    characters, double_quotes, is_white_space, join_words, push_decimal, push_hexadecimal, split_words,
    substring, trim,
};

fn decimal(n: u128) -> String {
    let mut out = String::new();
    push_decimal(&mut out, n);
    out
}

fn hexadecimal(n: u16) -> String {
    let mut out = String::from("0x");
    push_hexadecimal(&mut out, n);
    out
}

fn strings(list: &[&str]) -> Vec<String> {
    list.iter().map(|s| s.to_string()).collect()
}

#[test]
fn decimal_numerals() {
    assert_eq!(decimal(0), "0");
    assert_eq!(decimal(9), "9");
    assert_eq!(decimal(10), "10");
    assert_eq!(decimal(65535), "65535");
    assert_eq!(decimal(1731628800123), "1731628800123");
    assert_eq!(decimal(u128::MAX), u128::MAX.to_string());
}

#[test]
fn hexadecimal_numerals() {
    assert_eq!(hexadecimal(0), "0x0");
    assert_eq!(hexadecimal(15), "0xf");
    assert_eq!(hexadecimal(16), "0x10");
    assert_eq!(hexadecimal(0xabcd), "0xabcd");
    assert_eq!(hexadecimal(0x0db8), "0xdb8");
}

#[test]
fn white_space_is_that_of_unicode() {
    let mut n: u32 = 0;
    while n <= 0x10ffff {
        if let Some(c) = char::from_u32(n) {
            assert_eq!(is_white_space(c), c.is_whitespace());
        }
        n += 1;
    }
}

#[test]
fn words_are_split_at_white_space() {
    assert_eq!(split_words(""), strings(&[]));
    assert_eq!(split_words(" \t\n"), strings(&[]));
    assert_eq!(split_words("one"), strings(&["one"]));
    assert_eq!(split_words("  one\ttwo \u{3000}three\n"), strings(&["one", "two", "three"]));
}

#[test]
fn joined_words_are_split_again() {
    let list = strings(&["1.1.1.1", "via", "192.168.1.1", "dev", "eth0"]);
    let line = join_words(&list);
    assert_eq!(line, "1.1.1.1 via 192.168.1.1 dev eth0");
    assert_eq!(split_words(&line), list);
    assert_eq!(join_words(&strings(&[])), "");
    assert_eq!(join_words(&strings(&["one"])), "one");
}

#[test]
fn trimmed_text_has_no_outer_white_space() {
    assert_eq!(trim(""), "");
    assert_eq!(trim(" \r\n"), "");
    assert_eq!(trim("\t12\r\n"), "12");
    assert_eq!(trim("\u{a0}a b\u{2003}"), "a b");
    assert_eq!(trim("plain"), "plain");
}

#[test]
fn quotes_are_doubled() {
    assert_eq!(double_quotes(""), "");
    assert_eq!(double_quotes("ntz0"), "ntz0");
    assert_eq!(double_quotes("it's"), "it''s");
    assert_eq!(double_quotes("''"), "''''");
}

#[test]
fn characters_and_substrings() {
    let chars = characters("a\u{e9}\u{1f600}z");
    assert_eq!(chars, vec!['a', '\u{e9}', '\u{1f600}', 'z']);
    assert_eq!(substring(&chars, 1, 3), "\u{e9}\u{1f600}");
    assert_eq!(substring(&chars, 2, 2), "");
}
