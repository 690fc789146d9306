use minilang::text::{
    append_decimal, append_signed_decimal, digit_of, is_blank, is_digit, is_letter, is_word_char,
    is_word_start, str_eq, to_chars,
};

#[test]
fn character_classes() {
    assert!(is_digit('0') && is_digit('9') && !is_digit('a') && !is_digit('/') && !is_digit(':'));
    assert!(is_letter('a') && is_letter('z') && is_letter('A') && is_letter('Z'));
    assert!(!is_letter('_') && !is_letter('0') && !is_letter('@') && !is_letter('['));
    assert!(!is_letter('`') && !is_letter('{') && !is_letter('\u{e9}'));
    assert!(is_word_start('_') && is_word_start('q') && !is_word_start('7'));
    assert!(is_word_char('_') && is_word_char('q') && is_word_char('7') && !is_word_char('-'));
    assert!(is_blank(' ') && is_blank('\t') && is_blank('\n'));
    assert!(is_blank('\r') && is_blank('\x0C'));
    assert!(!is_blank('\x0B') && !is_blank('x') && !is_blank('\u{a0}'));
}

#[test]
fn digit_values() {
    assert_eq!(digit_of('0'), 0);
    assert_eq!(digit_of('7'), 7);
    assert_eq!(digit_of('9'), 9);
}

#[test]
fn decimal_numerals() {
    let mut out = String::from("n=");
    append_decimal(&mut out, 0);
    out.push(',');
    append_decimal(&mut out, 9);
    out.push(',');
    append_decimal(&mut out, 10);
    out.push(',');
    append_decimal(&mut out, 1024);
    out.push(',');
    append_decimal(&mut out, u64::MAX);
    assert_eq!(out, "n=0,9,10,1024,18446744073709551615");
}

#[test]
fn signed_decimal_numerals() {
    let mut out = String::new();
    append_signed_decimal(&mut out, -1);
    out.push(' ');
    append_signed_decimal(&mut out, 0);
    out.push(' ');
    append_signed_decimal(&mut out, 305);
    out.push(' ');
    append_signed_decimal(&mut out, i64::MIN);
    assert_eq!(out, "-1 0 305 -9223372036854775808");
}

#[test]
fn characters_of_a_string() {
    assert_eq!(to_chars(""), Vec::<char>::new());
    assert_eq!(to_chars("a\u{e9}b"), vec!['a', '\u{e9}', 'b']);
}

#[test]
fn string_equality() {
    assert!(str_eq("", ""));
    assert!(str_eq("exit", "exit"));
    assert!(!str_eq("exit", "exif"));
    assert!(!str_eq("exit", "exi"));
    assert!(!str_eq("exit", "exits"));
    assert!(str_eq("\u{e9}", "\u{e9}"));
    assert!(!str_eq("\u{e9}", "\u{e8}"));
}
