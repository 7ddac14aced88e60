use autocrop::cursor::{check_space, last_processed, next_image_filename, next_image_number};

#[test]
fn state_names_the_last_file() {
    assert_eq!(last_processed("00042.JPG"), 42);
    assert_eq!(last_processed("00001.JPG"), 1);
    assert_eq!(last_processed("00700.JPG"), 700);
    assert_eq!(last_processed("123456.JPG"), 123456);
    assert_eq!(last_processed("7"), 7);
    assert_eq!(last_processed("0"), 0);
}

#[test]
fn state_is_trimmed() {
    assert_eq!(last_processed("  00042.JPG\n"), 42);
    assert_eq!(last_processed("\t\r\n 9 \n"), 9);
    assert_eq!(last_processed("\u{2003}12\u{a0}"), 12);
    assert_eq!(last_processed("\u{3000}\u{85}31.JPG\u{1680}\u{2028}\u{2029}\u{202f}\u{205f}"), 31);
    assert_eq!(last_processed("   "), 0);
    assert_eq!(last_processed(""), 0);
}

#[test]
fn only_the_part_before_the_first_dot_counts() {
    assert_eq!(last_processed("12.5.JPG"), 12);
    assert_eq!(last_processed("12."), 12);
    assert_eq!(last_processed(".JPG"), 0);
    assert_eq!(last_processed("."), 0);
    assert_eq!(last_processed("12 .JPG"), 0);
    assert_eq!(last_processed(" 12. 7"), 12);
}

#[test]
fn plus_sign_may_lead() {
    assert_eq!(last_processed("+5"), 5);
    assert_eq!(last_processed("+00017.JPG"), 17);
    assert_eq!(last_processed("+"), 0);
    assert_eq!(last_processed("++5"), 0);
    assert_eq!(last_processed("-5"), 0);
    assert_eq!(last_processed("5+"), 0);
}

#[test]
fn what_is_no_number_counts_as_zero() {
    assert_eq!(last_processed("abc.JPG"), 0);
    assert_eq!(last_processed("12a.JPG"), 0);
    assert_eq!(last_processed("a12.JPG"), 0);
    assert_eq!(last_processed("1 2"), 0);
    assert_eq!(last_processed("\u{200b}12"), 0);
    assert_eq!(last_processed("\u{661}\u{662}"), 0);
    assert_eq!(last_processed("0x10"), 0);
}

#[test]
fn numbers_beyond_32_bits_count_as_zero() {
    assert_eq!(last_processed("4294967295"), u32::MAX);
    assert_eq!(last_processed("4294967296"), 0);
    assert_eq!(last_processed("42949672950"), 0);
    assert_eq!(last_processed("99999999999999999999999999"), 0);
    assert_eq!(last_processed("000000000000000000000000000000000042"), 42);
}

#[test]
fn white_space_is_the_unicode_property() {
    for c in ['\t', '\n', '\u{b}', '\u{c}', '\r', ' ', '\u{85}', '\u{a0}', '\u{1680}',
        '\u{2000}', '\u{2005}', '\u{200a}', '\u{2028}', '\u{2029}', '\u{202f}', '\u{205f}',
        '\u{3000}']
    {
        assert!(check_space(c));
    }
    for c in ['\u{8}', '\u{e}', '\u{1f}', '!', '0', 'a', '\u{84}', '\u{86}', '\u{180e}',
        '\u{1fff}', '\u{200b}', '\u{2027}', '\u{202a}', '\u{2060}', '\u{feff}', '\u{10ffff}']
    {
        assert!(!check_space(c));
    }
    let mut c: u32 = 0;
    while c <= 0x10ffff {
        if let Some(ch) = char::from_u32(c) {
            assert_eq!(check_space(ch), ch.is_whitespace());
        }
        c += 1;
    }
}

#[test]
fn next_number_stops_at_the_limit() {
    assert_eq!(next_image_number(0, 700), Some(1));
    assert_eq!(next_image_number(698, 700), Some(699));
    assert_eq!(next_image_number(699, 700), Some(700));
    assert_eq!(next_image_number(700, 700), None);
    assert_eq!(next_image_number(701, 700), None);
    assert_eq!(next_image_number(0, 0), None);
    assert_eq!(next_image_number(u32::MAX - 1, u32::MAX), Some(u32::MAX));
    assert_eq!(next_image_number(u32::MAX, u32::MAX), None);
}

#[test]
fn first_file_when_there_is_no_state() {
    assert_eq!(next_image_filename(None, 700), Some(String::from("00001.JPG")));
    assert_eq!(next_image_filename(Some(""), 700), Some(String::from("00001.JPG")));
    assert_eq!(next_image_filename(Some("nothing"), 700), Some(String::from("00001.JPG")));
    assert_eq!(next_image_filename(None, 0), None);
}

#[test]
fn next_file_follows_the_last() {
    assert_eq!(next_image_filename(Some("00042.JPG"), 700), Some(String::from("00043.JPG")));
    assert_eq!(next_image_filename(Some("00009.JPG\n"), 700), Some(String::from("00010.JPG")));
    assert_eq!(next_image_filename(Some("00699.JPG"), 700), Some(String::from("00700.JPG")));
    assert_eq!(next_image_filename(Some("00700.JPG"), 700), None);
    assert_eq!(next_image_filename(Some("99999"), 1000000), Some(String::from("100000.JPG")));
    assert_eq!(
        next_image_filename(Some("4294967294"), u32::MAX),
        Some(String::from("4294967295.JPG"))
    );
    assert_eq!(next_image_filename(Some("4294967295"), u32::MAX), None);
    assert_eq!(
        next_image_filename(Some("4294967296"), u32::MAX),
        Some(String::from("00001.JPG"))
    );
}

#[test]
fn state_parses_as_the_standard_library_does() {
    for text in ["00042.JPG", " 7 ", "+3.x", "", ".", "+", "12a", "4294967295", "4294967296",
        "\u{a0}5\u{2003}", "1.2.3", "  .5", "٣", "0000", "+0.0"]
    {
        let expected = text.trim().split('.').next().unwrap_or("0").parse::<u32>().unwrap_or(0);
        assert_eq!(last_processed(text), expected);
    }
}
