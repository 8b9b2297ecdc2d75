use convention_stats::text::append_decimal;
use convention_stats::text::append_signed_decimal;
use convention_stats::text::chars_of;
use convention_stats::text::compare_text;
use convention_stats::text::contains_separator;
use convention_stats::text::same_text;
use convention_stats::text::TextOrder;

#[test]
fn compare_text_orders_as_strings_do() {
    let samples = [
        "", " ", "a", "A", "ab", "abc", "b", "B", "Basket - All", "athletisme", "tout-terrain",
        "é", "e", "z", "épreuve", "zèbre", "10 kilomètres", "100m", "€", "\u{10000}", "\u{ffff}",
        "日本", "~",
    ];
    for a in samples {
        for b in samples {
            let expected = if a < b {
                TextOrder::Before
            } else if a == b {
                TextOrder::Same
            } else {
                TextOrder::After
            };
            assert_eq!(expected, compare_text(a, b));
            assert_eq!(a == b, same_text(a, b));
        }
    }
}

#[test]
fn chars_of_a_text() {
    assert_eq!(vec!['é', 't', 'é'], chars_of("été"));
    assert_eq!(Vec::<char>::new(), chars_of(""));
}

#[test]
fn contains_separator_finds_a_dash_between_spaces() {
    assert!(contains_separator("Basket A - All"));
    assert!(contains_separator(" - "));
    assert!(contains_separator("a -  - "));
    assert!(contains_separator("épreuve - é"));
    assert!(!contains_separator(""));
    assert!(!contains_separator(" -"));
    assert!(!contains_separator("- "));
    assert!(!contains_separator("a-b"));
    assert!(!contains_separator("a – b"));
    assert!(!contains_separator("First Name"));
    for header in ["Id", "Club", "a - b", " -  -", "x -y - z"] {
        assert_eq!(header.contains(" - "), contains_separator(header));
    }
}

#[test]
fn append_decimal_writes_a_number() {
    for n in [0_u128, 7, 10, 42, 100, 65536, u64::MAX as u128, u128::MAX] {
        let mut text = String::from("n=");
        append_decimal(&mut text, n);
        assert_eq!(format!("n={n}"), text);
    }
}

#[test]
fn append_signed_decimal_writes_a_number() {
    for i in [0_i64, -1, 1, -10, 99, i64::MIN, i64::MAX] {
        let mut text = String::new();
        append_signed_decimal(&mut text, i);
        assert_eq!(i.to_string(), text);
    }
}
