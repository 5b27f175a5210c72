use payments_engine::engine::text::{
    chars_of, digit_text, fields_of, parse_unsigned, push_decimal, push_fixed_digits, text_is,
};

fn chars(text: &str) -> Vec<char> {
    text.chars().collect()
}

fn fields(text: &str) -> Vec<String> {
    fields_of(&chars(text)).iter().map(|f| f.iter().collect()).collect()
}

#[test]
fn chars_of_gives_every_character() {
    assert_eq!(chars_of(""), Vec::<char>::new());
    assert_eq!(chars_of("a,b"), vec!['a', ',', 'b']);
    assert_eq!(chars_of("é1"), vec!['é', '1']);
}

#[test]
fn text_is_compares_whole_texts() {
    assert!(text_is(&chars("deposit"), "deposit"));
    assert!(!text_is(&chars("deposit"), "deposi"));
    assert!(!text_is(&chars("deposi"), "deposit"));
    assert!(!text_is(&chars("deposiT"), "deposit"));
    assert!(text_is(&chars(""), ""));
}

#[test]
fn fields_are_the_pieces_between_commas() {
    assert_eq!(fields("a,b,c"), vec!["a", "b", "c"]);
    assert_eq!(fields(""), vec![""]);
    assert_eq!(fields("abc"), vec!["abc"]);
    assert_eq!(fields(","), vec!["", ""]);
    assert_eq!(fields("a,,b,"), vec!["a", "", "b", ""]);
    assert_eq!(fields(",a"), vec!["", "a"]);
    assert_eq!(fields("dispute,1,99,"), vec!["dispute", "1", "99", ""]);
}

#[test]
fn fields_joined_with_commas_give_the_text_back() {
    for text in ["", ",", "a,b", ",,", "deposit,1,2,3.0", "x,,y,"] {
        assert_eq!(fields(text).join(","), text);
        assert!(fields(text).iter().all(|f| !f.contains(',')));
    }
}

#[test]
fn unsigned_numbers_are_read_up_to_their_maximum() {
    assert_eq!(parse_unsigned(&chars("0"), 65535), Some(0));
    assert_eq!(parse_unsigned(&chars("65535"), 65535), Some(65535));
    assert_eq!(parse_unsigned(&chars("65536"), 65535), None);
    assert_eq!(parse_unsigned(&chars("+12"), 65535), Some(12));
    assert_eq!(parse_unsigned(&chars("0012"), 65535), Some(12));
    assert_eq!(parse_unsigned(&chars(""), 65535), None);
    assert_eq!(parse_unsigned(&chars("+"), 65535), None);
    assert_eq!(parse_unsigned(&chars("-1"), 65535), None);
    assert_eq!(parse_unsigned(&chars("++1"), 65535), None);
    assert_eq!(parse_unsigned(&chars("1+"), 65535), None);
    assert_eq!(parse_unsigned(&chars("12a"), 65535), None);
    assert_eq!(parse_unsigned(&chars("1 "), 65535), None);
    assert_eq!(parse_unsigned(&chars("٣"), 65535), None);
    assert_eq!(parse_unsigned(&chars("7"), 0), None);
    assert_eq!(parse_unsigned(&chars("0"), 0), Some(0));
    assert_eq!(
        parse_unsigned(&chars("1000000000000000000"), 1_000_000_000_000_000_000),
        Some(1_000_000_000_000_000_000)
    );
    assert_eq!(parse_unsigned(&chars("1000000000000000001"), 1_000_000_000_000_000_000), None);
    assert_eq!(
        parse_unsigned(&chars("99999999999999999999999999"), 1_000_000_000_000_000_000),
        None
    );
}

#[test]
fn numbers_are_written_in_decimal_digits() {
    for d in 0..10u8 {
        assert_eq!(digit_text(d), d.to_string());
    }
    for n in [0u128, 7, 10, 65535, 1_000_000, u128::MAX] {
        let mut out = String::from("n=");
        push_decimal(&mut out, n);
        assert_eq!(out, format!("n={}", n));
    }
    let mut out = String::new();
    push_fixed_digits(&mut out, 42, 5);
    assert_eq!(out, "00042");
    let mut out = String::new();
    push_fixed_digits(&mut out, 123456, 3);
    assert_eq!(out, "456");
    let mut out = String::from("x");
    push_fixed_digits(&mut out, 9, 0);
    assert_eq!(out, "x");
}
