use usd::number::{chars_of, is_numeral_text, Number};
use usd::text::{digit_to_char, push_decimal};

#[test]
fn numerals_are_accepted() {
    for text in [
        "0", "1", "-1", "10", "0.5", "-0.25", "123.456", "NaN", "inf", "-inf", "-0", "007",
        "340282350000000000000000000000000000000",
        "0.000000000000000000000000000000000000000000001",
    ] {
        let number = Number::parse(text);
        assert!(number.is_some());
        assert_eq!(number.unwrap().as_str(), text);
    }
}

#[test]
fn other_texts_are_rejected() {
    for text in [
        "", "-", ".", "1.", ".5", "-.5", "1..2", "1.2.3", "+1", "1e5", "1E5", "--1", "- 1", " 1",
        "1 ", "nan", "NAN", "-NaN", "Inf", "infinity", "in", "inff", "1,5", "0x10", "1\n", "\n",
        "١", "1-", "1.-2", "NaNa", "-inf ", "i", "N",
    ] {
        assert!(Number::parse(text).is_none());
        assert!(!is_numeral_text(&text.chars().collect()));
    }
}

#[test]
fn every_kind_of_float_has_a_numeral() {
    let values: [f32; 16] = [
        0.0,
        -0.0,
        1.0,
        -1.0,
        0.1,
        1.5,
        100.0,
        123456.79,
        1.0e-7,
        3.0e20,
        f32::MAX,
        f32::MIN,
        f32::MIN_POSITIVE,
        f32::NAN,
        f32::INFINITY,
        f32::NEG_INFINITY,
    ];
    for v in values {
        let text = v.to_string();
        let number = Number::parse(&text);
        assert!(number.is_some());
        assert_eq!(number.unwrap().as_str(), text);
    }
    assert!(Number::parse(&f32::from_bits(1).to_string()).is_some());
    assert!(Number::parse(&(-f32::NAN).to_string()).is_some());
}

#[test]
fn clone_keeps_the_numeral() {
    let number = Number::parse("-12.5").unwrap();
    assert_eq!(number.clone().as_str(), "-12.5");
}

#[test]
fn chars_of_keeps_every_character() {
    assert_eq!(chars_of(""), Vec::<char>::new());
    assert_eq!(chars_of("a\u{e9}\n"), vec!['a', '\u{e9}', '\n']);
}

#[test]
fn decimal_digits() {
    for d in 0..10u32 {
        assert_eq!(digit_to_char(d).to_string(), d.to_string());
    }
    for v in [0u32, 1, 9, 10, 19, 100, 4096, 99999, 1000000, u32::MAX] {
        let mut out = String::from("x");
        push_decimal(&mut out, v);
        assert_eq!(out, format!("x{}", v));
    }
}
