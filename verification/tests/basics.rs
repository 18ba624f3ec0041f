use portos_kernel::clock::now_unix;
use portos_kernel::egress::{DenyAll, EgressDecision, EgressPolicy};
use portos_kernel::json::{relate_values, Json, Num};
use portos_kernel::label::Label;
use portos_kernel::metrics::ContextMeter;
use portos_kernel::pattern::matches_text;
use portos_kernel::strmap::{StrMap, StrSet};
use portos_kernel::text::{
    find_first, find_last, parse_number, push_decimal, relate, split_words, strip_prefix,
    strip_suffix, Rel,
};

#[test]
fn strings_stand_in_the_order_of_their_encodings() {
    for (a, b) in [("", "a"), ("a", "b"), ("a", "aa"), ("Z", "a"), ("é", "中"), ("中", "😀")] {
        assert_eq!(relate(a, b), Rel::Before);
        assert_eq!(relate(b, a), Rel::After);
        assert!(a.as_bytes() < b.as_bytes());
    }
    assert_eq!(relate("same", "same"), Rel::Same);
}

#[test]
fn pieces_are_found_and_stripped() {
    assert_eq!(find_first("a::b::c", "::"), Some(1));
    assert_eq!(find_last("a::b::c", "::"), Some(4));
    assert_eq!(find_first("abc", "::"), None);
    assert_eq!(strip_prefix("driver:echo", "driver:"), Some("echo"));
    assert_eq!(strip_prefix("echo", "driver:"), None);
    assert_eq!(strip_suffix("topic::*", "*"), Some("topic::"));
}

#[test]
fn decimal_notation_is_read_back() {
    for n in [0, 7, 10, 4096, u64::MAX] {
        let mut s = String::new();
        push_decimal(&mut s, n);
        assert_eq!(s, n.to_string());
        assert_eq!(parse_number(&s, u64::MAX), Some(n));
    }
    assert_eq!(parse_number("18446744073709551616", u64::MAX), None);
    assert_eq!(parse_number("65536", 65535), None);
    assert_eq!(parse_number("+5", 65535), Some(5));
    assert_eq!(parse_number("007", 65535), Some(7));
    for bad in ["", "+", "-1", "1 ", "a"] {
        assert_eq!(parse_number(bad, u64::MAX), None);
    }
}

#[test]
fn words_lie_between_white_space() {
    assert_eq!(split_words("  a\tbc \n d"), vec!["a", "bc", "d"]);
    assert!(split_words(" ").is_empty());
}

#[test]
fn maps_are_walked_in_the_order_of_their_keys() {
    let mut m: StrMap<u64> = StrMap::new();
    m.insert("b".to_string(), 1);
    m.insert("a".to_string(), 2);
    m.insert("b".to_string(), 3);
    assert_eq!(m.len(), 2);
    assert_eq!((m.key_at(0).as_str(), *m.value_at(0)), ("a", 2));
    assert_eq!((m.key_at(1).as_str(), *m.value_at(1)), ("b", 3));
    assert_eq!(m.get("c"), None);
    let mut s = StrSet::singleton("x".to_string());
    s.insert("x".to_string());
    assert_eq!(s.len(), 1);
    assert!(s.is_subset(&s.union(&StrSet::singleton("y".to_string()))));
}

#[test]
fn patterns_are_regular_expressions() {
    let word = "abc-42".to_string();
    assert_eq!(matches_text(r"^[a-z]+-\d+$", Some(&word)), Ok(true));
    assert_eq!(matches_text("b", Some(&word)), Ok(true));
    assert_eq!(matches_text("^b", Some(&word)), Ok(false));
    assert_eq!(matches_text("b", None), Ok(false));
    let e = matches_text("(", Some(&word)).unwrap_err();
    assert_eq!(e, regex::Regex::new("(").unwrap_err().to_string());
    assert!(matches_text("(", None).is_err());
}

#[test]
fn numbers_are_compared_as_doubles() {
    let nat = |n: u64| Json::Number(Num::Nat(n));
    let neg = |n: i64| Json::Number(Num::Neg(n));
    assert_eq!(relate_values(&nat(2), &nat(10)), Some(Rel::Before));
    assert_eq!(relate_values(&neg(-1), &nat(0)), Some(Rel::Before));
    assert_eq!(relate_values(&neg(-2), &neg(-3)), Some(Rel::After));
    // Beyond 2^53 neighbours fall together.
    assert_eq!(relate_values(&nat(1 << 53), &nat((1 << 53) + 1)), Some(Rel::Same));
    assert_eq!(relate_values(&nat(u64::MAX), &nat(u64::MAX - 1)), Some(Rel::Same));
    let real = |f: f64| Json::Real { rank: f.to_bits() as i64, text: f.to_string() };
    let half = real(0.5);
    assert_eq!(relate_values(&half, &nat(1)), Some(Rel::Before));
    assert_eq!(relate_values(&half, &nat(0)), Some(Rel::After));
    for n in [1u64, 3, 1 << 52, (1 << 53) + 1, (1 << 54) + 3, u64::MAX] {
        let same = real(n as f64);
        assert_eq!(relate_values(&nat(n), &same), Some(Rel::Same));
    }
    assert_eq!(relate_values(&Json::Str("a".to_string()), &nat(1)), None);
    assert_eq!(relate_values(&Json::Null, &Json::Null), None);
}

#[test]
fn nothing_leaves() {
    assert_eq!(
        DenyAll.check("example.org", &Label::public_trusted()),
        EgressDecision::Deny("M0 egress is deny-all (dest: example.org)".to_string())
    );
}

#[test]
fn bytes_are_counted_apart() {
    let mut m = ContextMeter::default();
    m.count_context(3);
    m.count_data(1000);
    m.count_context(4);
    assert_eq!((m.context_bytes, m.data_bytes), (7, 1000));
}

#[test]
fn the_clock_has_started() {
    assert!(now_unix() > 1_600_000_000);
}
