use iron_proxy::float_bits::{is_a_number, is_at_least, is_less, is_zero_bits, min_bits, ONE_BITS};
use iron_proxy::pairs::{copy_values, find_key, get_value, put_pair, remove_key};
use iron_proxy::text::{
    chars_of, comes_before, decimal_text, endpoint_text, holds_text, join_colon, lines, parse_u64,
    same_text, trim,
};

fn strings(list: &[&str]) -> Vec<String> {
    list.iter().map(|s| s.to_string()).collect()
}

fn pairs_of(list: &[(&str, &str)]) -> Vec<(String, String)> {
    list.iter().map(|p| (p.0.to_string(), p.1.to_string())).collect()
}

#[test]
fn trimming_agrees_with_std() {
    for s in ["", " ", "a", " a ", "\t\r\n a b \u{a0}\u{3000}", "\u{85}x\u{2028}", "é ", "\u{200b}x"] {
        assert_eq!(trim(s), s.trim());
    }
    for n in 0u32..0x3100 {
        if let Some(c) = char::from_u32(n) {
            let padded = format!("{}x{}", c, c);
            assert_eq!(trim(&padded), padded.trim());
        }
    }
}

#[test]
fn lines_are_the_pieces_between_line_feeds() {
    assert_eq!(lines(""), strings(&[""]));
    assert_eq!(lines("a"), strings(&["a"]));
    assert_eq!(lines("a\nb\n"), strings(&["a", "b", ""]));
    assert_eq!(lines("\n\nä\r\n"), strings(&["", "", "ä\r", ""]));
}

#[test]
fn order_of_texts_agrees_with_std() {
    let samples = ["", "a", "b", "ab", "a\u{10000}", "a\u{ffff}", "é", "z", "10.0.0.1:80", "10.0.0.1:8"];
    for a in samples {
        for b in samples {
            assert_eq!(comes_before(a, b), a < b);
        }
    }
}

#[test]
fn decimals_agree_with_std() {
    for n in [0u64, 9, 10, 99, 100, 8080, 65535, u64::MAX] {
        assert_eq!(decimal_text(n), n.to_string());
        assert_eq!(parse_u64(&decimal_text(n)), Some(n));
    }
}

#[test]
fn numbers_are_read_as_std_reads_them() {
    for s in [
        "", "+", "-", "0", "007", "+5", "++5", "-5", " 5", "5 ", "5a", "٣", "18446744073709551615",
        "18446744073709551616", "99999999999999999999999", "000000000000000000000000000000007",
    ] {
        assert_eq!(parse_u64(s), s.parse::<u64>().ok());
    }
}

#[test]
fn endpoints_join_host_and_port() {
    assert_eq!(endpoint_text("0.0.0.0", 8080), "0.0.0.0:8080");
    assert_eq!(endpoint_text("", 0), ":0");
    assert_eq!(join_colon("a", "b"), "a:b");
}

#[test]
fn texts_are_compared_and_found() {
    assert!(same_text("a", "a"));
    assert!(!same_text("a", "b"));
    assert!(holds_text(&strings(&["x", "y"]), &"y".to_string()));
    assert!(!holds_text(&strings(&["x", "y"]), &"z".to_string()));
    assert_eq!(chars_of("aé"), vec!['a', 'é']);
}

#[test]
fn pairs_keep_their_places() {
    let mut p = pairs_of(&[]);
    put_pair(&mut p, "a".to_string(), "1".to_string());
    put_pair(&mut p, "b".to_string(), "2".to_string());
    put_pair(&mut p, "a".to_string(), "3".to_string());
    assert_eq!(p, pairs_of(&[("a", "3"), ("b", "2")]));
    assert_eq!(find_key(&p, "b"), 1);
    assert_eq!(find_key(&p, "c"), 2);
    assert_eq!(get_value(&p, "a"), Some("3".to_string()));
    assert_eq!(get_value(&p, "c"), None);
    assert_eq!(copy_values(&p), strings(&["3", "2"]));
    assert_eq!(remove_key(&mut p, "c"), None);
    assert_eq!(remove_key(&mut p, "a"), Some("3".to_string()));
    assert_eq!(p, pairs_of(&[("b", "2")]));
}

#[test]
fn bit_patterns_compare_as_doubles_do() {
    let samples = [
        0.0f64,
        -0.0,
        1.0,
        -1.0,
        0.5,
        1e300,
        -1e300,
        f64::MIN_POSITIVE,
        5e-324,
        f64::INFINITY,
        f64::NEG_INFINITY,
        f64::NAN,
        -f64::NAN,
        100.25,
    ];
    for a in samples {
        assert_eq!(is_zero_bits(a.to_bits()), a == 0.0);
        assert_eq!(is_a_number(a.to_bits()), !a.is_nan());
        for b in samples {
            assert_eq!(is_less(a.to_bits(), b.to_bits()), a < b);
            assert_eq!(is_at_least(a.to_bits(), b.to_bits()), a >= b);
            let least = f64::from_bits(min_bits(a.to_bits(), b.to_bits()));
            let expected = a.min(b);
            assert!(least == expected || (least.is_nan() && expected.is_nan()));
        }
    }
    assert_eq!(ONE_BITS, 1.0f64.to_bits());
}
