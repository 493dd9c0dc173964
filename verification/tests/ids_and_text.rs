//! Identifiers and text.

use pcb::board::Id;
use pcb::text::{
    fixed_over_text, fixed_text, half_difference_text, int_text, join, lower_text, replace, str_eq, str_le, uint_text,
};
use pcb::words::{blank, parse_u32, space};

#[test]
fn ids_print_and_parse_back() {
    let id = Id::parse("67e55044-10b1-426f-9247-bb680e5fe0c8").unwrap();
    assert_eq!(id.text(), "67e55044-10b1-426f-9247-bb680e5fe0c8");
    assert_eq!(id.0, 0x67e5504410b1426f9247bb680e5fe0c8);
    let fresh = Id::new();
    assert_eq!(Id::parse(&fresh.text()).unwrap(), fresh);
    assert_ne!(fresh, Id::new());
    assert!(Id::parse("no id").is_err());
}

#[test]
fn fresh_ids_are_random_version_four() {
    let id = Id::new();
    assert_eq!(id.0 / 0x1000_0000_0000_0000_0000 % 16, 4);
    assert_eq!(id.0 / 0x4000_0000_0000_0000 % 4, 2);
    let text = Id::default().text();
    assert_eq!(text.len(), 36);
    assert_eq!(text.as_bytes()[14], b'4');
    assert!(matches!(text.as_bytes()[19], b'8' | b'9' | b'a' | b'b'));
}

#[test]
fn numbers_print_in_decimal() {
    assert_eq!(uint_text(0), "0");
    assert_eq!(uint_text(1234567890123456789012), "1234567890123456789012");
    assert_eq!(int_text(-42), "-42");
}

#[test]
fn lengths_print_with_fixed_places() {
    assert_eq!(fixed_text(1_500_000, 2), "1.50");
    assert_eq!(fixed_text(-250_000, 4), "-0.2500");
    assert_eq!(fixed_text(1_999_999, 2), "2.00");
    assert_eq!(fixed_text(40_000_000, 0), "40");
}

#[test]
fn strings_compare_and_change() {
    assert!(str_eq("a", "a") && !str_eq("a", "b"));
    assert!(str_le("R1", "R10") && str_le("R1", "R1") && !str_le("b", "a"));
    assert_eq!(join(&vec!["a".to_string(), "b".to_string()], ", "), "a, b");
    assert_eq!(replace("x{REF}y{REF}", "{REF}", "R1"), "xR1yR1");
    assert_eq!(lower_text("AbC"), "abc");
}

#[test]
fn words_and_numbers() {
    assert!(space(' ') && space('\t') && !space('x'));
    assert!(blank(" \t") && !blank(" x "));
    assert_eq!(parse_u32(&"42".chars().collect()), Some(42));
    assert_eq!(parse_u32(&"4294967296".chars().collect()), None);
    assert_eq!(parse_u32(&"-1".chars().collect()), None);
    assert_eq!(parse_u32(&"".chars().collect()), None);
}

#[test]
fn a_half_goes_with_what_is_held() {
    // Held exactly: to the even digit.
    assert_eq!(fixed_text(62_500, 3), "0.062");
    assert_eq!(fixed_text(187_500, 3), "0.188");
    assert_eq!(fixed_text(-62_500, 3), "-0.062");
    assert_eq!(fixed_text(2_500_000, 0), "2");
    // Held a little below, and a little above.
    assert_eq!(fixed_text(1_000_500, 3), "1.000");
    assert_eq!(fixed_text(1_500, 3), "0.002");
    assert_eq!(fixed_text(-1, 3), "-0.000");
}

fn decimals(v: f64, places: u32) -> String {
    format!("{:.*}", places as usize, v)
}

#[test]
fn lengths_print_as_machine_fractions_do() {
    for places in 0..=6u32 {
        let unit = 10i64.pow(6 - places);
        for k in 0..4000i64 {
            // Halves of the last place, and their neighbours.
            for n in [k * unit + unit / 2, k * unit + unit / 2 + 1, k * 7919 + 13] {
                for nm in [n, -n] {
                    assert_eq!(fixed_text(nm, places), decimals(nm as f64 / 1e6, places), "{nm}");
                }
            }
        }
        for n in [0, i64::MAX, i64::MIN, 1 << 53, (1 << 53) + 1, (1 << 60) + 12_345_678_901] {
            assert_eq!(fixed_text(n, places), decimals(n as f64 / 1e6, places), "{n}");
        }
    }
}

#[test]
fn differences_print_as_machine_fractions_do() {
    for k in 0..3000i64 {
        let (a, b) = (450_000 + 37 * k, 200_000 + 5 * k * k % 400_000);
        let v = (a as f64 / 1e6 - b as f64 / 1e6) / 2.0;
        assert_eq!(half_difference_text(a, b, 3), decimals(v, 3), "{a} {b}");
        assert_eq!(half_difference_text(b, a, 3), decimals(-v, 3), "{b} {a}");
    }
    assert_eq!(half_difference_text(601_000, 500_000, 3), decimals((0.601 - 0.5) / 2.0, 3));
    assert_eq!(half_difference_text(5, 5, 3), "0.000");
}

#[test]
fn quotients_print_as_machine_fractions_do() {
    for n in 0..2000i64 {
        for d in [3i64, 7, 8, 640, 1000] {
            assert_eq!(
                fixed_over_text(i128::from(n), d as u128, 2),
                decimals(n as f64 / d as f64, 2),
                "{n} / {d}"
            );
        }
    }
    assert_eq!(fixed_over_text(-1, 8, 2), "-0.12");
}
