//! Doubles carried by their bits: ordering, and the whole-number key text.

use wickra_screener_core::compare::{between, compare_ordered, crossed};
use wickra_screener_core::num::{finite, less, less_eq, nan, whole_text, Num};
use wickra_screener_core::spec::Comparator;

fn bits(v: f64) -> u64 {
    v.to_bits()
}

/// What the key rendering writes for a whole number: the value cast to `i64`.
fn expected(v: f64) -> Option<String> {
    if v.is_finite() && v.fract() == 0.0 {
        Some(format!("{}", v as i64))
    } else {
        None
    }
}

#[test]
fn whole_numbers_print_as_integers() {
    assert_eq!(whole_text(bits(14.0)).as_deref(), Some("14"));
    assert_eq!(whole_text(bits(-3.0)).as_deref(), Some("-3"));
    assert_eq!(whole_text(bits(0.0)).as_deref(), Some("0"));
    assert_eq!(whole_text(bits(-0.0)).as_deref(), Some("0"));
    assert_eq!(whole_text(bits(1024.0)).as_deref(), Some("1024"));
    assert_eq!(
        whole_text(bits(9_007_199_254_740_992.0)).as_deref(),
        Some("9007199254740992")
    );
    assert_eq!(whole_text(bits(0.5)), None);
    assert_eq!(whole_text(bits(2.25)), None);
    assert_eq!(whole_text(bits(5e-324)), None);
    assert_eq!(whole_text(bits(f64::NAN)), None);
    assert_eq!(whole_text(bits(f64::INFINITY)), None);
    assert_eq!(whole_text(bits(f64::NEG_INFINITY)), None);
}

#[test]
fn a_whole_number_beyond_i64_saturates_like_the_cast() {
    assert_eq!(
        whole_text(bits(1e20)).as_deref(),
        Some("9223372036854775807")
    );
    assert_eq!(
        whole_text(bits(-1e20)).as_deref(),
        Some("-9223372036854775808")
    );
    assert_eq!(
        whole_text(bits(9_223_372_036_854_775_808.0)).as_deref(),
        Some("9223372036854775807")
    );
    assert_eq!(
        whole_text(bits(-9_223_372_036_854_775_808.0)).as_deref(),
        Some("-9223372036854775808")
    );
    assert_eq!(whole_text(bits(f64::MAX)), expected(f64::MAX));
}

#[test]
fn whole_text_agrees_with_the_cast_across_many_values() {
    let mut x: u64 = 0x9E37_79B9_7F4A_7C15;
    for _ in 0..20_000 {
        // A simple xorshift walk over bit patterns, plus small integers and
        // halves around them.
        x ^= x << 13;
        x ^= x >> 7;
        x ^= x << 17;
        let v = f64::from_bits(x);
        assert_eq!(whole_text(x), expected(v), "bits {x:#x}");
        let small = (x % 4001) as f64 - 2000.0;
        assert_eq!(whole_text(bits(small)), expected(small));
        assert_eq!(whole_text(bits(small + 0.5)), expected(small + 0.5));
        let scaled = small * 1e15;
        assert_eq!(whole_text(bits(scaled)), expected(scaled));
    }
}

#[test]
fn comparisons_follow_ieee_order() {
    assert!(less(bits(-1.0), bits(2.0)));
    assert!(!less(bits(2.0), bits(-1.0)));
    assert!(!less(bits(0.0), bits(-0.0)));
    assert!(less_eq(bits(0.0), bits(-0.0)));
    assert!(less_eq(bits(-0.0), bits(0.0)));
    assert!(less(bits(f64::NEG_INFINITY), bits(f64::MIN)));
    assert!(less(bits(f64::MAX), bits(f64::INFINITY)));
    assert!(!less(bits(f64::NAN), bits(1.0)));
    assert!(!less_eq(bits(1.0), bits(f64::NAN)));
    assert!(nan(bits(f64::NAN)));
    assert!(!finite(bits(f64::INFINITY)));
    assert!(finite(bits(-5e-324)));
    let mut x: u64 = 0x0123_4567_89AB_CDEF;
    for _ in 0..20_000 {
        x ^= x << 13;
        x ^= x >> 7;
        x ^= x << 17;
        let y = x.rotate_left(29) ^ 0xDEAD_BEEF;
        let (a, b) = (f64::from_bits(x), f64::from_bits(y));
        assert_eq!(less(x, y), a < b);
        assert_eq!(less_eq(x, y), a <= b);
    }
}

#[test]
fn order_comparisons_and_crossovers() {
    let n = |v: f64| Num { bits: v.to_bits() };
    assert_eq!(compare_ordered(n(2.0), Comparator::Gt, n(1.0)), Some(true));
    assert_eq!(compare_ordered(n(1.0), Comparator::Ge, n(1.0)), Some(true));
    assert_eq!(compare_ordered(n(1.0), Comparator::Lt, n(1.0)), Some(false));
    assert_eq!(compare_ordered(n(-0.0), Comparator::Le, n(0.0)), Some(true));
    assert_eq!(compare_ordered(n(f64::NAN), Comparator::Le, n(0.0)), Some(false));
    assert_eq!(compare_ordered(n(1.0), Comparator::Eq, n(1.0)), None);
    assert_eq!(compare_ordered(n(1.0), Comparator::CrossesAbove, n(0.0)), None);
    // Below or level on the previous bar, above on this one.
    assert!(crossed(Comparator::CrossesAbove, n(1.0), n(1.0), n(2.0), n(1.5)));
    assert!(!crossed(Comparator::CrossesAbove, n(2.0), n(1.0), n(3.0), n(1.5)));
    assert!(crossed(Comparator::CrossesBelow, n(2.0), n(1.0), n(0.5), n(1.0)));
    assert!(!crossed(Comparator::CrossesBelow, n(2.0), n(1.0), n(1.0), n(1.0)));
    assert!(!crossed(Comparator::Gt, n(0.0), n(1.0), n(2.0), n(1.0)));
    assert!(between(n(1.0), n(1.0), n(2.0)));
    assert!(between(n(2.0), n(1.0), n(2.0)));
    assert!(!between(n(2.5), n(1.0), n(2.0)));
    assert!(!between(n(f64::NAN), n(1.0), n(2.0)));
}
