use rolly::attrs::{attrs_hash_unordered, attrs_match, owned_attrs, str_eq};
use rolly::double::{bucket_index, is_finite, is_nan, order_place, sort_distinct};

fn bits(values: &[f64]) -> Vec<u64> {
    values.iter().map(|v| v.to_bits()).collect()
}

#[test]
fn hash_of_no_attributes_is_zero() {
    assert_eq!(attrs_hash_unordered(&[]), 0);
}

#[test]
fn hash_ignores_the_order_of_attributes() {
    let ab = attrs_hash_unordered(&[("a", "1"), ("b", "2"), ("c", "")]);
    let ba = attrs_hash_unordered(&[("c", ""), ("b", "2"), ("a", "1")]);
    assert_eq!(ab, ba);
    assert_ne!(ab, attrs_hash_unordered(&[("a", "2"), ("b", "1"), ("c", "")]));
}

#[test]
fn stored_attributes_are_sorted() {
    let stored = owned_attrs(&[("b", "2"), ("a", "9"), ("a", "1")]);
    let texts: Vec<_> = stored.iter().map(|(k, v)| format!("{}={}", k, v)).collect();
    assert_eq!(texts, ["a=1", "a=9", "b=2"]);
    assert!(attrs_match(&stored, &[("a", "1"), ("b", "2"), ("a", "9")]));
    assert!(!attrs_match(&stored, &[("a", "1"), ("b", "2")]));
    assert!(!attrs_match(&stored, &[("a", "1"), ("b", "2"), ("a", "8")]));
}

#[test]
fn texts_are_told_apart() {
    assert!(str_eq("caf\u{e9}", "caf\u{e9}"));
    assert!(!str_eq("caf\u{e9}", "cafe"));
}

#[test]
fn doubles_are_ordered_by_value() {
    let values = [f64::NEG_INFINITY, -1.5, -0.0, f64::MIN_POSITIVE, 1.0, 1e300, f64::INFINITY];
    for a in values {
        for b in values {
            assert_eq!(
                order_place(a.to_bits()) < order_place(b.to_bits()),
                a < b,
                "{} {}",
                a,
                b
            );
        }
    }
    assert_eq!(order_place(0.0f64.to_bits()), order_place((-0.0f64).to_bits()));
    assert!(is_finite(1e308f64.to_bits()) && !is_finite(f64::INFINITY.to_bits()));
    assert!(is_nan(f64::NAN.to_bits()) && !is_nan(f64::INFINITY.to_bits()));
}

#[test]
fn boundaries_are_sorted_and_distinct() {
    assert_eq!(
        sort_distinct(&bits(&[10.0, -1.0, 10.0, 5.0, 5.0])),
        bits(&[-1.0, 5.0, 10.0])
    );
}

#[test]
fn bucket_of_a_value_on_a_boundary_is_the_next_one() {
    let bounds = bits(&[10.0, 20.0]);
    for (value, bucket) in [(0.0f64, 0usize), (9.9, 0), (10.0, 1), (15.0, 1), (20.0, 2), (1e9, 2)] {
        let expected = [10.0, 20.0].partition_point(|&b| b <= value);
        assert_eq!(expected, bucket);
        assert_eq!(bucket_index(&bounds, value.to_bits()), bucket);
    }
    assert_eq!(bucket_index(&[], 5.0f64.to_bits()), 0);
}

#[test]
fn hash_of_joined_lists_is_the_sum() {
    let front = [("a", "1"), ("b", "2")];
    let back = [("c", "3"), ("a", "1"), ("d", "")];
    let joined: Vec<(&str, &str)> = front.iter().chain(back.iter()).copied().collect();
    assert_eq!(
        attrs_hash_unordered(&joined),
        attrs_hash_unordered(&front).wrapping_add(attrs_hash_unordered(&back))
    );
}

#[test]
fn value_at_a_boundary_counts_above_it() {
    let bounds: Vec<u64> = [-1.0f64, 0.0, 2.5].iter().map(|b| b.to_bits()).collect();
    for (i, bound) in bounds.iter().enumerate() {
        assert_eq!(bucket_index(&bounds, *bound), i + 1);
    }
    assert_eq!(bucket_index(&bounds, (-0.0f64).to_bits()), 2);
}
