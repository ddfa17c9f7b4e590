//! Attribute sets: their canonical order and their hash.

use std::sync::Arc;
use vstd::prelude::*;
use vstd::relations::*;

use crate::metrics::Attrs;

verus! {

/// An attribute as mathematics: key and value.
pub type Pair = (Seq<char>, Seq<char>);

/// Incoming attributes as mathematics.
pub open spec fn pairs(attrs: Seq<(&str, &str)>) -> Seq<Pair> {
    attrs.map_values(|p: (&str, &str)| (p.0@, p.1@))
}

/// Stored attributes as mathematics.
pub open spec fn stored_pairs(attrs: Seq<(String, String)>) -> Seq<Pair> {
    attrs.map_values(|p: (String, String)| (p.0@, p.1@))
}

/// Lexicographic order on byte strings.
pub open spec fn bytes_le(a: Seq<u8>, b: Seq<u8>) -> bool
    decreases a.len(),
{
    if a.len() == 0 {
        true
    } else if b.len() == 0 {
        false
    } else if a[0] != b[0] {
        a[0] < b[0]
    } else {
        bytes_le(a.skip(1), b.skip(1))
    }
}

/// The order of strings: that of their UTF-8 bytes.
pub open spec fn str_le(a: Seq<char>, b: Seq<char>) -> bool {
    bytes_le(vstd::utf8::encode_utf8(a), vstd::utf8::encode_utf8(b))
}

/// The order of attributes: by key, then by value.
pub open spec fn pair_le(a: Pair, b: Pair) -> bool {
    if a.0 == b.0 {
        str_le(a.1, b.1)
    } else {
        str_le(a.0, b.0)
    }
}

/// The order of attributes as a relation.
pub open spec fn pair_order() -> spec_fn(Pair, Pair) -> bool {
    |a: Pair, b: Pair| pair_le(a, b)
}

/// The canonical form of an attribute set: its pairs in order.
pub open spec fn canonical(attrs: Seq<Pair>) -> Seq<Pair> {
    attrs.sort_by(pair_order())
}

proof fn lemma_bytes_le_total(a: Seq<u8>, b: Seq<u8>)
    ensures
        bytes_le(a, a),
        bytes_le(a, b) || bytes_le(b, a),
        bytes_le(a, b) && bytes_le(b, a) ==> a == b,
    decreases a.len(),
{
    if a.len() > 0 {
        if b.len() > 0 && a[0] == b[0] {
            lemma_bytes_le_total(a.skip(1), b.skip(1));
            if a.skip(1) == b.skip(1) {
                assert(a =~= seq![a[0]] + a.skip(1));
                assert(b =~= seq![b[0]] + b.skip(1));
            }
        } else {
            lemma_bytes_le_total(a.skip(1), a.skip(1));
        }
    } else if b.len() == 0 {
        assert(a =~= b);
    }
}

proof fn lemma_bytes_le_transitive(a: Seq<u8>, b: Seq<u8>, c: Seq<u8>)
    requires
        bytes_le(a, b),
        bytes_le(b, c),
    ensures
        bytes_le(a, c),
    decreases a.len(),
{
    if a.len() > 0 && b.len() > 0 && c.len() > 0 && a[0] == b[0] && b[0] == c[0] {
        lemma_bytes_le_transitive(a.skip(1), b.skip(1), c.skip(1));
    }
}

proof fn lemma_str_le_total(a: Seq<char>, b: Seq<char>)
    ensures
        str_le(a, a),
        str_le(a, b) || str_le(b, a),
        str_le(a, b) && str_le(b, a) ==> a == b,
{
    lemma_bytes_le_total(vstd::utf8::encode_utf8(a), vstd::utf8::encode_utf8(b));
    vstd::utf8::encode_utf8_decode_utf8(a);
    vstd::utf8::encode_utf8_decode_utf8(b);
}

/// The order of attributes is total.
pub proof fn lemma_pair_order_total()
    ensures
        total_ordering(pair_order()),
{
    let r = pair_order();
    assert forall|a: Pair| #[trigger] r(a, a) by {
        lemma_str_le_total(a.1, a.1);
    }
    assert forall|a: Pair, b: Pair| #[trigger] r(a, b) && #[trigger] r(b, a) implies a == b by {
        lemma_str_le_total(a.0, b.0);
        lemma_str_le_total(a.1, b.1);
    }
    assert forall|a: Pair, b: Pair| #[trigger] r(a, b) || #[trigger] r(b, a) by {
        lemma_str_le_total(a.0, b.0);
        lemma_str_le_total(a.1, b.1);
    }
    assert forall|a: Pair, b: Pair, c: Pair| #[trigger] r(a, b) && #[trigger] r(b, c) implies r(
        a,
        c,
    ) by {
        lemma_str_le_total(a.0, b.0);
        lemma_str_le_total(b.0, c.0);
        if str_le(a.0, b.0) && str_le(b.0, c.0) {
            lemma_bytes_le_transitive(
                vstd::utf8::encode_utf8(a.0),
                vstd::utf8::encode_utf8(b.0),
                vstd::utf8::encode_utf8(c.0),
            );
        }
        if a.0 == b.0 && b.0 == c.0 {
            lemma_bytes_le_transitive(
                vstd::utf8::encode_utf8(a.1),
                vstd::utf8::encode_utf8(b.1),
                vstd::utf8::encode_utf8(c.1),
            );
        }
    }
}

/// Sorting keeps the pairs and puts them in order; a list that is in order and has
/// the same pairs is the canonical form.
proof fn lemma_canonical(attrs: Seq<Pair>, sorted: Seq<Pair>)
    requires
        sorted_by(sorted, pair_order()),
        sorted.to_multiset() == attrs.to_multiset(),
    ensures
        sorted == canonical(attrs),
{
    lemma_pair_order_total();
    attrs.lemma_sort_by_ensures(pair_order());
    vstd::seq_lib::lemma_sorted_unique(sorted, canonical(attrs), pair_order());
}

/// The order in which attributes are given does not matter: two lists with the
/// same pairs have the same canonical form.
pub proof fn lemma_canonical_ignores_order(a: Seq<Pair>, b: Seq<Pair>)
    requires
        a.to_multiset() == b.to_multiset(),
    ensures
        canonical(a) == canonical(b),
{
    lemma_pair_order_total();
    a.lemma_sort_by_ensures(pair_order());
    lemma_canonical(b, canonical(a));
}

/// A canonical form is its own canonical form, and has as many pairs as the list.
pub proof fn lemma_canonical_idempotent(attrs: Seq<Pair>)
    ensures
        canonical(canonical(attrs)) == canonical(attrs),
        canonical(attrs).len() == attrs.len(),
{
    lemma_pair_order_total();
    attrs.lemma_sort_by_ensures(pair_order());
    lemma_canonical_ignores_order(canonical(attrs), attrs);
    vstd::seq_lib::to_multiset_len(attrs);
    vstd::seq_lib::to_multiset_len(canonical(attrs));
}

/// FNV-1a with 64 bits.
pub open spec fn fnv1a(bytes: Seq<u8>) -> u64
    decreases bytes.len(),
{
    if bytes.len() == 0 {
        0xcbf29ce484222325
    } else {
        fnv_step(fnv1a(bytes.drop_last()), bytes.last())
    }
}

/// One byte more of FNV-1a.
pub open spec fn fnv_step(h: u64, byte: u8) -> u64 {
    (((h ^ (byte as u64)) as nat * 0x100000001b3) % 0x1_0000_0000_0000_0000) as u64
}

/// The hash of one attribute: over its key, a byte that UTF-8 never holds, and its
/// value.
pub open spec fn pair_hash(p: Pair) -> u64 {
    fnv1a(vstd::utf8::encode_utf8(p.0) + seq![0xffu8] + vstd::utf8::encode_utf8(p.1))
}

/// One attribute more in the hash of a list.
pub open spec fn hash_step(h: u64, p: Pair) -> u64 {
    ((h + pair_hash(p)) % 0x1_0000_0000_0000_0000) as u64
}

/// The hash of a list of attributes: the sum of their hashes, modulo 2^64.
pub open spec fn attrs_hash(attrs: Seq<Pair>) -> u64 {
    attrs.fold_left(0u64, |h: u64, p: Pair| hash_step(h, p))
}

/// The hash of no attributes is zero.
pub proof fn lemma_hash_empty()
    ensures
        attrs_hash(Seq::empty()) == 0,
{
}

/// The hash does not depend on the order of the attributes.
pub proof fn lemma_hash_ignores_order(a: Seq<Pair>, b: Seq<Pair>)
    requires
        a.to_multiset() == b.to_multiset(),
    ensures
        attrs_hash(a) == attrs_hash(b),
{
    let f = |h: u64, p: Pair| hash_step(h, p);
    assert forall|x: Pair, y: Pair, v: u64| #[trigger] f(f(v, x), y) == f(f(v, y), x) by {
        let m = 0x1_0000_0000_0000_0000int;
        assert(((v + pair_hash(x)) % m + pair_hash(y)) % m == ((v + pair_hash(y)) % m + pair_hash(
            x,
        )) % m);
    }
    vstd::seq_lib::lemma_fold_left_permutation(a, b, f, 0u64);
}

/// The hash of two lists laid end to end is the sum of their hashes, modulo 2^64.
pub proof fn lemma_hash_joined(a: Seq<Pair>, b: Seq<Pair>)
    ensures
        attrs_hash(a + b) == (attrs_hash(a) + attrs_hash(b)) % 0x1_0000_0000_0000_0000,
    decreases b.len(),
{
    if b.len() == 0 {
        assert(a + b =~= a);
        assert(b =~= Seq::empty());
        lemma_hash_empty();
    } else {
        lemma_hash_joined(a, b.drop_last());
        assert((a + b).drop_last() =~= a + b.drop_last());
        lemma_hash_last(a + b);
        lemma_hash_last(b);
        lemma_wrapped_sums(
            attrs_hash(a) as int,
            attrs_hash(b.drop_last()) as int,
            pair_hash(b.last()) as int,
        );
    }
}

/// The last attribute of a list is one more in its hash.
proof fn lemma_hash_last(attrs: Seq<Pair>)
    requires
        attrs.len() > 0,
    ensures
        attrs_hash(attrs) == hash_step(attrs_hash(attrs.drop_last()), attrs.last()),
{
}

/// Three numbers have the same sum, modulo 2^64, whichever two are added first.
proof fn lemma_wrapped_sums(a: int, b: int, c: int)
    ensures
        ((a + b) % 0x1_0000_0000_0000_0000 + c) % 0x1_0000_0000_0000_0000 == (a + (b + c)
            % 0x1_0000_0000_0000_0000) % 0x1_0000_0000_0000_0000,
{
}

/// Lists with the same canonical form have the same pairs.
proof fn lemma_canonical_multiset(attrs: Seq<Pair>)
    ensures
        canonical(attrs).to_multiset() == attrs.to_multiset(),
{
    lemma_pair_order_total();
    attrs.lemma_sort_by_ensures(pair_order());
}

/// The canonical form of a list has the hash of the list.
pub proof fn lemma_canonical_hash(attrs: Seq<Pair>)
    ensures
        attrs_hash(canonical(attrs)) == attrs_hash(attrs),
{
    lemma_canonical_multiset(attrs);
    lemma_hash_ignores_order(canonical(attrs), attrs);
}

/// Whether `a` comes no later than `b` in lexicographic order.
fn bytes_no_later(a: &[u8], b: &[u8]) -> (r: bool)
    ensures
        r == bytes_le(a@, b@),
{
    let mut i: usize = 0;
    assert(a@.skip(0) =~= a@ && b@.skip(0) =~= b@);
    while i < a.len() && i < b.len() && a[i] == b[i]
        invariant
            i <= a.len(),
            i <= b.len(),
            bytes_le(a@, b@) == bytes_le(a@.skip(i as int), b@.skip(i as int)),
        decreases a.len() - i,
    {
        assert(a@.skip(i as int).skip(1) =~= a@.skip(i + 1));
        assert(b@.skip(i as int).skip(1) =~= b@.skip(i + 1));
        i = i + 1;
    }
    if i == a.len() {
        true
    } else if i == b.len() {
        false
    } else {
        a[i] < b[i]
    }
}

/// Whether two strings are the same.
pub fn str_eq(a: &str, b: &str) -> (r: bool)
    ensures
        r == (a@ == b@),
{
    proof {
        vstd::utf8::encode_utf8_decode_utf8(a@);
        vstd::utf8::encode_utf8_decode_utf8(b@);
    }
    let x: &[u8] = a.as_bytes();
    let y: &[u8] = b.as_bytes();
    if x.len() != y.len() {
        return false;
    }
    let mut i: usize = 0;
    while i < x.len()
        invariant
            i <= x.len(),
            x.len() == y.len(),
            x@ == vstd::utf8::encode_utf8(a@),
            y@ == vstd::utf8::encode_utf8(b@),
            x@.take(i as int) == y@.take(i as int),
        decreases x.len() - i,
    {
        if x[i] != y[i] {
            return false;
        }
        assert(x@.take(i + 1) =~= x@.take(i as int).push(x@[i as int]));
        assert(y@.take(i + 1) =~= y@.take(i as int).push(y@[i as int]));
        i = i + 1;
    }
    assert(x@.take(i as int) =~= x@);
    assert(y@.take(i as int) =~= y@);
    true
}

/// Whether one attribute comes no later than another.
fn pair_no_later(ak: &str, av: &str, bk: &str, bv: &str) -> (r: bool)
    ensures
        r == pair_le((ak@, av@), (bk@, bv@)),
{
    if str_eq(ak, bk) {
        bytes_no_later(av.as_bytes(), bv.as_bytes())
    } else {
        bytes_no_later(ak.as_bytes(), bk.as_bytes())
    }
}

/// The hash of attributes, whatever their order.
pub fn attrs_hash_unordered(attrs: &[(&str, &str)]) -> (h: u64)
    ensures
        h == attrs_hash(pairs(attrs@)),
{
    let ghost f = |h: u64, p: Pair| hash_step(h, p);
    let mut combined: u64 = 0;
    let mut i: usize = 0;
    while i < attrs.len()
        invariant
            i <= attrs.len(),
            f == (|h: u64, p: Pair| hash_step(h, p)),
            combined == pairs(attrs@).take(i as int).fold_left(0u64, f),
        decreases attrs.len() - i,
    {
        let (k, v) = attrs[i];
        let ghost prefix = pairs(attrs@).take(i + 1);
        assert(prefix.drop_last() =~= pairs(attrs@).take(i as int));
        assert(prefix.last() == (k@, v@));
        combined = combined.wrapping_add(hash_pair(k, v));
        i = i + 1;
    }
    assert(pairs(attrs@).take(i as int) =~= pairs(attrs@));
    combined
}

/// Hashes some bytes more.
fn hash_bytes(h: u64, bytes: &[u8], Ghost(before): Ghost<Seq<u8>>) -> (r: u64)
    requires
        h == fnv1a(before),
    ensures
        r == fnv1a(before + bytes@),
{
    let mut r: u64 = h;
    let mut i: usize = 0;
    assert(before + bytes@.take(0) =~= before);
    while i < bytes.len()
        invariant
            i <= bytes.len(),
            r == fnv1a(before + bytes@.take(i as int)),
        decreases bytes.len() - i,
    {
        let ghost next = before + bytes@.take(i + 1);
        assert(next.drop_last() =~= before + bytes@.take(i as int));
        r = hash_byte(r, bytes[i]);
        i = i + 1;
    }
    assert(bytes@.take(i as int) =~= bytes@);
    r
}

/// Hashes one byte more.
fn hash_byte(h: u64, byte: u8) -> (r: u64)
    ensures
        r == fnv_step(h, byte),
{
    (h ^ (byte as u64)).wrapping_mul(0x100000001b3)
}

/// The hash of one attribute.
fn hash_pair(k: &str, v: &str) -> (h: u64)
    ensures
        h == pair_hash((k@, v@)),
{
    let ghost key = vstd::utf8::encode_utf8(k@);
    let mut h: u64 = 0xcbf29ce484222325;
    h = hash_bytes(h, k.as_bytes(), Ghost(Seq::empty()));
    assert(Seq::<u8>::empty() + key =~= key);
    h = hash_byte(h, 0xff);
    assert((key + seq![0xffu8]).drop_last() =~= key);
    hash_bytes(h, v.as_bytes(), Ghost(key + seq![0xffu8]))
}

/// The attributes in order, as pairs of owned strings.
fn sorted_attrs(attrs: &[(&str, &str)]) -> (owned: Vec<(String, String)>)
    ensures
        stored_pairs(owned@) == canonical(pairs(attrs@)),
{
    let mut owned: Vec<(String, String)> = Vec::new();
    let mut i: usize = 0;
    assert(stored_pairs(owned@) =~= Seq::<Pair>::empty());
    assert(pairs(attrs@).take(0) =~= Seq::<Pair>::empty());
    while i < attrs.len()
        invariant
            i <= attrs.len(),
            sorted_by(stored_pairs(owned@), pair_order()),
            stored_pairs(owned@).to_multiset() == pairs(attrs@).take(i as int).to_multiset(),
        decreases attrs.len() - i,
    {
        let (k, v) = attrs[i];
        let ghost stored = stored_pairs(owned@);
        let ghost new = (k@, v@);
        let mut at: usize = owned.len();
        while at > 0 && !pair_no_later(&owned[at - 1].0, &owned[at - 1].1, k, v)
            invariant
                at <= owned.len(),
                stored == stored_pairs(owned@),
                new == (k@, v@),
                forall|j: int| at <= j < stored.len() ==> !pair_le(#[trigger] stored[j], new),
            decreases at,
        {
            at = at - 1;
        }
        let ghost before = owned@;
        owned.insert(at, (k.to_owned(), v.to_owned()));
        proof {
            assert(stored_pairs(owned@) =~= stored.insert(at as int, new));
            lemma_insert_sorted(stored, at as int, new);
            vstd::seq_lib::to_multiset_insert(stored, at as int, new);
            let prefix = pairs(attrs@).take(i as int);
            assert(pairs(attrs@).take(i + 1) =~= prefix.push(new));
            vstd::seq_lib::to_multiset_build(prefix, new);
        }
        i = i + 1;
    }
    proof {
        assert(pairs(attrs@).take(i as int) =~= pairs(attrs@));
        lemma_canonical(pairs(attrs@), stored_pairs(owned@));
    }
    owned
}

/// Putting a pair between those that come no later and those that do come later
/// keeps a list in order.
proof fn lemma_insert_sorted(stored: Seq<Pair>, at: int, new: Pair)
    requires
        sorted_by(stored, pair_order()),
        0 <= at <= stored.len(),
        at > 0 ==> pair_le(stored[at - 1], new),
        forall|j: int| at <= j < stored.len() ==> !pair_le(#[trigger] stored[j], new),
    ensures
        sorted_by(stored.insert(at, new), pair_order()),
{
    lemma_pair_order_total();
    let r = pair_order();
    let s = stored.insert(at, new);
    assert forall|i: int, j: int| 0 <= i < j < s.len() implies #[trigger] r(s[i], s[j]) by {
        if i < at && j < at {
            assert(r(stored[i], stored[j]));
        } else if i < at && j == at {
            if i < at - 1 {
                assert(r(stored[i], stored[at - 1]));
            }
            assert(r(stored[at - 1], new));
        } else if i < at {
            assert(r(stored[i], stored[j - 1]));
        } else if i == at {
            assert(!r(stored[j - 1], new));
            assert(r(stored[j - 1], new) || r(new, stored[j - 1]));
        } else {
            assert(r(stored[i - 1], stored[j - 1]));
        }
    }
}

/// The attributes in order, to be shared with snapshots.
pub fn owned_attrs(attrs: &[(&str, &str)]) -> (owned: Attrs)
    ensures
        stored_pairs(owned@) == canonical(pairs(attrs@)),
{
    Arc::new(sorted_attrs(attrs))
}

/// Whether stored attributes are the incoming ones, in the order in which these are
/// given or in canonical order.
pub fn attrs_match(stored: &[(String, String)], incoming: &[(&str, &str)]) -> (r: bool)
    ensures
        r == (stored_pairs(stored@) == pairs(incoming@) || stored_pairs(stored@) == canonical(
            pairs(incoming@),
        )),
{
    proof {
        lemma_canonical_idempotent(pairs(incoming@));
    }
    if stored.len() != incoming.len() {
        return false;
    }
    let mut i: usize = 0;
    while i < stored.len() && str_eq(&stored[i].0, incoming[i].0) && str_eq(
        &stored[i].1,
        incoming[i].1,
    )
        invariant
            i <= stored.len(),
            stored.len() == incoming.len(),
            forall|j: int| 0 <= j < i ==> stored_pairs(stored@)[j] == pairs(incoming@)[j],
        decreases stored.len() - i,
    {
        i = i + 1;
    }
    if i == stored.len() {
        assert(stored_pairs(stored@) =~= pairs(incoming@));
        return true;
    }
    assert(stored_pairs(stored@)[i as int] != pairs(incoming@)[i as int]);
    let sorted: Vec<(String, String)> = sorted_attrs(incoming);
    assert(stored_pairs(sorted@).len() == sorted@.len());
    let mut k: usize = 0;
    while k < stored.len() && stored[k].0 == sorted[k].0 && stored[k].1 == sorted[k].1
        invariant
            k <= stored.len(),
            stored.len() == sorted.len(),
            forall|j: int| 0 <= j < k ==> stored_pairs(stored@)[j] == stored_pairs(sorted@)[j],
        decreases stored.len() - k,
    {
        k = k + 1;
    }
    if k == stored.len() {
        assert(stored_pairs(stored@) =~= stored_pairs(sorted@));
        return true;
    }
    assert(stored_pairs(stored@)[k as int] != stored_pairs(sorted@)[k as int]);
    false
}

/// Attributes stored in canonical form match incoming ones exactly where these are
/// the same pairs in any order.
pub proof fn lemma_match_ignores_order(stored: Seq<Pair>, incoming: Seq<Pair>)
    requires
        canonical(stored) == stored,
    ensures
        (stored == incoming || stored == canonical(incoming)) <==> stored.to_multiset()
            == incoming.to_multiset(),
{
    lemma_canonical_multiset(incoming);
    if stored.to_multiset() == incoming.to_multiset() {
        lemma_canonical_ignores_order(stored, incoming);
    }
}

/// Byte strings are in the order of a dictionary: the first byte in which they differ decides, and
/// a string comes before what it is the beginning of.
pub proof fn lemma_order_of_bytes(a: Seq<u8>, b: Seq<u8>, at: int)
    requires
        0 <= at <= a.len(),
        at < b.len(),
        a.take(at) == b.take(at),
        at == a.len() || a[at] < b[at],
    ensures
        bytes_le(a, b),
        !bytes_le(b, a),
    decreases at,
{
    if at > 0 {
        assert(a[0] == a.take(at)[0] && b[0] == b.take(at)[0]);
        assert(a.skip(1).take(at - 1) =~= a.take(at).skip(1));
        assert(b.skip(1).take(at - 1) =~= b.take(at).skip(1));
        lemma_order_of_bytes(a.skip(1), b.skip(1), at - 1);
    }
}

/// The canonical form of attributes has the same pairs, in the order of the UTF-8 bytes of their
/// keys and, where those are the same, of their values.
pub proof fn lemma_canonical_is_in_order(attrs: Seq<Pair>)
    ensures
        canonical(attrs).to_multiset() == attrs.to_multiset(),
        forall|i: int, j: int| #![trigger canonical(attrs)[i], canonical(attrs)[j]]
            0 <= i < j < attrs.len() ==> {
                let a = canonical(attrs)[i];
                let b = canonical(attrs)[j];
                &&& a.0 != b.0 ==> bytes_le(
                    vstd::utf8::encode_utf8(a.0),
                    vstd::utf8::encode_utf8(b.0),
                )
                &&& a.0 == b.0 ==> bytes_le(
                    vstd::utf8::encode_utf8(a.1),
                    vstd::utf8::encode_utf8(b.1),
                )
            },
{
    lemma_pair_order_total();
    attrs.lemma_sort_by_ensures(pair_order());
    lemma_canonical_idempotent(attrs);
    let sorted = canonical(attrs);
    assert forall|i: int, j: int| #![trigger sorted[i], sorted[j]] 0 <= i < j
        < attrs.len() implies pair_le(sorted[i], sorted[j]) by {
        assert(pair_order()(sorted[i], sorted[j]));
    }
}

/// The hash of one attribute is the 64-bit FNV-1a hash of its key, a byte that is in no text, and
/// its value.
pub proof fn lemma_hash_of_one(key: Seq<char>, value: Seq<char>)
    ensures
        attrs_hash(seq![(key, value)]) == fnv1a(
            vstd::utf8::encode_utf8(key) + seq![0xffu8] + vstd::utf8::encode_utf8(value),
        ),
{
    let one = seq![(key, value)];
    assert(one.drop_last() =~= Seq::<Pair>::empty());
    lemma_hash_last(one);
    lemma_hash_empty();
}

/// FNV-1a: it starts at the offset basis, and each byte is mixed in by an exclusive or and a
/// multiplication by the prime, modulo 2^64.
pub proof fn lemma_fnv1a(bytes: Seq<u8>, byte: u8)
    ensures
        fnv1a(Seq::empty()) == 0xcbf2_9ce4_8422_2325,
        fnv1a(bytes.push(byte)) == ((fnv1a(bytes) ^ (byte as u64)) * 0x100_0000_01b3)
            % 0x1_0000_0000_0000_0000,
{
    assert(bytes.push(byte).drop_last() =~= bytes);
}

} // verus!
