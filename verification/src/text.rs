//! Small operations on text.
use vstd::prelude::*;
use vstd::string::StringExecFns;

verus! {

/// The characters of a text.
pub fn chars_of(text: &str) -> (chars: Vec<char>)
    ensures
        chars@ == text@,
{
    let mut chars: Vec<char> = Vec::new();
    for c in it: text.chars()
        invariant
            it.seq() == text@,
            chars@ == text@.take(it.index()),
    {
        chars.push(c);
        assert(text@.take(it.index() + 1) =~= text@.take(it.index()).push(c));
    }
    assert(text@.take(text@.len() as int) =~= text@);
    chars
}

/// Appends some of the characters of a list to a text.
pub fn push_chars(text: &mut String, chars: &Vec<char>, from: usize, to: usize)
    requires
        from <= to <= chars@.len(),
    ensures
        final(text)@ == old(text)@ + chars@.subrange(from as int, to as int),
{
    let ghost before = text@;
    let mut i: usize = from;
    while i < to
        invariant
            from <= i <= to <= chars@.len(),
            text@ == before + chars@.subrange(from as int, i as int),
        decreases to - i,
    {
        text.push(chars[i]);
        assert(before + chars@.subrange(from as int, i + 1) =~= (before + chars@.subrange(
            from as int,
            i as int,
        )).push(chars@[i as int]));
        i += 1;
    }
    assert(before + chars@.subrange(from as int, to as int) =~= text@);
}

/// A decimal digit.
pub open spec fn decimal_digit(n: nat) -> char {
    (0x30 + n) as char
}

/// A number in decimal digits, without leading zeros.
pub open spec fn decimal(n: nat) -> Seq<char>
    decreases n,
{
    if n < 10 {
        seq![decimal_digit(n)]
    } else {
        decimal(n / 10).push(decimal_digit(n % 10))
    }
}

/// Appends a number in decimal digits.
pub fn push_decimal(text: &mut String, n: u64)
    ensures
        final(text)@ == old(text)@ + decimal(n as nat),
    decreases n,
{
    let ghost before = text@;
    if n >= 10 {
        push_decimal(text, n / 10);
    }
    text.push((0x30 + (n % 10) as u8) as char);
    assert(text@ =~= before + decimal(n as nat));
}

/// Reads decimal digits.
pub open spec fn decimal_value(digits: Seq<char>) -> nat
    decreases digits.len(),
{
    if digits.len() == 0 {
        0
    } else {
        10 * decimal_value(digits.drop_last()) + (digits.last() as nat - 0x30) as nat
    }
}

/// A number in decimal digits reads as that number.
pub proof fn lemma_decimal_reads_back(n: nat)
    ensures
        decimal_value(decimal(n)) == n,
    decreases n,
{
    if n < 10 {
        let digits = decimal(n);
        assert(digits.drop_last() =~= seq![]);
        assert(decimal_value(digits.drop_last()) == 0);
        assert(digits.last() as nat == 0x30 + n);
    } else {
        lemma_decimal_reads_back(n / 10);
        let digits = decimal(n);
        assert(digits.drop_last() =~= decimal(n / 10));
        assert(digits.last() as nat == 0x30 + n % 10);
    }
}

/// Where a text begins that stands inside another.
pub open spec fn stands_at(text: Seq<char>, part: Seq<char>, at: int) -> bool {
    0 <= at && at + part.len() <= text.len() && text.subrange(at, at + part.len()) == part
}

/// Whether one text stands inside another at a place.
pub fn has_at(text: &Vec<char>, part: &Vec<char>, at: usize) -> (found: bool)
    ensures
        found == stands_at(text@, part@, at as int),
{
    let len: usize = text.len();
    if at > len || part.len() > len - at {
        return false;
    }
    let mut i: usize = 0;
    while i < part.len()
        invariant
            i <= part@.len(),
            len == text@.len(),
            at + part@.len() <= len,
            forall|k: int| 0 <= k < i ==> text@[at + k] == part@[k],
        decreases part@.len() - i,
    {
        if text[at + i] != part[i] {
            assert(text@.subrange(at as int, at + part@.len())[i as int] != part@[i as int]);
            return false;
        }
        i += 1;
    }
    assert(text@.subrange(at as int, at + part@.len()) =~= part@);
    true
}

/// Whether a place is the first at which a text stands inside another.
pub open spec fn first_place(text: Seq<char>, part: Seq<char>, at: int) -> bool {
    stands_at(text, part, at) && forall|k: int| 0 <= k < at ==> !#[trigger] stands_at(text, part, k)
}

/// The first place at which a text stands inside another.
pub fn find(text: &Vec<char>, part: &Vec<char>) -> (place: Option<usize>)
    ensures
        match place {
            Some(at) => first_place(text@, part@, at as int),
            None => forall|k: int| !#[trigger] stands_at(text@, part@, k),
        },
{
    if part.len() > text.len() {
        return None;
    }
    let last: usize = text.len() - part.len();
    let mut at: usize = 0;
    loop
        invariant
            last == text@.len() - part@.len(),
            at <= last,
            forall|k: int| 0 <= k < at ==> !#[trigger] stands_at(text@, part@, k),
        decreases last - at,
    {
        if has_at(text, part, at) {
            return Some(at);
        }
        if at == last {
            return None;
        }
        at += 1;
    }
}

/// Appends a text.
pub fn put(text: &mut String, more: &str)
    ensures
        final(text)@ == old(text)@ + more@,
{
    text.append(more);
}

} // verus!
