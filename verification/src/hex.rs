//! Hexadecimal text.

use vstd::prelude::*;

verus! {

/// Appending a character to a string: `String::push` appends it to the end.
pub assume_specification[ std::string::String::push ](s: &mut std::string::String, c: char)
    ensures
        final(s)@ == old(s)@.push(c),
;

/// The value of a hexadecimal digit, in either case.
pub open spec fn nibble(b: u8) -> Option<u8> {
    if 0x30 <= b <= 0x39 {
        Some((b - 0x30) as u8)
    } else if 0x61 <= b <= 0x66 {
        Some((b - 0x61 + 10) as u8)
    } else if 0x41 <= b <= 0x46 {
        Some((b - 0x41 + 10) as u8)
    } else {
        None
    }
}

/// Thirty-two hexadecimal digits.
pub open spec fn is_hex_16(bytes: Seq<u8>) -> bool {
    bytes.len() == 32 && forall|i: int| 0 <= i < 32 ==> nibble(#[trigger] bytes[i]) is Some
}

/// The bytes that pairs of hexadecimal digits stand for.
pub open spec fn hex_value(bytes: Seq<u8>) -> Seq<u8> {
    Seq::new(
        bytes.len() / 2,
        |i: int| (16 * nibble(bytes[2 * i])->0 + nibble(bytes[2 * i + 1])->0) as u8,
    )
}

/// The lowercase digit for a value below sixteen.
pub open spec fn digit(n: int) -> char {
    if n < 10 {
        (0x30 + n) as char
    } else {
        (0x61 + n - 10) as char
    }
}

/// Bytes as lowercase hexadecimal digits, two for each.
pub open spec fn hex_text(bytes: Seq<u8>) -> Seq<char> {
    Seq::new(
        2 * bytes.len(),
        |i: int|
            digit(
                if i % 2 == 0 {
                    bytes[i / 2] as int / 16
                } else {
                    bytes[i / 2] as int % 16
                },
            ),
    )
}

/// The value of a hexadecimal digit, in either case.
pub fn hex_nibble(b: u8) -> (n: Option<u8>)
    ensures
        n == nibble(b),
        n is Some ==> n->0 < 16,
{
    if b >= 0x30 && b <= 0x39 {
        Some(b - 0x30)
    } else if b >= 0x61 && b <= 0x66 {
        Some(b - 0x61 + 10)
    } else if b >= 0x41 && b <= 0x46 {
        Some(b - 0x41 + 10)
    } else {
        None
    }
}

/// Reads sixteen bytes written as thirty-two hexadecimal digits.
pub fn hex_to_bytes_16(s: &str) -> (r: Result<[u8; 16], ()>)
    ensures
        r is Ok <==> is_hex_16(vstd::utf8::encode_utf8(s@)),
        r is Ok ==> r->Ok_0@ == hex_value(vstd::utf8::encode_utf8(s@)),
{
    let bytes: &[u8] = s.as_bytes();
    if bytes.len() != 32 {
        return Err(());
    }
    let mut out: [u8; 16] = [0u8; 16];
    let mut i: usize = 0;
    while i < 16
        invariant
            i <= 16,
            bytes@ == vstd::utf8::encode_utf8(s@),
            bytes@.len() == 32,
            forall|k: int| 0 <= k < 2 * i ==> nibble(#[trigger] bytes@[k]) is Some,
            forall|k: int| 0 <= k < i ==> #[trigger] out@[k] == hex_value(bytes@)[k],
        decreases 16 - i,
    {
        match (hex_nibble(bytes[2 * i]), hex_nibble(bytes[2 * i + 1])) {
            (Some(hi), Some(lo)) => {
                assert((hi << 4) | lo == 16 * hi + lo) by (bit_vector)
                    requires
                        hi < 16,
                        lo < 16,
                ;
                out[i] = (hi << 4) | lo;
            },
            _ => {
                return Err(());
            },
        }
        i = i + 1;
    }
    assert(out@ =~= hex_value(bytes@));
    Ok(out)
}

/// Bytes as lowercase hexadecimal digits.
pub fn hex_encode(bytes: &[u8]) -> (s: String)
    ensures
        s@ == hex_text(bytes@),
{
    let mut s: String = String::new();
    let mut i: usize = 0;
    while i < bytes.len()
        invariant
            i <= bytes.len(),
            s@ == hex_text(bytes@.take(i as int)),
        decreases bytes.len() - i,
    {
        let ghost before = s@;
        let b: u8 = bytes[i];
        s.push(hex_digit(b / 16));
        s.push(hex_digit(b % 16));
        assert(s@ =~= hex_text(bytes@.take(i + 1)));
        i = i + 1;
    }
    assert(bytes@.take(i as int) =~= bytes@);
    s
}

/// The lowercase digit for a value below sixteen.
fn hex_digit(n: u8) -> (c: char)
    requires
        n < 16,
    ensures
        c == digit(n as int),
{
    if n < 10 {
        (0x30 + n) as char
    } else {
        (0x61 + (n - 10)) as char
    }
}

/// Reading back what was written as hexadecimal digits gives the bytes.
pub proof fn lemma_hex_reads_back(bytes: Seq<u8>)
    requires
        bytes.len() == 16,
    ensures
        is_hex_16(vstd::utf8::encode_utf8(hex_text(bytes))),
        hex_value(vstd::utf8::encode_utf8(hex_text(bytes))) == bytes,
{
    let text = hex_text(bytes);
    assert(vstd::utf8::is_ascii_chars(text));
    vstd::utf8::is_ascii_chars_encode_utf8(text);
    let utf8 = vstd::utf8::encode_utf8(text);
    assert forall|i: int| 0 <= i < 32 implies nibble(#[trigger] utf8[i]) is Some by {
        assert(utf8[i] == text[i] as u8);
    }
    assert forall|i: int| 0 <= i < 16 implies #[trigger] hex_value(utf8)[i] == bytes[i] by {
        assert(utf8[2 * i] == text[2 * i] as u8);
        assert(utf8[2 * i + 1] == text[2 * i + 1] as u8);
    }
    assert(hex_value(utf8) =~= bytes);
}

/// Hexadecimal text is twice as long as the bytes, and different bytes have
/// different text.
pub proof fn lemma_hex_injective(a: Seq<u8>, b: Seq<u8>)
    ensures
        hex_text(a).len() == 2 * a.len(),
        hex_text(a) == hex_text(b) ==> a == b,
{
    if hex_text(a) == hex_text(b) {
        assert(hex_text(a).len() == hex_text(b).len());
        assert forall|i: int| 0 <= i < a.len() implies a[i] == #[trigger] b[i] by {
            assert(hex_text(a)[2 * i] == hex_text(b)[2 * i]);
            assert(hex_text(a)[2 * i + 1] == hex_text(b)[2 * i + 1]);
            lemma_digit_injective(a[i] as int / 16, b[i] as int / 16);
            lemma_digit_injective(a[i] as int % 16, b[i] as int % 16);
        }
        assert(a =~= b);
    }
}

proof fn lemma_digit_injective(m: int, n: int)
    requires
        0 <= m < 16,
        0 <= n < 16,
        digit(m) == digit(n),
    ensures
        m == n,
{
}

/// Every byte is written as the digit of its upper half and the digit of its lower half, in
/// lowercase.
pub proof fn lemma_hex_digits(bytes: Seq<u8>, i: int)
    requires
        0 <= i < bytes.len(),
    ensures
        hex_text(bytes).len() == 2 * bytes.len(),
        hex_text(bytes)[2 * i] == "0123456789abcdef"@[bytes[i] as int / 16],
        hex_text(bytes)[2 * i + 1] == "0123456789abcdef"@[bytes[i] as int % 16],
{
    reveal_strlit("0123456789abcdef");
    lemma_digit_of(bytes[i] as int / 16);
    lemma_digit_of(bytes[i] as int % 16);
}

proof fn lemma_digit_of(n: int)
    requires
        0 <= n < 16,
    ensures
        digit(n) == "0123456789abcdef"@[n],
{
    reveal_strlit("0123456789abcdef");
}

/// The digits that are read: those of the decimal numbers and the first six letters, in either
/// case, each with its value.
pub proof fn lemma_digits_read(b: u8)
    ensures
        nibble(b) matches Some(n) ==> n < 16 && (b as char == "0123456789abcdef"@[n as int]
            || b as char == "0123456789ABCDEF"@[n as int]),
        nibble(b) is None ==> forall|n: int|
            0 <= n < 16 ==> #[trigger] "0123456789abcdef"@[n] != b as char,
        nibble(b) is None ==> forall|n: int|
            0 <= n < 16 ==> #[trigger] "0123456789ABCDEF"@[n] != b as char,
{
    reveal_strlit("0123456789abcdef");
    reveal_strlit("0123456789ABCDEF");
}

/// A text is sixteen bytes in hexadecimal exactly where it has thirty-two digits; each pair of
/// them is one byte, the upper half first.
pub proof fn lemma_hex_value_of_digits(bytes: Seq<u8>, i: int)
    requires
        is_hex_16(bytes),
        0 <= i < 16,
    ensures
        bytes.len() == 32,
        hex_value(bytes).len() == 16,
        nibble(bytes[2 * i]) is Some,
        nibble(bytes[2 * i + 1]) is Some,
        hex_value(bytes)[i] == 16 * nibble(bytes[2 * i])->0 + nibble(bytes[2 * i + 1])->0,
{
    lemma_digits_read(bytes[2 * i]);
    lemma_digits_read(bytes[2 * i + 1]);
}

} // verus!
