use vstd::prelude::*;

verus! {

/// The decimal digits of `n` as ASCII bytes, most significant first, with no
/// leading zeros (`0` is written as the single digit `"0"`).
pub open spec fn decimal_digits(n: nat) -> Seq<u8>
    decreases n,
{
    if n < 10 {
        seq![(48 + n) as u8]
    } else {
        decimal_digits(n / 10).push((48 + n % 10) as u8)
    }
}

/// The sixteen lowercase hexadecimal digit characters.
pub open spec fn hex_alphabet() -> Seq<char> {
    seq!['0', '1', '2', '3', '4', '5', '6', '7', '8', '9', 'a', 'b', 'c', 'd', 'e', 'f']
}

/// Lowercase hexadecimal text of a byte string: two characters per byte,
/// high nibble first.
pub open spec fn hex_lower(bytes: Seq<u8>) -> Seq<char> {
    Seq::new(
        2 * bytes.len(),
        |i: int|
            if i % 2 == 0 {
                hex_alphabet()[(bytes[i / 2] / 16) as int]
            } else {
                hex_alphabet()[(bytes[i / 2] % 16) as int]
            },
    )
}

/// `text` starts with at least `count` literal `'0'` characters.
pub open spec fn leading_zeros(text: Seq<char>, count: nat) -> bool {
    &&& count <= text.len()
    &&& forall|i: int| 0 <= i < count ==> text[i] == '0'
}

/// Hex text is ASCII, so its bytes are its characters.
pub proof fn lemma_hex_lower_is_ascii(bytes: Seq<u8>)
    ensures
        vstd::utf8::is_ascii_chars(hex_lower(bytes)),
{
    let h = hex_lower(bytes);
    assert forall|i: int| 0 <= i < h.len() implies '\0' <= #[trigger] h[i] <= '\u{7f}' by {
        let b = bytes[i / 2];
        assert(b / 16 < 16 && b % 16 < 16);
    }
}

/// Decimal text of `n` as ASCII bytes.
pub fn decimal_bytes(n: u64) -> (r: Vec<u8>)
    ensures
        r@ == decimal_digits(n as nat),
    decreases n,
{
    if n < 10 {
        let mut v: Vec<u8> = Vec::new();
        v.push((48 + n) as u8);
        v
    } else {
        let mut v = decimal_bytes(n / 10);
        v.push((48 + n % 10) as u8);
        v
    }
}

/// Whether the ASCII text `text` starts with at least `count` `'0'` characters.
pub fn has_leading_zeros(text: &str, count: usize) -> (r: bool)
    requires
        vstd::string::is_ascii(text),
    ensures
        r == leading_zeros(text@, count as nat),
{
    broadcast use vstd::string::is_ascii_spec_bytes;

    let bytes = text.as_bytes();
    assert(bytes@ =~= Seq::new(text@.len(), |i| text@.index(i) as u8));
    if count > bytes.len() {
        return false;
    }
    let mut i: usize = 0;
    while i < count
        invariant
            count <= bytes@.len(),
            bytes@.len() == text@.len(),
            bytes@ == Seq::new(text@.len(), |j| text@.index(j) as u8),
            vstd::utf8::is_ascii_chars(text@),
            i <= count,
            forall|j: int| 0 <= j < i ==> text@[j] == '0',
        decreases count - i,
    {
        if bytes[i] != 48u8 {
            assert(text@[i as int] as u8 != 48u8);
            return false;
        }
        assert(text@[i as int] as u8 == 48u8);
        assert(text@[i as int] == '0');
        i = i + 1;
    }
    true
}

/// Relies on hex::encode: lowercase hex text of the bytes, two characters per
/// byte, high nibble first, from the table `0123456789abcdef`.
#[verifier::external_body]
pub(crate) fn hex_encode(bytes: &[u8]) -> (r: String)
    ensures
        r@ == hex_lower(bytes@),
{
    hex::encode(bytes)
}

} // verus!
