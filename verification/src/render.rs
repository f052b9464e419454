//! Plain-text rendering of values for diagnostics and URL building: decimal
//! numbers (as text and as bytes) and lowercase hexadecimal of byte strings.
use vstd::prelude::*;

verus! {

/// The decimal digit characters of one digit value.
pub open spec fn spec_digit(d: u64) -> Seq<char> {
    if d == 0 {
        "0"@
    } else if d == 1 {
        "1"@
    } else if d == 2 {
        "2"@
    } else if d == 3 {
        "3"@
    } else if d == 4 {
        "4"@
    } else if d == 5 {
        "5"@
    } else if d == 6 {
        "6"@
    } else if d == 7 {
        "7"@
    } else if d == 8 {
        "8"@
    } else {
        "9"@
    }
}

/// The decimal rendering of a number, most significant digit first.
pub open spec fn spec_dec(n: u64) -> Seq<char>
    decreases n,
{
    if n < 10 {
        spec_digit(n)
    } else {
        spec_dec(n / 10) + spec_digit(n % 10)
    }
}

/// The single-character string of one decimal digit.
fn digit_str(d: u64) -> (r: &'static str)
    requires
        d < 10,
    ensures
        r@ == spec_digit(d),
{
    if d == 0 {
        "0"
    } else if d == 1 {
        "1"
    } else if d == 2 {
        "2"
    } else if d == 3 {
        "3"
    } else if d == 4 {
        "4"
    } else if d == 5 {
        "5"
    } else if d == 6 {
        "6"
    } else if d == 7 {
        "7"
    } else if d == 8 {
        "8"
    } else {
        "9"
    }
}

/// Append the decimal rendering of a number.
pub fn append_dec(out: &mut String, n: u64)
    ensures
        final(out)@ == old(out)@ + spec_dec(n),
    decreases n,
{
    if n >= 10 {
        append_dec(out, n / 10);
        out.append(digit_str(n % 10));
    } else {
        out.append(digit_str(n));
    }
}

/// The hexadecimal digit characters of one nibble.
pub open spec fn spec_hex_digit(d: u8) -> Seq<char> {
    if d == 0 {
        "0"@
    } else if d == 1 {
        "1"@
    } else if d == 2 {
        "2"@
    } else if d == 3 {
        "3"@
    } else if d == 4 {
        "4"@
    } else if d == 5 {
        "5"@
    } else if d == 6 {
        "6"@
    } else if d == 7 {
        "7"@
    } else if d == 8 {
        "8"@
    } else if d == 9 {
        "9"@
    } else if d == 10 {
        "a"@
    } else if d == 11 {
        "b"@
    } else if d == 12 {
        "c"@
    } else if d == 13 {
        "d"@
    } else if d == 14 {
        "e"@
    } else {
        "f"@
    }
}

/// The single-character string of one hexadecimal digit.
fn hex_digit_str(d: u8) -> (r: &'static str)
    requires
        d < 16,
    ensures
        r@ == spec_hex_digit(d),
{
    if d == 0 {
        "0"
    } else if d == 1 {
        "1"
    } else if d == 2 {
        "2"
    } else if d == 3 {
        "3"
    } else if d == 4 {
        "4"
    } else if d == 5 {
        "5"
    } else if d == 6 {
        "6"
    } else if d == 7 {
        "7"
    } else if d == 8 {
        "8"
    } else if d == 9 {
        "9"
    } else if d == 10 {
        "a"
    } else if d == 11 {
        "b"
    } else if d == 12 {
        "c"
    } else if d == 13 {
        "d"
    } else if d == 14 {
        "e"
    } else {
        "f"
    }
}

/// The lowercase hexadecimal rendering of a byte string, two digits a byte.
pub open spec fn spec_hex(b: Seq<u8>) -> Seq<char>
    decreases b.len(),
{
    if b.len() == 0 {
        Seq::empty()
    } else {
        spec_hex_digit(b[0] >> 4u8) + spec_hex_digit(b[0] & 0xfu8) + spec_hex(b.drop_first())
    }
}

/// Extending the bytes extends the rendering.
proof fn lemma_hex_push(b: Seq<u8>, x: u8)
    ensures
        spec_hex(b.push(x)) == spec_hex(b) + spec_hex_digit(x >> 4u8) + spec_hex_digit(x & 0xfu8),
    decreases b.len(),
{
    if b.len() == 0 {
        assert(b.push(x)[0] == x);
        assert(b.push(x).drop_first() =~= Seq::<u8>::empty());
        assert(spec_hex(Seq::<u8>::empty()) == Seq::<char>::empty());
        assert(spec_hex(b.push(x)) =~= spec_hex(b) + spec_hex_digit(x >> 4u8) + spec_hex_digit(
            x & 0xfu8,
        ));
    } else {
        lemma_hex_push(b.drop_first(), x);
        assert(b.push(x)[0] == b[0]);
        assert(b.push(x).drop_first() =~= b.drop_first().push(x));
        assert(spec_hex(b.push(x)) =~= spec_hex(b) + spec_hex_digit(x >> 4u8) + spec_hex_digit(
            x & 0xfu8,
        ));
    }
}

/// Append the lowercase hexadecimal rendering of a byte string.
pub fn append_hex(out: &mut String, b: &Vec<u8>)
    ensures
        final(out)@ == old(out)@ + spec_hex(b@),
{
    let mut i: usize = 0;
    assert(b@.take(0) =~= Seq::<u8>::empty());
    while i < b.len()
        invariant
            i <= b@.len(),
            out@ == old(out)@ + spec_hex(b@.take(i as int)),
        decreases b@.len() - i,
    {
        let x = b[i];
        assert(x >> 4u8 < 16 && x & 0xfu8 < 16) by (bit_vector);
        out.append(hex_digit_str(x >> 4));
        out.append(hex_digit_str(x & 0xf));
        proof {
            lemma_hex_push(b@.take(i as int), x);
            assert(b@.take(i as int).push(x) =~= b@.take(i + 1));
        }
        i = i + 1;
    }
    assert(b@.take(b@.len() as int) =~= b@);
}

/// The decimal rendering of a number as ASCII bytes.
pub open spec fn spec_dec_bytes(n: u64) -> Seq<u8>
    decreases n,
{
    if n < 10 {
        seq![(48 + n) as u8]
    } else {
        spec_dec_bytes(n / 10) + seq![(48 + n % 10) as u8]
    }
}

/// Append the decimal rendering of a number as ASCII bytes.
pub fn append_dec_bytes(out: &mut Vec<u8>, n: u64)
    ensures
        final(out)@ == old(out)@ + spec_dec_bytes(n),
    decreases n,
{
    if n >= 10 {
        append_dec_bytes(out, n / 10);
        out.push((48 + (n % 10) as u8) as u8);
        assert(out@ =~= old(out)@ + spec_dec_bytes(n));
    } else {
        out.push((48 + n as u8) as u8);
        assert(out@ =~= old(out)@ + spec_dec_bytes(n));
    }
}

} // verus!

verus! {

/// The ASCII byte of one lowercase hexadecimal digit.
pub open spec fn spec_hex_digit_byte(d: u8) -> u8 {
    if d < 10 {
        (48 + d) as u8
    } else {
        (87 + d) as u8
    }
}

/// Render one byte as two lowercase hexadecimal ASCII bytes.
pub open spec fn spec_hex_byte(x: u8) -> Seq<u8> {
    seq![spec_hex_digit_byte(x >> 4u8), spec_hex_digit_byte(x & 0xfu8)]
}

/// Append one byte's two lowercase hexadecimal ASCII bytes.
pub fn append_hex_byte(out: &mut Vec<u8>, x: u8)
    ensures
        final(out)@ == old(out)@ + spec_hex_byte(x),
{
    assert(x >> 4u8 < 16 && x & 0xfu8 < 16) by (bit_vector);
    let hi = x >> 4;
    let lo = x & 0xf;
    out.push(if hi < 10 {
        48 + hi
    } else {
        87 + hi
    });
    out.push(if lo < 10 {
        48 + lo
    } else {
        87 + lo
    });
    assert(out@ =~= old(out)@ + spec_hex_byte(x));
}

} // verus!
