//! Byte-level encodings that the chain and checkpoint formats are built from:
//! decimal rendering of integers, lowercase hex (through the `hex` crate) and
//! helpers that move between `str` and its UTF-8 bytes.
use vstd::prelude::*;
use vstd::utf8::*;

verus! {

broadcast use vstd::utf8::group_utf8_lib;

//--------------------------//
//--- decimal rendering ---//
//--------------------------//

/// The ASCII decimal digits of `n`, most significant first, with no leading
/// zeros (zero itself is the single digit `0`): what `{}` prints for an integer.
pub open spec fn dec_digits(n: nat) -> Seq<u8>
    decreases n,
{
    if n < 10 {
        seq![(48 + n) as u8]
    } else {
        dec_digits(n / 10).push((48 + n % 10) as u8)
    }
}

/// What `{}` prints for an `i64`: a `-` before the digits of the magnitude
/// when the value is negative.
pub open spec fn dec_signed(t: i64) -> Seq<u8> {
    if t < 0 {
        seq![45u8] + dec_digits((-t) as nat)
    } else {
        dec_digits(t as nat)
    }
}

/// An ASCII decimal digit byte.
pub open spec fn is_digit_byte(b: u8) -> bool {
    48 <= b <= 57
}

pub proof fn lemma_dec_digits_are_digits(n: nat)
    ensures
        dec_digits(n).len() >= 1,
        forall|i: int| 0 <= i < dec_digits(n).len() ==> is_digit_byte(#[trigger] dec_digits(n)[i]),
    decreases n,
{
    if n >= 10 {
        lemma_dec_digits_are_digits(n / 10);
    }
}

/// Two numbers with the same decimal digits are equal.
pub proof fn lemma_dec_digits_injective(a: nat, b: nat)
    requires
        dec_digits(a) == dec_digits(b),
    ensures
        a == b,
    decreases a,
{
    lemma_dec_digits_are_digits(a / 10);
    lemma_dec_digits_are_digits(b / 10);
    if a < 10 && b < 10 {
        let x: u8 = dec_digits(a)[0];
        let y: u8 = dec_digits(b)[0];
        assert(x == (48 + a) as u8);
        assert(y == (48 + b) as u8);
        assert(x as int == 48 + a);
        assert(y as int == 48 + b);
        assert(x == y);
    } else if a < 10 {
        assert(dec_digits(b).len() >= 2);
        assert(dec_digits(a).len() == 1);
        assert(false);
    } else if b < 10 {
        assert(dec_digits(a).len() >= 2);
        assert(dec_digits(b).len() == 1);
        assert(false);
    } else {
        let da = dec_digits(a);
        let db = dec_digits(b);
        assert(da.drop_last() =~= dec_digits(a / 10));
        assert(db.drop_last() =~= dec_digits(b / 10));
        assert(da.last() == db.last());
        lemma_dec_digits_injective(a / 10, b / 10);
        assert(a % 10 == b % 10);
        assert(a == (a / 10) * 10 + a % 10) by (nonlinear_arith);
        assert(b == (b / 10) * 10 + b % 10) by (nonlinear_arith);
        assert(a == b);
    }
}

/// Two `i64` values with the same decimal rendering are equal.
pub proof fn lemma_dec_signed_injective(s: i64, t: i64)
    requires
        dec_signed(s) == dec_signed(t),
    ensures
        s == t,
{
    lemma_dec_digits_are_digits((-s) as nat);
    lemma_dec_digits_are_digits((-t) as nat);
    lemma_dec_digits_are_digits(s as nat);
    lemma_dec_digits_are_digits(t as nat);
    if s < 0 && t < 0 {
        assert(dec_signed(s).drop_first() =~= dec_digits((-s) as nat));
        assert(dec_signed(t).drop_first() =~= dec_digits((-t) as nat));
        lemma_dec_digits_injective((-s) as nat, (-t) as nat);
    } else if s < 0 {
        assert(dec_signed(s)[0] == 45u8);
        assert(dec_signed(t)[0] == dec_digits(t as nat)[0]);
    } else if t < 0 {
        assert(dec_signed(t)[0] == 45u8);
        assert(dec_signed(s)[0] == dec_digits(s as nat)[0]);
    } else {
        lemma_dec_digits_injective(s as nat, t as nat);
    }
}

/// Decimal digits never contain the separator byte `|`.
pub proof fn lemma_digits_no_separator(n: nat)
    ensures
        forall|i: int| 0 <= i < dec_digits(n).len() ==> #[trigger] dec_digits(n)[i] != 124u8,
{
    lemma_dec_digits_are_digits(n);
}

/// Splitting at the first `|`: parts before it that hold no `|` are equal,
/// and so are the rests.
pub proof fn lemma_split_at_first_separator(x1: Seq<u8>, r1: Seq<u8>, x2: Seq<u8>, r2: Seq<u8>)
    requires
        x1 + seq![124u8] + r1 == x2 + seq![124u8] + r2,
        forall|i: int| 0 <= i < x1.len() ==> #[trigger] x1[i] != 124u8,
        forall|i: int| 0 <= i < x2.len() ==> #[trigger] x2[i] != 124u8,
    ensures
        x1 == x2,
        r1 == r2,
{
    let m = x1 + seq![124u8] + r1;
    let m2 = x2 + seq![124u8] + r2;
    if x1.len() < x2.len() {
        assert(m[x1.len() as int] == 124u8);
        assert(m2[x1.len() as int] == x2[x1.len() as int]);
    } else if x2.len() < x1.len() {
        assert(m2[x2.len() as int] == 124u8);
        assert(m[x2.len() as int] == x1[x2.len() as int]);
    }
    assert(x1 =~= m.take(x1.len() as int));
    assert(x2 =~= m2.take(x2.len() as int));
    assert(r1 =~= m.skip(x1.len() as int + 1));
    assert(r2 =~= m2.skip(x2.len() as int + 1));
}

/// Splitting at the last `|`: parts after it that hold no `|` are equal,
/// and so are the parts before.
pub proof fn lemma_split_at_last_separator(l1: Seq<u8>, y1: Seq<u8>, l2: Seq<u8>, y2: Seq<u8>)
    requires
        l1 + seq![124u8] + y1 == l2 + seq![124u8] + y2,
        forall|i: int| 0 <= i < y1.len() ==> #[trigger] y1[i] != 124u8,
        forall|i: int| 0 <= i < y2.len() ==> #[trigger] y2[i] != 124u8,
    ensures
        l1 == l2,
        y1 == y2,
{
    let m = l1 + seq![124u8] + y1;
    let m2 = l2 + seq![124u8] + y2;
    let n = m.len();
    assert(m2.len() == n);
    if y1.len() < y2.len() {
        let k = n - 1 - y1.len();
        assert(m[k] == 124u8);
        assert(m2[k] == y2[k - l2.len() - 1]);
    } else if y2.len() < y1.len() {
        let k = n - 1 - y2.len();
        assert(m2[k] == 124u8);
        assert(m[k] == y1[k - l1.len() - 1]);
    }
    assert(l1 =~= m.take(l1.len() as int));
    assert(l2 =~= m2.take(l2.len() as int));
    assert(y1 =~= m.skip(l1.len() as int + 1));
    assert(y2 =~= m2.skip(l2.len() as int + 1));
}

/// The decimal rendering of an `i64` never contains the separator byte `|`.
pub proof fn lemma_signed_no_separator(t: i64)
    ensures
        forall|i: int| 0 <= i < dec_signed(t).len() ==> #[trigger] dec_signed(t)[i] != 124u8,
{
    lemma_dec_digits_are_digits((-t) as nat);
    lemma_dec_digits_are_digits(t as nat);
    let e = dec_signed(t);
    assert forall|i: int| 0 <= i < e.len() implies #[trigger] e[i] != 124u8 by {
        if t < 0 && i > 0 {
            assert(e[i] == dec_digits((-t) as nat)[i - 1]);
        }
    }
}

/// Appends the decimal rendering of `n` to `out`.
pub fn push_decimal(out: &mut Vec<u8>, n: u64)
    ensures
        final(out)@ == old(out)@ + dec_digits(n as nat),
    decreases n,
{
    if n >= 10 {
        push_decimal(out, n / 10);
    }
    let d: u8 = (n % 10) as u8;
    out.push(48u8 + d);
    assert(final(out)@ =~= old(out)@ + dec_digits(n as nat));
}

/// Appends the decimal rendering of the signed `t` to `out`.
pub fn push_decimal_signed(out: &mut Vec<u8>, t: i64)
    ensures
        final(out)@ == old(out)@ + dec_signed(t),
{
    if t < 0 {
        out.push(45u8);
        let below: i64 = -(t + 1);
        let magnitude: u64 = below as u64 + 1;
        assert(magnitude as nat == (-t) as nat);
        push_decimal(out, magnitude);
        assert(final(out)@ =~= old(out)@ + dec_signed(t));
    } else {
        push_decimal(out, t as u64);
    }
}

/// The decimal digits of `n` as characters.
pub open spec fn dec_text(n: nat) -> Seq<char> {
    Seq::new(dec_digits(n).len(), |i: int| dec_digits(n)[i] as char)
}

/// The one-character text of the digit `d`.
fn digit_text(d: u64) -> (res: &'static str)
    requires
        d < 10,
    ensures
        res@ == seq![(48 + d) as char],
{
    let text: &'static str = if d == 0 {
        "0"
    } else if d == 1 {
        "1"
    } else if d == 2 {
        "2"
    } else if d == 3 {
        "3"
    } else if d == 4 {
        "4"
    } else if d == 5 {
        "5"
    } else if d == 6 {
        "6"
    } else if d == 7 {
        "7"
    } else if d == 8 {
        "8"
    } else {
        "9"
    };
    proof {
        reveal_strlit("0");
        reveal_strlit("1");
        reveal_strlit("2");
        reveal_strlit("3");
        reveal_strlit("4");
        reveal_strlit("5");
        reveal_strlit("6");
        reveal_strlit("7");
        reveal_strlit("8");
        reveal_strlit("9");
    }
    text
}

/// Appends the decimal rendering of `n` to the text `out`.
pub fn push_decimal_text(out: &mut String, n: u64)
    ensures
        final(out)@ == old(out)@ + dec_text(n as nat),
    decreases n,
{
    if n >= 10 {
        push_decimal_text(out, n / 10);
    }
    out.append(digit_text(n % 10));
    proof {
        let d = dec_digits(n as nat);
        if n >= 10 {
            assert(d == dec_digits((n / 10) as nat).push((48 + n % 10) as u8));
        }
        assert(((48 + n % 10) as u8) as char == (48 + n % 10) as char);
        assert(final(out)@ =~= old(out)@ + dec_text(n as nat));
    }
}

/// Appends every byte of `bytes` to `out`.
pub fn append_bytes(out: &mut Vec<u8>, bytes: &[u8])
    ensures
        final(out)@ == old(out)@ + bytes@,
{
    let n: usize = bytes.len();
    let mut i: usize = 0;
    while i < n
        invariant
            n == bytes@.len(),
            i <= n,
            out@ == old(out)@ + bytes@.subrange(0, i as int),
        decreases n - i,
    {
        out.push(bytes[i]);
        i = i + 1;
        assert(out@ =~= old(out)@ + bytes@.subrange(0, i as int));
    }
    assert(bytes@.subrange(0, n as int) =~= bytes@);
}

//----------------------//
//--- lowercase hex ---//
//----------------------//

/// The lowercase hex digit for a nibble `v < 16`.
pub open spec fn hex_digit(v: u8) -> char {
    if v < 10 {
        (v + 48) as char
    } else {
        (v + 87) as char
    }
}

/// Lowercase hex text of `bytes`: two digits per byte, high nibble first.
pub open spec fn hex_chars(bytes: Seq<u8>) -> Seq<char> {
    Seq::new(
        2 * bytes.len(),
        |i: int|
            if i % 2 == 0 {
                hex_digit(bytes[i / 2] / 16)
            } else {
                hex_digit(bytes[i / 2] % 16)
            },
    )
}

/// The value of one hex digit byte, either case; `None` for any other byte.
pub open spec fn hex_value(c: u8) -> Option<u8> {
    if 48 <= c <= 57 {
        Some((c - 48) as u8)
    } else if 97 <= c <= 102 {
        Some((c - 87) as u8)
    } else if 65 <= c <= 70 {
        Some((c - 55) as u8)
    } else {
        None
    }
}

/// Text that decodes as hex: an even number of hex digit bytes.
pub open spec fn is_hex_text(text: Seq<u8>) -> bool {
    &&& text.len() % 2 == 0
    &&& forall|i: int| 0 <= i < text.len() ==> #[trigger] hex_value(text[i]) is Some
}

/// The bytes that hex text stands for, two digits per byte.
pub open spec fn hex_bytes(text: Seq<u8>) -> Seq<u8> {
    Seq::new(
        text.len() / 2,
        |i: int| (hex_value(text[2 * i])->0 * 16 + hex_value(text[2 * i + 1])->0) as u8,
    )
}

/// Decoding hex text: `None` unless the text is hex.
pub open spec fn hex_decode_spec(text: Seq<u8>) -> Option<Seq<u8>> {
    if is_hex_text(text) {
        Some(hex_bytes(text))
    } else {
        None
    }
}

/// `hex::encode`: the lowercase hex text of `bytes`, two digits per byte,
/// high nibble first (table `0123456789abcdef`).
#[verifier::external_body]
pub(crate) fn hex_encode(bytes: &[u8]) -> (res: String)
    ensures
        res@ == hex_chars(bytes@),
{
    hex::encode(bytes)
}

/// `hex::decode`: succeeds exactly on an even number of hex digits of either
/// case, and then gives the byte of each pair; an `Err` is reported as `None`.
#[verifier::external_body]
pub(crate) fn hex_decode(text: &[u8]) -> (res: Option<Vec<u8>>)
    ensures
        res is Some <==> is_hex_text(text@),
        res matches Some(b) ==> b@ == hex_bytes(text@),
{
    hex::decode(text).ok()
}

/// Hex text is ASCII, so its UTF-8 bytes are its characters one for one.
pub proof fn lemma_hex_chars_ascii(bytes: Seq<u8>)
    ensures
        is_ascii_chars(hex_chars(bytes)),
        encode_utf8(hex_chars(bytes)).len() == 2 * bytes.len(),
        forall|i: int|
            0 <= i < 2 * bytes.len() ==> #[trigger] encode_utf8(hex_chars(bytes))[i]
                == hex_chars(bytes)[i] as u8,
{
    let h = hex_chars(bytes);
    assert forall|i: int| 0 <= i < h.len() implies '\0' <= #[trigger] h[i] <= '\u{7f}' by {
        let b = bytes[i / 2];
        assert(b / 16 < 16 && b % 16 < 16);
    }
    is_ascii_chars_encode_utf8(h);
}

/// Decoding the lowercase hex of `bytes` (as UTF-8 text) gives `bytes` back.
pub proof fn lemma_hex_roundtrip(bytes: Seq<u8>)
    ensures
        hex_decode_spec(encode_utf8(hex_chars(bytes))) == Some(bytes),
{
    lemma_hex_chars_ascii(bytes);
    let h = hex_chars(bytes);
    let t = encode_utf8(h);
    assert forall|i: int| 0 <= i < t.len() implies #[trigger] hex_value(t[i]) == Some(
        if i % 2 == 0 { bytes[i / 2] / 16 } else { bytes[i / 2] % 16 },
    ) by {
        let b = bytes[i / 2];
        let v: u8 = if i % 2 == 0 { b / 16 } else { b % 16 };
        assert(v < 16);
        assert(h[i] == hex_digit(v));
        if v < 10 {
            assert(((v + 48) as char) as u8 == v + 48);
        } else {
            assert(((v + 87) as char) as u8 == v + 87);
        }
    }
    assert(is_hex_text(t));
    assert forall|j: int| 0 <= j < bytes.len() implies #[trigger] hex_bytes(t)[j] == bytes[j] by {
        assert(hex_value(t[2 * j]) == Some(bytes[j] / 16));
        assert(hex_value(t[2 * j + 1]) == Some(bytes[j] % 16));
        let b = bytes[j];
        assert((b / 16) * 16 + b % 16 == b) by (nonlinear_arith);
    }
    assert(hex_bytes(t) =~= bytes);
}

/// Different bytes have different hex text.
pub proof fn lemma_hex_chars_injective(a: Seq<u8>, b: Seq<u8>)
    requires
        hex_chars(a) == hex_chars(b),
    ensures
        a == b,
{
    lemma_hex_roundtrip(a);
    lemma_hex_roundtrip(b);
}

} // verus!
