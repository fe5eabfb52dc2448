use vstd::prelude::*;

use crate::text::{chars_of, push_char};

verus! {

// ---------------------------------------------------------------------
// UTF-16
// ---------------------------------------------------------------------

/// `x` is a Unicode scalar value: below 0x110000 and not a surrogate.
pub open spec fn is_scalar(x: int) -> bool {
    (0 <= x < 0xD800) || (0xE000 <= x < 0x110000)
}

/// A leading (high) surrogate.
pub open spec fn is_high_surrogate(u: u16) -> bool {
    0xD800 <= u <= 0xDBFF
}

/// A trailing (low) surrogate.
pub open spec fn is_low_surrogate(u: u16) -> bool {
    0xDC00 <= u <= 0xDFFF
}

/// The UTF-16 code units of one character.
pub open spec fn char_units(c: char) -> Seq<u16> {
    let v = c as int;
    if v < 0x10000 {
        seq![v as u16]
    } else {
        seq![(0xD800 + (v - 0x10000) / 1024) as u16, (0xDC00 + (v - 0x10000) % 1024) as u16]
    }
}

/// The UTF-16 encoding of a text.
pub open spec fn utf16_encode(s: Seq<char>) -> Seq<u16>
    decreases s.len(),
{
    if s.len() == 0 {
        Seq::empty()
    } else {
        char_units(s[0]) + utf16_encode(s.skip(1))
    }
}

/// UTF-16 decoding in which each unpaired surrogate becomes U+FFFD, as
/// `String::from_utf16_lossy` decodes.
pub open spec fn utf16_decode_lossy(u: Seq<u16>) -> Seq<char>
    decreases u.len(),
{
    if u.len() == 0 {
        Seq::empty()
    } else if is_high_surrogate(u[0]) && u.len() > 1 && is_low_surrogate(u[1]) {
        seq![(0x10000 + (u[0] - 0xD800) * 1024 + (u[1] - 0xDC00)) as char] + utf16_decode_lossy(
            u.skip(2),
        )
    } else if 0xD800 <= u[0] <= 0xDFFF {
        seq!['\u{FFFD}'] + utf16_decode_lossy(u.skip(1))
    } else {
        seq![u[0] as char] + utf16_decode_lossy(u.skip(1))
    }
}

/// Trusted: `char::from_u32`, documented to give the `char` with value `x`
/// when `x` is a scalar value and `None` otherwise.
#[verifier::external_body]
fn char_from_u32(x: u32) -> (r: Option<char>)
    ensures
        is_scalar(x as int) ==> r == Some(x as char),
        !is_scalar(x as int) ==> r is None,
{
    char::from_u32(x)
}

proof fn lemma_encode_push(a: Seq<char>, c: char)
    ensures
        utf16_encode(a.push(c)) == utf16_encode(a) + char_units(c),
    decreases a.len(),
{
    if a.len() == 0 {
        assert(a.push(c).skip(1) =~= Seq::<char>::empty());
        assert(utf16_encode(Seq::<char>::empty()) =~= Seq::<u16>::empty());
        assert(a.push(c)[0] == c);
        assert(utf16_encode(a.push(c)) =~= char_units(c) + Seq::<u16>::empty());
    } else {
        assert(a.push(c).skip(1) =~= a.skip(1).push(c));
        lemma_encode_push(a.skip(1), c);
        assert(a.push(c)[0] == a[0]);
    }
}

fn push_units(v: &mut Vec<u16>, c: char)
    ensures
        final(v)@ == old(v)@ + char_units(c),
{
    let x: u32 = c as u32;
    assert(x as int == c as int);
    if x < 0x10000 {
        v.push(x as u16);
    } else {
        let w: u32 = x - 0x10000;
        assert(w / 1024 < 1024);
        v.push((0xD800 + w / 1024) as u16);
        v.push((0xDC00 + w % 1024) as u16);
    }
    assert(v@ =~= old(v)@ + char_units(c));
}

/// The UTF-16 code units of a text.
pub fn utf16_units(s: &str) -> (v: Vec<u16>)
    ensures
        v@ == utf16_encode(s@),
{
    let cs = chars_of(s);
    let mut v: Vec<u16> = Vec::new();
    let mut k: usize = 0;
    while k < cs.len()
        invariant
            k <= cs.len(),
            cs@ == s@,
            v@ == utf16_encode(cs@.take(k as int)),
        decreases cs.len() - k,
    {
        let c = cs[k];
        push_units(&mut v, c);
        proof {
            lemma_encode_push(cs@.take(k as int), c);
            assert(cs@.take(k + 1) == cs@.take(k as int).push(c));
        }
        k += 1;
    }
    assert(cs@.take(cs.len() as int) == cs@);
    v
}

/// Decodes UTF-16, each unpaired surrogate becoming U+FFFD.
pub fn utf16_to_string_lossy(units: &Vec<u16>) -> (s: String)
    ensures
        s@ == utf16_decode_lossy(units@),
{
    let mut out = String::new();
    let mut i: usize = 0;
    assert(units@.skip(0) == units@);
    while i < units.len()
        invariant
            i <= units.len(),
            utf16_decode_lossy(units@) == out@ + utf16_decode_lossy(units@.skip(i as int)),
        decreases units.len() - i,
    {
        let ghost rest = units@.skip(i as int);
        let ghost before = out@;
        let u = units[i];
        if 0xD800 <= u && u <= 0xDBFF && i + 1 < units.len() && 0xDC00 <= units[i + 1]
            && units[i + 1] <= 0xDFFF {
            let x: u32 = 0x10000 + ((u - 0xD800) as u32) * 1024 + ((units[i + 1] - 0xDC00) as u32);
            match char_from_u32(x) {
                Some(c) => push_char(&mut out, c),
                None => {},
            }
            assert(rest.skip(2) == units@.skip(i + 2));
            assert(rest[0] == u && rest[1] == units@[i + 1]);
            i += 2;
        } else if 0xD800 <= u && u <= 0xDFFF {
            push_char(&mut out, '\u{FFFD}');
            assert(rest.skip(1) == units@.skip(i + 1));
            assert(rest[0] == u);
            i += 1;
        } else {
            match char_from_u32(u as u32) {
                Some(c) => push_char(&mut out, c),
                None => {},
            }
            assert(rest.skip(1) == units@.skip(i + 1));
            assert(rest[0] == u);
            i += 1;
        }
        assert(out@ + utf16_decode_lossy(units@.skip(i as int)) == before + utf16_decode_lossy(
            rest,
        ));
    }
    out
}

proof fn lemma_decode_one_unit(c: char, r: Seq<u16>)
    requires
        (c as int) < 0x10000,
    ensures
        utf16_decode_lossy(char_units(c) + r) == seq![c] + utf16_decode_lossy(r),
{
    let v = c as int;
    let u = v as u16;
    let e = char_units(c) + r;
    assert(u as int == v);
    assert(e[0] == u);
    assert(!(0xD800 <= v <= 0xDFFF));
    assert(e.skip(1) =~= r);
    assert((u as char) == c);
}

proof fn lemma_decode_two_units(c: char, r: Seq<u16>)
    requires
        (c as int) >= 0x10000,
    ensures
        utf16_decode_lossy(char_units(c) + r) == seq![c] + utf16_decode_lossy(r),
{
    let v = c as int;
    let w = v - 0x10000;
    assert(w <= 0xFFFFF);
    let q = w / 1024;
    let m = w % 1024;
    assert(0 <= q < 1024);
    assert(0 <= m < 1024);
    assert(q * 1024 + m == w);
    let hi = (0xD800 + q) as u16;
    let lo = (0xDC00 + m) as u16;
    assert(hi as int == 0xD800 + q);
    assert(lo as int == 0xDC00 + m);
    let e = char_units(c) + r;
    assert(e[0] == hi);
    assert(e[1] == lo);
    assert(e.skip(2) =~= r);
    assert(0x10000 + (hi - 0xD800) * 1024 + (lo - 0xDC00) == v);
    assert(((v as int) as char) == c);
}

/// Decoding the UTF-16 encoding of a text gives the text back.
pub proof fn lemma_utf16_decode_encode(s: Seq<char>)
    ensures
        utf16_decode_lossy(utf16_encode(s)) == s,
    decreases s.len(),
{
    if s.len() > 0 {
        let c = s[0];
        lemma_utf16_decode_encode(s.skip(1));
        if (c as int) < 0x10000 {
            lemma_decode_one_unit(c, utf16_encode(s.skip(1)));
        } else {
            lemma_decode_two_units(c, utf16_encode(s.skip(1)));
        }
        assert(s =~= seq![c] + s.skip(1));
    }
}


// ---------------------------------------------------------------------
// Little-endian bytes
// ---------------------------------------------------------------------

/// The code units written low byte first.
pub open spec fn le_bytes(units: Seq<u16>) -> Seq<u8> {
    Seq::new(
        2 * units.len(),
        |i: int|
            if i % 2 == 0 {
                (units[i / 2] % 256) as u8
            } else {
                (units[i / 2] / 256) as u8
            },
    )
}

/// The code units read from bytes low byte first; an odd last byte is
/// left out.
pub open spec fn le_units(bytes: Seq<u8>) -> Seq<u16> {
    Seq::new(bytes.len() / 2, |i: int| (bytes[2 * i] + 256 * bytes[2 * i + 1]) as u16)
}

/// The byte-order mark of UTF-16LE.
pub open spec fn utf16le_bom() -> Seq<u8> {
    seq![0xFFu8, 0xFEu8]
}

/// A text as a UTF-16LE file: the byte-order mark, then the code units low
/// byte first.
pub open spec fn utf16le_document(s: Seq<char>) -> Seq<u8> {
    utf16le_bom() + le_bytes(utf16_encode(s))
}

/// The bytes of a UTF-16LE file holding `xml`, byte-order mark first.
pub fn utf16le_with_bom(xml: &str) -> (bytes: Vec<u8>)
    ensures
        bytes@ == utf16le_document(xml@),
{
    let units = utf16_units(xml);
    let mut bytes: Vec<u8> = Vec::new();
    bytes.push(0xFF);
    bytes.push(0xFE);
    let mut k: usize = 0;
    while k < units.len()
        invariant
            k <= units.len(),
            bytes@ == utf16le_bom() + le_bytes(units@.take(k as int)),
        decreases units.len() - k,
    {
        let u = units[k];
        let ghost before = bytes@;
        bytes.push((u % 256) as u8);
        bytes.push((u / 256) as u8);
        assert(le_bytes(units@.take(k + 1)) =~= le_bytes(units@.take(k as int)).push(
            (u % 256) as u8,
        ).push((u / 256) as u8));
        k += 1;
    }
    assert(units@.take(units.len() as int) == units@);
    bytes
}

/// The code units in bytes read low byte first, from index `from` on; an
/// odd last byte is left out.
pub fn le_units_from(bytes: &Vec<u8>, from: usize) -> (units: Vec<u16>)
    requires
        from <= bytes.len(),
    ensures
        units@ == le_units(bytes@.skip(from as int)),
{
    let ghost b = bytes@.skip(from as int);
    let n = (bytes.len() - from) / 2;
    let mut units: Vec<u16> = Vec::new();
    let mut k: usize = 0;
    while k < n
        invariant
            k <= n,
            n == b.len() / 2,
            b == bytes@.skip(from as int),
            from <= bytes.len(),
            units@ == le_units(b).take(k as int),
        decreases n - k,
    {
        let lo = bytes[from + 2 * k];
        let hi = bytes[from + 2 * k + 1];
        units.push((lo as u16) + (hi as u16) * 256);
        assert(units@ =~= le_units(b).take(k + 1));
        k += 1;
    }
    assert(le_units(b).take(n as int) =~= le_units(b));
    units
}

/// Reading low-byte-first bytes back gives the code units written.
pub proof fn lemma_le_units_bytes(units: Seq<u16>)
    ensures
        le_units(le_bytes(units)) == units,
{
    let b = le_bytes(units);
    assert forall|i: int| 0 <= i < units.len() implies #[trigger] le_units(b)[i] == units[i] by {
        assert((2 * i) % 2 == 0);
        assert((2 * i + 1) % 2 == 1);
        assert((2 * i) / 2 == i);
        assert((2 * i + 1) / 2 == i);
        assert(b[2 * i] == (units[i] % 256) as u8);
        assert(b[2 * i + 1] == (units[i] / 256) as u8);
    }
    assert(le_units(b) =~= units);
}

} // verus!
