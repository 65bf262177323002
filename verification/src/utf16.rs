//! UTF-16 code units: the measure of character data. Strings hold Unicode
//! scalar values, so decoding units turns a surrogate without its partner
//! into U+FFFD.
use vstd::prelude::*;

verus! {

// ---------------------------------------------------------------------------
// Specifications
// ---------------------------------------------------------------------------

/// A leading (high) surrogate code unit.
pub open spec fn is_high_surrogate(u: u16) -> bool {
    0xD800 <= u <= 0xDBFF
}

/// A trailing (low) surrogate code unit.
pub open spec fn is_low_surrogate(u: u16) -> bool {
    0xDC00 <= u <= 0xDFFF
}

/// The UTF-16 code units of one character: itself below U+10000, else a
/// high and a low surrogate.
pub open spec fn units_of_char(c: char) -> Seq<u16> {
    let u = c as u32;
    if u < 0x10000 {
        seq![u as u16]
    } else {
        seq![(0xD800 + (u - 0x10000) / 0x400) as u16, (0xDC00 + (u - 0x10000) % 0x400) as u16]
    }
}

/// The UTF-16 encoding of a string.
pub open spec fn utf16(s: Seq<char>) -> Seq<u16>
    decreases s.len(),
{
    if s.len() == 0 {
        Seq::empty()
    } else {
        units_of_char(s[0]) + utf16(s.skip(1))
    }
}

/// The scalar value that a surrogate pair stands for.
pub open spec fn pair_value(hi: u16, lo: u16) -> u32 {
    (0x10000 + (hi - 0xD800) * 0x400 + (lo - 0xDC00)) as u32
}

/// Decoding of code units into a string: a surrogate pair gives its
/// character, a surrogate without its partner gives U+FFFD, any other unit
/// gives the character of that value.
pub open spec fn decode16(u: Seq<u16>) -> Seq<char>
    decreases u.len(),
{
    if u.len() == 0 {
        Seq::empty()
    } else if u.len() >= 2 && is_high_surrogate(u[0]) && is_low_surrogate(u[1]) {
        seq![pair_value(u[0], u[1]) as char] + decode16(u.skip(2))
    } else if is_high_surrogate(u[0]) || is_low_surrogate(u[0]) {
        seq!['\u{FFFD}'] + decode16(u.skip(1))
    } else {
        seq![(u[0] as u32) as char] + decode16(u.skip(1))
    }
}

// ---------------------------------------------------------------------------
// Laws
// ---------------------------------------------------------------------------

/// Encoding distributes over concatenation.
pub proof fn lemma_utf16_concat(a: Seq<char>, b: Seq<char>)
    ensures
        utf16(a + b) == utf16(a) + utf16(b),
    decreases a.len(),
{
    if a.len() == 0 {
        assert(a + b =~= b);
        assert(utf16(a) + utf16(b) =~= utf16(b));
    } else {
        assert((a + b)[0] == a[0]);
        assert((a + b).skip(1) =~= a.skip(1) + b);
        lemma_utf16_concat(a.skip(1), b);
        assert(utf16(a + b) =~= utf16(a) + utf16(b));
    }
}

/// The encoding of a one-character string is that character's units.
pub proof fn lemma_utf16_single(c: char)
    ensures
        utf16(seq![c]) == units_of_char(c),
{
    let s = seq![c];
    assert(s[0] == c);
    assert(s.skip(1) =~= Seq::<char>::empty());
    assert(utf16(s.skip(1)) == Seq::<u16>::empty());
    assert(utf16(s) =~= units_of_char(c));
}

/// Encoding a string with one more character appends that character's units.
pub proof fn lemma_utf16_push(s: Seq<char>, c: char)
    ensures
        utf16(s.push(c)) == utf16(s) + units_of_char(c),
{
    lemma_utf16_concat(s, seq![c]);
    assert(s + seq![c] =~= s.push(c));
    lemma_utf16_single(c);
}

/// Decoding reads one character back from its units.
pub proof fn lemma_decode_char(c: char, rest: Seq<u16>)
    ensures
        decode16(units_of_char(c) + rest) == seq![c] + decode16(rest),
{
    let u = c as u32;
    vstd::utf8::char_is_scalar(c);
    let w = units_of_char(c) + rest;
    if u < 0x10000 {
        assert(w[0] == u as u16);
        assert((w[0] as u32) == u);
        vstd::utf8::char_u32_cast(c, u);
        assert(w.skip(1) =~= rest);
    } else {
        let v: int = u - 0x10000;
        assert(0 <= v < 0x100000);
        assert(0 <= v / 0x400 < 0x400);
        assert(v == (v / 0x400) * 0x400 + v % 0x400);
        assert(w[0] == (0xD800 + v / 0x400) as u16);
        assert(w[1] == (0xDC00 + v % 0x400) as u16);
        assert(pair_value(w[0], w[1]) == u);
        vstd::utf8::char_u32_cast(c, u);
        assert(w.skip(2) =~= rest);
    }
}

/// Decoding the encoding of a string gives the string back.
pub proof fn lemma_decode_utf16(s: Seq<char>)
    ensures
        decode16(utf16(s)) == s,
    decreases s.len(),
{
    if s.len() == 0 {
        assert(decode16(utf16(s)) =~= s);
    } else {
        lemma_decode_char(s[0], utf16(s.skip(1)));
        lemma_decode_utf16(s.skip(1));
        assert(seq![s[0]] + s.skip(1) =~= s);
    }
}

/// Decoding keeps the number of code units: a pair gives a character of two
/// units, any other unit a character of one.
pub proof fn lemma_decode16_units(u: Seq<u16>)
    ensures
        utf16(decode16(u)).len() == u.len(),
    decreases u.len(),
{
    if u.len() == 0 {
    } else if u.len() >= 2 && is_high_surrogate(u[0]) && is_low_surrogate(u[1]) {
        let x = pair_value(u[0], u[1]);
        assert(0x10000 <= x <= 0x10FFFF);
        assert(((x as char) as u32) == x);
        lemma_decode16_units(u.skip(2));
        lemma_utf16_concat(seq![x as char], decode16(u.skip(2)));
        lemma_utf16_single(x as char);
    } else {
        let c = if is_high_surrogate(u[0]) || is_low_surrogate(u[0]) {
            '\u{FFFD}'
        } else {
            (u[0] as u32) as char
        };
        assert(decode16(u) == seq![c] + decode16(u.skip(1)));
        assert((c as u32) < 0x10000);
        lemma_decode16_units(u.skip(1));
        lemma_utf16_concat(seq![c], decode16(u.skip(1)));
        lemma_utf16_single(c);
    }
}

/// The encoding of a non-empty string neither starts with a low surrogate
/// nor ends with a high one.
pub proof fn lemma_utf16_ends(s: Seq<char>)
    requires
        s.len() > 0,
    ensures
        !is_low_surrogate(utf16(s)[0]),
        !is_high_surrogate(utf16(s).last()),
{
    let f = s[0];
    let l = s.last();
    vstd::utf8::char_is_scalar(f);
    vstd::utf8::char_is_scalar(l);
    assert(utf16(s)[0] == units_of_char(f)[0]);
    assert(s.drop_last().push(l) =~= s);
    lemma_utf16_push(s.drop_last(), l);
    assert(utf16(s).last() == units_of_char(l).last());
    if (l as u32) >= 0x10000 {
        let v: int = (l as u32) - 0x10000;
        assert(0 <= v % 0x400 < 0x400);
    }
}

/// Decoding splits at any point but between a high and a low surrogate.
pub proof fn lemma_decode16_concat(a: Seq<u16>, b: Seq<u16>)
    requires
        !(a.len() > 0 && b.len() > 0 && is_high_surrogate(a.last()) && is_low_surrogate(b[0])),
    ensures
        decode16(a + b) == decode16(a) + decode16(b),
    decreases a.len(),
{
    let w = a + b;
    if a.len() == 0 {
        assert(w =~= b);
        assert(decode16(a) + decode16(b) =~= decode16(b));
    } else {
        let k: int = if a.len() >= 2 && is_high_surrogate(a[0]) && is_low_surrogate(a[1]) {
            2
        } else {
            1
        };
        assert(w[0] == a[0]);
        if a.len() >= 2 {
            assert(w[1] == a[1]);
        }
        assert(w.skip(k) =~= a.skip(k) + b);
        if a.skip(k).len() > 0 {
            assert(a.skip(k).last() == a.last());
        }
        lemma_decode16_concat(a.skip(k), b);
        assert(decode16(w) =~= decode16(a) + decode16(b));
    }
}

// ---------------------------------------------------------------------------
// Encoding and decoding
// ---------------------------------------------------------------------------

/// `char::from_u32`. Claimed, as std documents it: a character exactly for
/// the Unicode scalar values (at most U+10FFFF and no surrogate), and then the
/// character of that value.
#[verifier::external_body]
fn char_from_u32(x: u32) -> (r: Option<char>)
    ensures
        r is Some <==> (x <= 0x10FFFF && !(0xD800 <= x <= 0xDFFF)),
        r matches Some(c) ==> c as u32 == x,
{
    char::from_u32(x)
}

/// The UTF-16 code units of the characters `s`.
pub fn encode_utf16(s: &Vec<char>) -> (r: Vec<u16>)
    ensures
        r@ == utf16(s@),
{
    let mut out: Vec<u16> = Vec::new();
    let mut i: usize = 0;
    assert(s@.take(0) =~= Seq::<char>::empty());
    while i < s.len()
        invariant
            i <= s.len(),
            out@ == utf16(s@.take(i as int)),
        decreases s.len() - i,
    {
        let c = s[i];
        let u = c as u32;
        proof {
            vstd::utf8::char_is_scalar(c);
            lemma_utf16_push(s@.take(i as int), c);
            assert(s@.take(i as int + 1) =~= s@.take(i as int).push(c));
        }
        if u < 0x10000 {
            out.push(u as u16);
        } else {
            let v = u - 0x10000;
            out.push((0xD800 + v / 0x400) as u16);
            out.push((0xDC00 + v % 0x400) as u16);
        }
        assert(out@ =~= utf16(s@.take(i as int + 1)));
        i = i + 1;
    }
    assert(s@.take(s.len() as int) =~= s@);
    out
}

/// The characters that the code units `u[from..to]` decode to.
pub fn decode_utf16_range(u: &Vec<u16>, from: usize, to: usize) -> (r: Vec<char>)
    requires
        from <= to <= u.len(),
    ensures
        r@ == decode16(u@.subrange(from as int, to as int)),
{
    let mut out: Vec<char> = Vec::new();
    let mut i: usize = from;
    while i < to
        invariant
            from <= i <= to <= u.len(),
            decode16(u@.subrange(from as int, to as int)) == out@ + decode16(u@.subrange(i as int, to as int)),
        decreases to - i,
    {
        let ghost w = u@.subrange(i as int, to as int);
        let a = u[i];
        if i + 1 < to && 0xD800 <= a && a <= 0xDBFF && 0xDC00 <= u[i + 1] && u[i + 1] <= 0xDFFF {
            let b = u[i + 1];
            let x: u32 = 0x10000 + ((a - 0xD800) as u32) * 0x400 + ((b - 0xDC00) as u32);
            assert(x == pair_value(w[0], w[1]));
            let c = char_from_u32(x).unwrap();
            proof {
                vstd::utf8::char_u32_cast(c, x);
                assert(w.skip(2) =~= u@.subrange(i as int + 2, to as int));
            }
            out.push(c);
            i = i + 2;
        } else if 0xD800 <= a && a <= 0xDFFF {
            assert(w.skip(1) =~= u@.subrange(i as int + 1, to as int));
            out.push('\u{FFFD}');
            i = i + 1;
        } else {
            let c = char_from_u32(a as u32).unwrap();
            proof {
                vstd::utf8::char_u32_cast(c, a as u32);
                assert(w.skip(1) =~= u@.subrange(i as int + 1, to as int));
            }
            out.push(c);
            i = i + 1;
        }
    }
    assert(decode16(u@.subrange(to as int, to as int)) == Seq::<char>::empty());
    assert(out@ + Seq::<char>::empty() =~= out@);
    out
}

/// Appends the code units `u[from..to]` to `out`.
pub fn push_units(out: &mut Vec<u16>, u: &Vec<u16>, from: usize, to: usize)
    requires
        from <= to <= u.len(),
    ensures
        final(out)@ == old(out)@ + u@.subrange(from as int, to as int),
{
    let mut i: usize = from;
    while i < to
        invariant
            from <= i <= to <= u.len(),
            out@ == old(out)@ + u@.subrange(from as int, i as int),
        decreases to - i,
    {
        out.push(u[i]);
        i = i + 1;
        assert(out@ =~= old(out)@ + u@.subrange(from as int, i as int));
    }
}

} // verus!
