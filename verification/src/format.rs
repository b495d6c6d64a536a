//! Text layout for the listings: left-aligned columns, decimal numbers, rules,
//! and masked secret values.

use crate::text::{chars_of, push_char};
use vstd::prelude::*;
use vstd::string::StringSliceAdditionalSpecFns;
use vstd::utf8::{decode_utf8, encode_utf8_decode_utf8, is_char_boundary};

verus! {

/// `n` copies of `c`.
pub open spec fn repeat(c: char, n: nat) -> Seq<char> {
    Seq::new(n, |i: int| c)
}

/// `s` padded with spaces on the right to `w` characters, as `{:<w}` lays it out.
pub open spec fn pad(s: Seq<char>, w: nat) -> Seq<char> {
    if s.len() >= w {
        s
    } else {
        s + repeat(' ', (w - s.len()) as nat)
    }
}

/// The decimal digits of `n`.
pub open spec fn decimal(n: nat) -> Seq<char>
    decreases n,
{
    if n < 10 {
        seq![digit(n)]
    } else {
        decimal(n / 10) + seq![digit(n % 10)]
    }
}

/// The digit character for `d` below ten.
pub open spec fn digit(d: nat) -> char {
    if d == 0 { '0' }
    else if d == 1 { '1' }
    else if d == 2 { '2' }
    else if d == 3 { '3' }
    else if d == 4 { '4' }
    else if d == 5 { '5' }
    else if d == 6 { '6' }
    else if d == 7 { '7' }
    else if d == 8 { '8' }
    else { '9' }
}

/// Appends the characters of `src`.
pub fn push_str(out: &mut String, src: &str)
    ensures
        final(out)@ == old(out)@ + src@,
{
    let c = chars_of(src);
    let mut i: usize = 0;
    while i < c.len()
        invariant
            i <= c@.len(),
            c@ == src@,
            out@ == old(out)@ + c@.take(i as int),
        decreases c@.len() - i,
    {
        push_char(out, c[i]);
        i = i + 1;
        assert(out@ =~= old(out)@ + c@.take(i as int));
    }
    assert(c@.take(c@.len() as int) =~= c@);
}

/// Appends `n` copies of `c`.
pub fn push_repeat(out: &mut String, c: char, n: usize)
    ensures
        final(out)@ == old(out)@ + repeat(c, n as nat),
{
    let mut i: usize = 0;
    while i < n
        invariant
            i <= n,
            out@ == old(out)@ + repeat(c, i as nat),
        decreases n - i,
    {
        push_char(out, c);
        i = i + 1;
        assert(out@ =~= old(out)@ + repeat(c, i as nat));
    }
}

/// Appends `s` padded with spaces to `w` characters.
pub fn push_padded(out: &mut String, s: &str, w: usize)
    ensures
        final(out)@ == old(out)@ + pad(s@, w as nat),
{
    let n = chars_of(s).len();
    push_str(out, s);
    if n < w {
        push_repeat(out, ' ', w - n);
    }
    assert(final(out)@ =~= old(out)@ + pad(s@, w as nat)) by {
        if n >= w {
            assert(old(out)@ + s@ =~= old(out)@ + pad(s@, w as nat));
        }
    }
}

/// The decimal digits of a number.
pub fn decimal_string(n: usize) -> (s: String)
    ensures
        s@ == decimal(n as nat),
    decreases n,
{
    let d = n % 10;
    let c = if d == 0 { '0' } else if d == 1 { '1' } else if d == 2 { '2' } else if d == 3 { '3' }
        else if d == 4 { '4' } else if d == 5 { '5' } else if d == 6 { '6' } else if d == 7 { '7' }
        else if d == 8 { '8' } else { '9' };
    if n < 10 {
        let mut s = String::new();
        push_char(&mut s, c);
        assert(s@ =~= decimal(n as nat));
        s
    } else {
        let mut s = decimal_string(n / 10);
        push_char(&mut s, c);
        s
    }
}

/// The mask shown in place of a secret.
pub open spec fn bullets() -> Seq<char> {
    repeat('\u{2022}', 4)
}

/// What `mask` shows: four bullets for a value of at most four bytes, otherwise
/// the text of its first two bytes and four bullets.
pub open spec fn masked(v: Seq<char>) -> Seq<char> {
    let b = vstd::utf8::encode_utf8(v);
    if b.len() <= 4 {
        bullets()
    } else {
        decode_utf8(b.subrange(0, 2)) + bullets()
    }
}

/// Whether `mask` can show the value: at most four bytes, or the first two bytes
/// end on a character boundary (otherwise slicing there would panic).
pub open spec fn maskable(v: Seq<char>) -> bool {
    vstd::utf8::encode_utf8(v).len() <= 4 || is_char_boundary(vstd::utf8::encode_utf8(v), 2)
}

/// Whether `mask` can show the value.
pub fn is_maskable(value: &str) -> (b: bool)
    ensures
        b == maskable(value@),
{
    proof {
        assert(value.spec_bytes() == vstd::utf8::encode_utf8(value@));
    }
    value.as_bytes().len() <= 4 || value.is_char_boundary(2)
}

/// Hides a secret value, keeping at most its first two bytes.
pub fn mask(value: &str) -> (r: String)
    requires
        maskable(value@),
    ensures
        r@ == masked(value@),
{
    let mut r = String::new();
    proof {
        assert(value.spec_bytes() == vstd::utf8::encode_utf8(value@));
    }
    let nbytes = value.as_bytes().len();
    if nbytes <= 4 {
        push_repeat(&mut r, '\u{2022}', 4);
        assert(r@ =~= bullets());
        return r;
    }
    let (head, _) = value.split_at(2);
    proof {
        encode_utf8_decode_utf8(head@);
        assert(head.spec_bytes() == vstd::utf8::encode_utf8(head@));
        assert(value.spec_bytes() == vstd::utf8::encode_utf8(value@));
        assert(head@ == decode_utf8(vstd::utf8::encode_utf8(value@).subrange(0, 2)));
    }
    push_str(&mut r, head);
    push_repeat(&mut r, '\u{2022}', 4);
    assert(r@ =~= head@ + bullets());
    r
}

} // verus!
