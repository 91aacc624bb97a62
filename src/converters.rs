use vstd::prelude::*;
use vstd::string::StrSliceExecFns;

verus! {

/// The low byte of a character.
pub open spec fn low_byte(c: char) -> u8 {
    ((c as u32) % 256) as u8
}

/// Each character of `s` cut down to its low byte.
pub fn str_to_u8_vec(s: &str) -> (r: Vec<u8>)
    ensures
        r@ == s@.map_values(|c: char| low_byte(c)),
{
    let n = s.unicode_len();
    let mut out: Vec<u8> = Vec::new();
    let mut i: usize = 0;
    while i < n
        invariant
            i <= n,
            n == s@.len(),
            out@ == s@.subrange(0, i as int).map_values(|c: char| low_byte(c)),
        decreases n - i,
    {
        let c = s.get_char(i);
        let code = c as u32;
        out.push((code % 256) as u8);
        proof {
            assert(s@.subrange(0, i + 1 as int) == s@.subrange(0, i as int).push(c));
            assert(s@.subrange(0, i + 1 as int).map_values(|c: char| low_byte(c)) =~= s@.subrange(
                0,
                i as int,
            ).map_values(|c: char| low_byte(c)).push(low_byte(c)));
        }
        i = i + 1;
    }
    assert(s@.subrange(0, n as int) == s@);
    out
}

/// Relies on std's `char::from(u8)`: the character whose code point is the byte.
#[verifier::external_body]
fn byte_to_char(b: u8) -> (c: char)
    ensures
        c as u32 == b as u32,
{
    char::from(b)
}

/// Relies on std's `String::push`: appends one character at the end.
#[verifier::external_body]
fn push_char(s: &mut String, c: char)
    ensures
        final(s)@ == old(s)@.push(c),
{
    s.push(c)
}

/// Each byte of `v` read as the character with that code point.
pub fn u8_vec_to_str(v: &[u8]) -> (r: String)
    ensures
        r@.len() == v@.len(),
        forall|i: int| 0 <= i < v@.len() ==> #[trigger] r@[i] as u32 == v@[i] as u32,
{
    let mut out = String::new();
    let mut i: usize = 0;
    while i < v.len()
        invariant
            i <= v@.len(),
            out@.len() == i,
            forall|t: int| 0 <= t < i ==> #[trigger] out@[t] as u32 == v@[t] as u32,
        decreases v@.len() - i,
    {
        let c = byte_to_char(v[i]);
        push_char(&mut out, c);
        i = i + 1;
    }
    out
}

} // verus!
