//! Decoding of the fixed-width identification strings a controller
//! reports: byte arrays padded with NULs, read as ASCII.

use vstd::prelude::*;

verus! {

/// A seven-bit byte as its character; anything else becomes the
/// replacement character.
pub open spec fn ascii_char_of(b: u8) -> char {
    if b < 128 {
        b as char
    } else {
        '\u{fffd}'
    }
}

/// The byte array decoded character by character.
pub open spec fn decoded_chars(bytes: Seq<u8>) -> Seq<char> {
    bytes.map_values(|b: u8| ascii_char_of(b))
}

/// ASCII whitespace, as the identification strings pad with it.
pub open spec fn is_ascii_space(c: char) -> bool {
    c == ' ' || c == '\t' || c == '\n' || c == '\r' || c == '\u{b}' || c == '\u{c}'
}

/// The sequence without trailing NUL characters.
pub open spec fn strip_trailing_nul(s: Seq<char>) -> Seq<char>
    decreases s.len(),
{
    if s.len() > 0 && s.last() == '\0' {
        strip_trailing_nul(s.drop_last())
    } else {
        s
    }
}

/// The sequence without leading and trailing ASCII whitespace.
pub open spec fn trim_spaces(s: Seq<char>) -> Seq<char>
    decreases s.len(),
{
    if s.len() > 0 && is_ascii_space(s.last()) {
        trim_spaces(s.drop_last())
    } else if s.len() > 0 && is_ascii_space(s.first()) {
        trim_spaces(s.drop_first())
    } else {
        s
    }
}

/// Relies on `String::push`: appends exactly the one character.
#[verifier::external_body]
fn push_char(s: &mut String, c: char)
    ensures
        final(s)@ == old(s)@.push(c),
{
    s.push(c);
}

/// A fixed-width identification field as a printable string: each byte as
/// its ASCII character (a replacement character where a byte is not
/// ASCII), with the trailing NUL padding and surrounding whitespace
/// removed.  Bytes are decoded one at a time: a multi-byte encoding is not
/// interpreted, each of its bytes stands alone — identical behaviour on
/// the ASCII identification fields this serves.
pub fn ascii_to_string(bytes: &[u8]) -> (r: String)
    ensures
        r@ == trim_spaces(strip_trailing_nul(decoded_chars(bytes@))),
{
    let n = bytes.len();
    let mut end = n;
    proof {
        assert(bytes@.take(n as int) =~= bytes@);
    }
    while end > 0 && bytes[end - 1] == 0
        invariant
            end <= n,
            n == bytes@.len(),
            strip_trailing_nul(decoded_chars(bytes@)) == strip_trailing_nul(
                decoded_chars(bytes@.take(end as int)),
            ),
        decreases end,
    {
        proof {
            let cur = decoded_chars(bytes@.take(end as int));
            assert(cur.len() == end);
            assert(cur.last() == ascii_char_of(bytes@[end - 1]));
            assert(cur.last() == '\0');
            assert(cur.drop_last() =~= decoded_chars(bytes@.take(end - 1)));
        }
        end = end - 1;
    }
    proof {
        let cur = decoded_chars(bytes@.take(end as int));
        assert(cur.len() == end);
        if end > 0 {
            assert(cur.last() == ascii_char_of(bytes@[end - 1]));
            assert(cur.last() != '\0');
        }
        assert(strip_trailing_nul(cur) == cur);
    }

    let mut hi = end;
    while hi > 0 && is_space_byte(bytes[hi - 1])
        invariant
            hi <= end,
            end <= n,
            n == bytes@.len(),
            trim_spaces(decoded_chars(bytes@.take(end as int))) == trim_spaces(
                decoded_chars(bytes@.take(hi as int)),
            ),
        decreases hi,
    {
        proof {
            let cur = decoded_chars(bytes@.take(hi as int));
            assert(cur.len() == hi);
            assert(cur.last() == ascii_char_of(bytes@[hi - 1]));
            assert(is_ascii_space(cur.last()));
            assert(cur.drop_last() =~= decoded_chars(bytes@.take(hi - 1)));
        }
        hi = hi - 1;
    }

    let mut lo: usize = 0;
    while lo < hi && is_space_byte(bytes[lo])
        invariant
            lo <= hi,
            hi <= n,
            n == bytes@.len(),
            trim_spaces(decoded_chars(bytes@.take(end as int))) == trim_spaces(
                decoded_chars(bytes@.subrange(lo as int, hi as int)),
            ),
            hi > 0 ==> !is_ascii_space(ascii_char_of(bytes@[hi as int - 1])),
        decreases hi - lo,
    {
        proof {
            let cur = decoded_chars(bytes@.subrange(lo as int, hi as int));
            assert(cur.len() == hi - lo);
            assert(cur.first() == ascii_char_of(bytes@[lo as int]));
            assert(is_ascii_space(cur.first()));
            assert(cur.last() == ascii_char_of(bytes@[hi as int - 1]));
            assert(!is_ascii_space(cur.last()));
            assert(cur.drop_first() =~= decoded_chars(bytes@.subrange(lo + 1, hi as int)));
        }
        lo = lo + 1;
    }
    proof {
        let cur = decoded_chars(bytes@.subrange(lo as int, hi as int));
        assert(cur.len() == hi - lo);
        if hi - lo > 0 {
            assert(cur.last() == ascii_char_of(bytes@[hi as int - 1]));
            assert(cur.first() == ascii_char_of(bytes@[lo as int]));
        }
        assert(trim_spaces(cur) == cur);
    }

    let mut r = String::new();
    let mut i = lo;
    while i < hi
        invariant
            lo <= i <= hi,
            hi <= n,
            n == bytes@.len(),
            r@ == decoded_chars(bytes@.subrange(lo as int, i as int)),
        decreases hi - i,
    {
        let b = bytes[i];
        let c = if b < 128 {
            b as char
        } else {
            '\u{fffd}'
        };
        proof {
            assert(c == ascii_char_of(bytes@[i as int]));
        }
        push_char(&mut r, c);
        proof {
            assert(decoded_chars(bytes@.subrange(lo as int, i as int)).push(c)
                =~= decoded_chars(bytes@.subrange(lo as int, i + 1)));
        }
        i = i + 1;
    }
    r
}

/// ASCII whitespace test on the raw byte.
fn is_space_byte(b: u8) -> (r: bool)
    ensures
        r <==> is_ascii_space(ascii_char_of(b)),
{
    b == 0x20 || b == 0x09 || b == 0x0a || b == 0x0d || b == 0x0b || b == 0x0c
}

/// The three version fields packed into a controller's 32-bit version
/// word: major, minor and tertiary.
pub fn version_parts(version: u32) -> (r: (u32, u32, u32))
    ensures
        r.0 == (version >> 16) & 0xffff,
        r.1 == (version >> 8) & 0xff,
        r.2 == version & 0xff,
{
    ((version >> 16) & 0xffff, (version >> 8) & 0xff, version & 0xff)
}

} // verus!
