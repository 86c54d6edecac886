use vstd::prelude::*;

use crate::path::push_str_chars;

verus! {

/// The result of char::is_uppercase: whether the character has the Unicode
/// uppercase property. Named only: the Unicode tables are not restated here.
pub uninterp spec fn char_is_upper(c: char) -> bool;

/// The first character that char::to_lowercase yields: the Unicode
/// lowercase mapping. Named only: the Unicode tables are not restated here.
pub uninterp spec fn char_lower(c: char) -> char;

/// Relies on char::is_uppercase: whether `c` has the Unicode uppercase
/// property. The result depends on the character alone.
#[verifier::external_body]
fn is_uppercase_char(c: char) -> (r: bool)
    ensures
        r == char_is_upper(c),
{
    c.is_uppercase()
}

/// Relies on char::to_lowercase: the first character of the lowercase
/// mapping of `c`. The documentation promises that the iterator yields the
/// mapping "as one or more chars", so `next()` always succeeds. The result
/// depends on the character alone.
#[verifier::external_body]
fn lowercase_char(c: char) -> (r: char)
    ensures
        r == char_lower(c),
{
    c.to_lowercase().next().unwrap()
}

/// The lowercase form used for the first character of a variant tag. ASCII
/// letters are folded directly; any other character goes through the
/// Unicode tables exactly when it has the uppercase property, and is kept
/// unchanged otherwise. For ASCII characters the two agree, since none
/// below `A` or between `Z` and the ASCII limit is uppercase.
pub open spec fn spec_lower_first(c: char) -> char {
    if 'A' <= c && c <= 'Z' {
        (((c as u32) + 32) as u8) as char
    } else if (c as u32) < 128 {
        c
    } else if char_is_upper(c) {
        char_lower(c)
    } else {
        c
    }
}

/// A variant tag with its first character lowercased and the rest kept:
/// the attribute name used when a newtype variant encodes as
/// `{ tag = value; }`.
pub open spec fn spec_lower_tag(t: Seq<char>) -> Seq<char> {
    if t.len() == 0 {
        t
    } else {
        seq![spec_lower_first(t[0])] + t.drop_first()
    }
}

/// Appends the tag with its first character lowercased.
pub fn push_lowered_tag(out: &mut Vec<char>, t: &str)
    ensures
        final(out)@ == old(out)@ + spec_lower_tag(t@),
{
    let n = t.unicode_len();
    if n == 0 {
        proof {
            assert(out@ =~= old(out)@ + spec_lower_tag(t@));
        }
    } else {
        let c = t.get_char(0);
        let lowered: char = if 'A' <= c && c <= 'Z' {
            (((c as u32) + 32) as u8) as char
        } else if c <= '\u{7f}' {
            c
        } else if is_uppercase_char(c) {
            lowercase_char(c)
        } else {
            c
        };
        proof {
            assert(lowered == spec_lower_first(t@[0]));
        }
        out.push(lowered);
        let rest = t.substring_char(1, n);
        push_str_chars(out, rest);
        proof {
            assert(out@ =~= old(out)@ + spec_lower_tag(t@));
        }
    }
}

} // verus!
