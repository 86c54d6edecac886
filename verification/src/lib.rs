//! An encoder from a generic value tree to Nix source text.
//!
//! Nix is a declarative package manager configured in its own language of
//! attribute sets, lists, strings, numbers and paths. This crate renders an
//! in-memory [`Value`] tree - scalars, strings, byte sequences, lists,
//! tuples, maps, records and tagged variants - as syntactically valid Nix
//! text: `{ key = value; }` attribute sets with two-space indentation,
//! quoted or block string literals with exact escaping, and bare or
//! concatenation-escaped path literals. Text only flows outward; there is
//! no parsing path.
//!
//! The contracts pin the output down completely: [`encode`] returns exactly
//! the text that the specification functions [`ser::enc`] and
//! [`post_process`] describe, and the laws in [`laws`] state the escaping
//! round trip, the block-mode shape, the path-prefix rules, the ordering of
//! map and record entries, and the idempotence of the post-processor.

use vstd::prelude::*;

pub mod error;
pub mod escape;
pub mod laws;
pub mod literal;
pub mod num;
pub mod path;
pub mod ser;
pub mod tag;
pub mod value;

pub use error::Error;
pub use literal::NixLiteral;
pub use path::{escape_nix_string_into, needs_quoting, NixPath, NixPathBuf};
pub use ser::Serializer;
pub use value::Value;

use crate::ser::enc;

verus! {

/// True when the line holds any character besides the indentation space.
pub open spec fn line_has_content(l: Seq<char>) -> bool {
    exists|i: int| 0 <= i < l.len() && l[i] != ' '
}

/// A line kept as it is when it has content, and blanked to nothing when it
/// is indentation only.
pub open spec fn cleaned_line(l: Seq<char>) -> Seq<char> {
    if line_has_content(l) {
        l
    } else {
        Seq::<char>::empty()
    }
}

/// The position of the first newline in `t` at or after `from`, or the
/// length of `t` when there is none.
pub open spec fn newline_from(t: Seq<char>, from: int) -> int
    decreases t.len() - from,
{
    if from < 0 || from >= t.len() {
        t.len() as int
    } else if t[from] == '\n' {
        from
    } else {
        newline_from(t, from + 1)
    }
}

/// The first newline at or after a valid position lies between that
/// position and the end.
pub proof fn lemma_newline_from_bounds(t: Seq<char>, from: int)
    requires
        0 <= from,
    ensures
        newline_from(t, from) <= t.len(),
        from <= t.len() ==> from <= newline_from(t, from),
    decreases t.len() - from,
{
    if from < t.len() && t[from] != '\n' {
        lemma_newline_from_bounds(t, from + 1);
    }
}

/// The post-processed text from position `start` on: every line that is
/// indentation only is blanked, every other line is kept, and the newlines
/// between lines stay where they were.
pub open spec fn post_from(t: Seq<char>, start: int) -> Seq<char>
    decreases t.len() - start,
        via post_from_decreases
{
    let k = newline_from(t, start);
    let line = t.subrange(start, k);
    if k == t.len() {
        cleaned_line(line)
    } else {
        cleaned_line(line) + seq!['\n'] + post_from(t, k + 1)
    }
}

/// The post-processed form of the whole text: whitespace-only scaffold
/// lines, left behind where indentation was emitted before a composite
/// turned out empty, are blanked.
pub open spec fn post_process(t: Seq<char>) -> Seq<char> {
    post_from(t, 0)
}

#[via_fn]
proof fn post_from_decreases(t: Seq<char>, start: int) {
    if 0 <= start {
        lemma_newline_from_bounds(t, start);
    }
}

/// The complete encoding of one root value: the text the traversal emits at
/// depth zero, after post-processing.
pub open spec fn encoded(v: Value) -> Seq<char> {
    post_process(enc(v, 0).0)
}

/// `newline_from` is pinned down by a scan: if nothing in `[start, k)` is a
/// newline and `k` is a newline or the end, then `k` is the first newline
/// position.
pub proof fn lemma_newline_from(t: Seq<char>, start: int, k: int)
    requires
        0 <= start <= k <= t.len(),
        forall|j: int| start <= j < k ==> t[j] != '\n',
        k < t.len() ==> t[k] == '\n',
    ensures
        newline_from(t, start) == k,
    decreases k - start,
{
    if start < k {
        lemma_newline_from(t, start + 1, k);
    }
}

/// Relies on String's FromIterator: collecting characters yields the string
/// of exactly those characters, in order.
#[verifier::external_body]
fn chars_to_string(chars: &Vec<char>) -> (r: String)
    ensures
        r@ == chars@,
{
    chars.iter().collect()
}

/// Removes the extra whitespace that indentation leaves behind: every line
/// consisting only of spaces is replaced by an empty line, and every other
/// line is kept unchanged.
pub fn post_processor(serialized: &String) -> (r: String)
    ensures
        r@ == post_process(serialized@),
{
    let s = serialized.as_str();
    let n = s.unicode_len();
    let mut out: Vec<char> = Vec::new();
    let mut start: usize = 0;
    proof {
        assert(out@ + post_from(s@, 0) =~= post_process(s@));
    }
    loop
        invariant_except_break
            out@ + post_from(s@, start as int) == post_process(s@),
        invariant
            n == s@.len(),
            start <= n,
        ensures
            out@ == post_process(s@),
        decreases n - start,
    {
        let ghost start0 = start as int;
        let mut k: usize = start;
        let mut kept = false;
        while k < n && s.get_char(k) != '\n'
            invariant
                n == s@.len(),
                start <= k <= n,
                forall|j: int| start0 <= j < k ==> s@[j] != '\n',
                start0 == start as int,
                kept <==> (exists|j: int| start0 <= j < k && s@[j] != ' '),
            decreases n - k,
        {
            if s.get_char(k) != ' ' {
                kept = true;
            }
            k += 1;
        }
        let ghost line = s@.subrange(start0, k as int);
        proof {
            lemma_newline_from(s@, start0, k as int);
            assert(line_has_content(line) == kept) by {
                if kept {
                    let j = choose|j: int| start0 <= j < k && s@[j] != ' ';
                    assert(line[j - start0] != ' ');
                }
                if line_has_content(line) {
                    let i = choose|i: int| 0 <= i < line.len() && line[i] != ' ';
                    assert(s@[start0 + i] != ' ');
                }
            }
        }
        let ghost out_before = out@;
        if kept {
            let mut j: usize = start;
            while j < k
                invariant
                    n == s@.len(),
                    start <= j <= k <= n,
                    start0 == start as int,
                    out@ == out_before + s@.subrange(start0, j as int),
                decreases k - j,
            {
                out.push(s.get_char(j));
                proof {
                    assert(out@ =~= out_before + s@.subrange(start0, j + 1 as int));
                }
                j += 1;
            }
            proof {
                assert(out@ =~= out_before + cleaned_line(line));
            }
        } else {
            proof {
                assert(out@ =~= out_before + cleaned_line(line));
            }
        }
        if k == n {
            proof {
                assert(out@ =~= post_process(s@));
            }
            break ;
        }
        out.push('\n');
        proof {
            assert(out@ + post_from(s@, k as int + 1) =~= post_process(s@));
        }
        start = k + 1;
    }
    chars_to_string(&out)
}

/// Encodes one root value as Nix source text.
///
/// The traversal starts at depth zero with an empty buffer; on the way out
/// the post-processor blanks the whitespace-only scaffold lines. The tree
/// shape of [`Value`] already rules out the visitor-contract failures that
/// the error type exists for, so the call always succeeds, and the text is
/// exactly what [`encoded`] describes.
pub fn encode(root: &Value) -> (r: Result<String, Error>)
    ensures
        r matches Ok(text) && text@ == encoded(*root),
{
    let mut ser = Serializer::new();
    ser.encode_value(root);
    proof {
        assert(ser.output@ =~= enc(*root, 0).0);
    }
    let raw = chars_to_string(&ser.output);
    Ok(post_processor(&raw))
}

} // verus!
