use vstd::prelude::*;
use vstd::utf8::encode_scalar;
use vstd::utf8::encode_utf8;

use crate::ser::{ind, Serializer};

verus! {

/// True when `s` holds a newline character.
pub open spec fn contains_newline(s: Seq<char>) -> bool {
    exists|i: int| 0 <= i < s.len() && s[i] == '\n'
}

/// The mode decision for string literals: block (multi-line) mode is chosen
/// exactly when the text holds a newline and its UTF-8 form is at least 80
/// bytes long; everything else is quoted on a single line.
pub open spec fn is_multiline(s: Seq<char>) -> bool {
    contains_newline(s) && encode_utf8(s).len() >= 80
}

/// What the single-line quoted encoder emits for the character at position
/// `i` of `s`: `"` and `\` and newline and tab gain a backslash escape, a
/// `$` directly before `{` gains a `''` prefix, and every other character
/// passes through unchanged.
pub open spec fn esc_quoted_at(s: Seq<char>, i: int) -> Seq<char> {
    let c = s[i];
    if c == '"' {
        seq!['\\', '"']
    } else if c == '\\' {
        seq!['\\', '\\']
    } else if c == '$' && i + 1 < s.len() && s[i + 1] == '{' {
        seq!['\'', '\'', '$']
    } else if c == '\n' {
        seq!['\\', 'n']
    } else if c == '\t' {
        seq!['\\', 't']
    } else {
        seq![c]
    }
}

/// The single-line escape of the first `i` characters of `s`.
pub open spec fn esc_quoted_prefix(s: Seq<char>, i: int) -> Seq<char>
    decreases i,
{
    if i <= 0 {
        Seq::<char>::empty()
    } else {
        esc_quoted_prefix(s, i - 1) + esc_quoted_at(s, i - 1)
    }
}

/// The single-line escape of the whole of `s`.
pub open spec fn esc_quoted(s: Seq<char>) -> Seq<char> {
    esc_quoted_prefix(s, s.len() as int)
}

/// What the block-mode encoder emits for the character at position `i` of
/// `s`, where `tab` is the indentation of a content line: the first quote of
/// a `''` pair is doubled, a `$` directly before `{` gains a `''` prefix, a
/// newline starts a fresh indented line, and everything else (quotes,
/// backslashes, tabs included) passes through unchanged.
pub open spec fn esc_block_at(s: Seq<char>, i: int, tab: Seq<char>) -> Seq<char> {
    let c = s[i];
    if c == '\'' && i + 1 < s.len() && s[i + 1] == '\'' {
        seq!['\'', '\'']
    } else if c == '$' && i + 1 < s.len() && s[i + 1] == '{' {
        seq!['\'', '\'', '$']
    } else if c == '\n' {
        seq!['\n'] + tab
    } else {
        seq![c]
    }
}

/// The block-mode escape of the first `i` characters of `s`.
pub open spec fn esc_block_prefix(s: Seq<char>, i: int, tab: Seq<char>) -> Seq<char>
    decreases i,
{
    if i <= 0 {
        Seq::<char>::empty()
    } else {
        esc_block_prefix(s, i - 1, tab) + esc_block_at(s, i - 1, tab)
    }
}

/// The block-mode escape of the whole of `s`.
pub open spec fn esc_block(s: Seq<char>, tab: Seq<char>) -> Seq<char> {
    esc_block_prefix(s, s.len() as int, tab)
}

/// The full string literal for `s` at indentation depth `d`. Block mode
/// opens with `''`, a newline and one extra level of indentation, and closes
/// with a newline, the old indentation and `''`; single-line mode wraps the
/// escaped text in double quotes. Either way the indentation depth is left
/// as it was.
pub open spec fn enc_str(s: Seq<char>, d: nat) -> Seq<char> {
    if is_multiline(s) {
        seq!['\'', '\'', '\n'] + ind(d + 1) + esc_block(s, ind(d + 1)) + seq!['\n'] + ind(d)
            + seq!['\'', '\'']
    } else {
        seq!['"'] + esc_quoted(s) + seq!['"']
    }
}

impl Serializer {
    /// Emits the string literal for `s`: block mode when `s` holds a newline
    /// and is at least 80 UTF-8 bytes long, the single-line quoted form
    /// otherwise.
    pub fn write_str_literal(&mut self, s: &str)
        requires
            old(self).wf(),
        ensures
            final(self).wf(),
            final(self).output@ == old(self).output@ + enc_str(
                s@,
                old(self).indent_depth as nat,
            ),
            final(self).indent_depth == old(self).indent_depth,
    {
        let n = s.unicode_len();
        let byte_len = s.as_bytes().len();
        let mut has_nl = false;
        let mut k: usize = 0;
        while k < n
            invariant
                n == s@.len(),
                k <= n,
                has_nl <==> (exists|i: int| 0 <= i < k && s@[i] == '\n'),
            decreases n - k,
        {
            if s.get_char(k) == '\n' {
                has_nl = true;
            }
            k += 1;
        }
        let multiline = has_nl && byte_len >= 80;
        proof {
            assert(multiline == is_multiline(s@));
        }
        let ghost d = old(self).indent_depth as nat;
        if multiline {
            self.output.push('\'');
            self.output.push('\'');
            self.output.push('\n');
            proof {
                assert(self.indent_depth < self.output.len());
            }
            self.indent_depth = self.indent_depth + 1;
            self.indent();
            let ghost tab = ind(d + 1);
            let ghost base = old(self).output@ + seq!['\'', '\'', '\n'] + tab;
            proof {
                assert(self.output@ =~= base + esc_block_prefix(s@, 0, tab));
            }
            let mut i: usize = 0;
            while i < n
                invariant
                    n == s@.len(),
                    i <= n,
                    self.indent_depth == old(self).indent_depth + 1,
                    tab == ind(self.indent_depth as nat),
                    self.output@ == base + esc_block_prefix(s@, i as int, tab),
                decreases n - i,
            {
                let c = s.get_char(i);
                if c == '\'' {
                    if i + 1 < n && s.get_char(i + 1) == '\'' {
                        self.output.push('\'');
                        self.output.push('\'');
                    } else {
                        self.output.push('\'');
                    }
                } else if c == '$' {
                    if i + 1 < n && s.get_char(i + 1) == '{' {
                        self.output.push('\'');
                        self.output.push('\'');
                        self.output.push('$');
                    } else {
                        self.output.push('$');
                    }
                } else if c == '\n' {
                    self.output.push('\n');
                    self.indent();
                } else {
                    self.output.push(c);
                }
                proof {
                    assert(self.output@ =~= base + esc_block_prefix(s@, i + 1 as int, tab));
                }
                i += 1;
            }
            self.output.push('\n');
            self.indent_depth = self.indent_depth - 1;
            self.indent();
            self.output.push('\'');
            self.output.push('\'');
            proof {
                assert(self.output@ =~= old(self).output@ + enc_str(s@, d));
            }
        } else {
            self.output.push('"');
            let ghost base = old(self).output@ + seq!['"'];
            let mut i: usize = 0;
            while i < n
                invariant
                    n == s@.len(),
                    i <= n,
                    self.indent_depth == old(self).indent_depth,
                    self.output@ == base + esc_quoted_prefix(s@, i as int),
                decreases n - i,
            {
                let c = s.get_char(i);
                if c == '"' {
                    self.output.push('\\');
                    self.output.push('"');
                } else if c == '\\' {
                    self.output.push('\\');
                    self.output.push('\\');
                } else if c == '$' {
                    if i + 1 < n && s.get_char(i + 1) == '{' {
                        self.output.push('\'');
                        self.output.push('\'');
                        self.output.push('$');
                    } else {
                        self.output.push('$');
                    }
                } else if c == '\n' {
                    self.output.push('\\');
                    self.output.push('n');
                } else if c == '\t' {
                    self.output.push('\\');
                    self.output.push('t');
                } else {
                    self.output.push(c);
                }
                proof {
                    assert(self.output@ =~= base + esc_quoted_prefix(s@, i + 1 as int));
                }
                i += 1;
            }
            self.output.push('"');
            proof {
                assert(self.output@ =~= old(self).output@ + enc_str(s@, d));
            }
        }
    }

    /// Emits the string literal for the one-character string holding `c`.
    /// One character is never 80 bytes, so this is always the single-line
    /// quoted form.
    pub fn write_char_literal(&mut self, c: char)
        requires
            old(self).wf(),
        ensures
            final(self).wf(),
            final(self).output@ == old(self).output@ + enc_str(
                seq![c],
                old(self).indent_depth as nat,
            ),
            final(self).indent_depth == old(self).indent_depth,
    {
        proof {
            assert(encode_utf8(Seq::<char>::empty()) == Seq::<u8>::empty());
            assert(seq![c].drop_first() == Seq::<char>::empty()) by {
                assert(seq![c].drop_first() =~= Seq::<char>::empty());
            }
            assert(encode_utf8(seq![c]) == encode_scalar(c as u32) + encode_utf8(
                seq![c].drop_first(),
            ));
            assert(encode_scalar(c as u32).len() <= 4);
            assert(encode_utf8(seq![c]).len() <= 4);
            assert(!is_multiline(seq![c]));
        }
        self.output.push('"');
        if c == '"' {
            self.output.push('\\');
            self.output.push('"');
        } else if c == '\\' {
            self.output.push('\\');
            self.output.push('\\');
        } else if c == '\n' {
            self.output.push('\\');
            self.output.push('n');
        } else if c == '\t' {
            self.output.push('\\');
            self.output.push('t');
        } else {
            self.output.push(c);
        }
        self.output.push('"');
        proof {
            assert(esc_quoted_prefix(seq![c], 0) == Seq::<char>::empty());
            assert(esc_quoted_prefix(seq![c], 1) =~= esc_quoted_at(seq![c], 0));
            assert(self.output@ =~= old(self).output@ + enc_str(
                seq![c],
                old(self).indent_depth as nat,
            ));
        }
    }
}

} // verus!
