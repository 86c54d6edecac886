use vstd::prelude::*;

use crate::ser::Serializer;

verus! {

/// True for the characters a bare Nix path literal may carry:
/// `[A-Za-z0-9._+/-]`.
pub open spec fn is_path_char(c: char) -> bool {
    ('a' <= c && c <= 'z') || ('A' <= c && c <= 'Z') || ('0' <= c && c <= '9') || c == '.' || c
        == '_' || c == '-' || c == '+' || c == '/'
}

/// True when the path text holds a character that a bare path literal
/// cannot carry, so the path must fall back to a quoted-string
/// concatenation.
pub open spec fn spec_needs_quoting(s: Seq<char>) -> bool {
    exists|i: int| 0 <= i < s.len() && !is_path_char(s[i])
}

/// Checks whether a path string contains characters that require quoting:
/// anything outside `[A-Za-z0-9._+/-]`.
pub fn needs_quoting(s: &str) -> (r: bool)
    ensures
        r == spec_needs_quoting(s@),
{
    let n = s.unicode_len();
    let mut found = false;
    let mut i: usize = 0;
    while i < n
        invariant
            n == s@.len(),
            i <= n,
            found <==> (exists|j: int| 0 <= j < i && !is_path_char(s@[j])),
        decreases n - i,
    {
        let c = s.get_char(i);
        if !(('a' <= c && c <= 'z') || ('A' <= c && c <= 'Z') || ('0' <= c && c <= '9') || c
            == '.' || c == '_' || c == '-' || c == '+' || c == '/') {
            found = true;
        }
        i += 1;
    }
    found
}

/// What the double-quoted path escape emits for the character at position
/// `i` of `s`: `"` and `\` and newline and tab gain a backslash escape, and
/// a `$` directly before `{` becomes `\$`.
pub open spec fn esc_path_at(s: Seq<char>, i: int) -> Seq<char> {
    let c = s[i];
    if c == '"' {
        seq!['\\', '"']
    } else if c == '\\' {
        seq!['\\', '\\']
    } else if c == '$' && i + 1 < s.len() && s[i + 1] == '{' {
        seq!['\\', '$']
    } else if c == '\n' {
        seq!['\\', 'n']
    } else if c == '\t' {
        seq!['\\', 't']
    } else {
        seq![c]
    }
}

/// The double-quoted path escape of the first `i` characters of `s`.
pub open spec fn esc_path_prefix(s: Seq<char>, i: int) -> Seq<char>
    decreases i,
{
    if i <= 0 {
        Seq::<char>::empty()
    } else {
        esc_path_prefix(s, i - 1) + esc_path_at(s, i - 1)
    }
}

/// The double-quoted path escape of the whole of `s`.
pub open spec fn esc_path(s: Seq<char>) -> Seq<char> {
    esc_path_prefix(s, s.len() as int)
}

/// Escapes `s` for use inside a Nix double-quoted string, appending to an
/// existing buffer.
pub fn escape_nix_string_into(s: &str, out: &mut Vec<char>)
    ensures
        final(out)@ == old(out)@ + esc_path(s@),
{
    let n = s.unicode_len();
    let mut i: usize = 0;
    while i < n
        invariant
            n == s@.len(),
            i <= n,
            out@ == old(out)@ + esc_path_prefix(s@, i as int),
        decreases n - i,
    {
        let c = s.get_char(i);
        if c == '"' {
            out.push('\\');
            out.push('"');
        } else if c == '\\' {
            out.push('\\');
            out.push('\\');
        } else if c == '$' {
            if i + 1 < n && s.get_char(i + 1) == '{' {
                out.push('\\');
                out.push('$');
            } else {
                out.push('$');
            }
        } else if c == '\n' {
            out.push('\\');
            out.push('n');
        } else if c == '\t' {
            out.push('\\');
            out.push('t');
        } else {
            out.push(c);
        }
        proof {
            assert(out@ =~= old(out)@ + esc_path_prefix(s@, i + 1 as int));
        }
        i += 1;
    }
}

/// Appends the characters of `s` to `out`, unchanged.
pub fn push_str_chars(out: &mut Vec<char>, s: &str)
    ensures
        final(out)@ == old(out)@ + s@,
{
    let n = s.unicode_len();
    let mut i: usize = 0;
    while i < n
        invariant
            n == s@.len(),
            i <= n,
            out@ == old(out)@ + s@.take(i as int),
        decreases n - i,
    {
        out.push(s.get_char(i));
        proof {
            assert(out@ =~= old(out)@ + s@.take(i + 1 as int));
        }
        i += 1;
    }
    proof {
        assert(s@.take(n as int) =~= s@);
    }
}

/// True when the path text starts with the root marker `/`.
pub open spec fn is_absolute(p: Seq<char>) -> bool {
    p.len() > 0 && p[0] == '/'
}

/// True when the path text's first component is the current directory:
/// it starts with `./`, or is `.` alone.
pub open spec fn starts_cur_dir(p: Seq<char>) -> bool {
    (p.len() >= 2 && p[0] == '.' && p[1] == '/') || (p.len() == 1 && p[0] == '.')
}

/// True when the path text's first component is the parent directory:
/// it starts with `../`, or is `..` alone.
pub open spec fn starts_parent_dir(p: Seq<char>) -> bool {
    (p.len() >= 3 && p[0] == '.' && p[1] == '.' && p[2] == '/') || (p.len() == 2 && p[0] == '.'
        && p[1] == '.')
}

/// The characters of `s` from position `k` on; empty when `k` is out of
/// range.
pub open spec fn drop_n(s: Seq<char>, k: int) -> Seq<char> {
    if 0 <= k <= s.len() {
        s.subrange(k, s.len() as int)
    } else {
        Seq::<char>::empty()
    }
}

/// The Nix expression for a filesystem path given as text.
///
/// A path whose characters a bare path literal can carry is emitted
/// verbatim, except that a bare relative path (no `./` or `../` prefix)
/// gains a `./` prefix, since otherwise Nix would read it as a search-path
/// lookup. A path that needs quoting degrades to a concatenation of a short
/// path literal and a double-quoted escaped string: `/. + "..."` when
/// absolute, `./. + "..."` or `../. + "..."` when relative, with a leading
/// `./` or `../` component stripped from the quoted part.
pub open spec fn enc_path(p: Seq<char>) -> Seq<char> {
    let q = spec_needs_quoting(p);
    if is_absolute(p) {
        if q {
            seq!['/', '.', ' ', '+', ' ', '"'] + esc_path(p) + seq!['"']
        } else {
            p
        }
    } else if starts_cur_dir(p) {
        if q {
            seq!['.', '/', '.', ' ', '+', ' ', '"'] + esc_path(drop_n(p, 2)) + seq!['"']
        } else {
            p
        }
    } else if starts_parent_dir(p) {
        if q {
            seq!['.', '.', '/', '.', ' ', '+', ' ', '"'] + esc_path(drop_n(p, 3)) + seq!['"']
        } else {
            p
        }
    } else {
        if q {
            seq!['.', '/', '.', ' ', '+', ' ', '"'] + esc_path(p) + seq!['"']
        } else {
            seq!['.', '/'] + p
        }
    }
}

impl Serializer {
    /// Emits the Nix path expression for the path text `p`, as [`enc_path`]
    /// describes. The indentation depth is untouched: path expressions are
    /// always a single line.
    pub fn write_path(&mut self, p: &str)
        ensures
            final(self).output@ == old(self).output@ + enc_path(p@),
            final(self).indent_depth == old(self).indent_depth,
    {
        let q = needs_quoting(p);
        let n = p.unicode_len();
        if n > 0 && p.get_char(0) == '/' {
            if q {
                self.output.push('/');
                self.output.push('.');
                self.output.push(' ');
                self.output.push('+');
                self.output.push(' ');
                self.output.push('"');
                escape_nix_string_into(p, &mut self.output);
                self.output.push('"');
                proof {
                    assert(self.output@ =~= old(self).output@ + enc_path(p@));
                }
            } else {
                push_str_chars(&mut self.output, p);
            }
        } else if (n >= 2 && p.get_char(0) == '.' && p.get_char(1) == '/') || (n == 1
            && p.get_char(0) == '.') {
            if q {
                self.output.push('.');
                self.output.push('/');
                self.output.push('.');
                self.output.push(' ');
                self.output.push('+');
                self.output.push(' ');
                self.output.push('"');
                let rest = p.substring_char(2, n);
                escape_nix_string_into(rest, &mut self.output);
                self.output.push('"');
                proof {
                    assert(rest@ == drop_n(p@, 2));
                    assert(self.output@ =~= old(self).output@ + enc_path(p@));
                }
            } else {
                push_str_chars(&mut self.output, p);
            }
        } else if (n >= 3 && p.get_char(0) == '.' && p.get_char(1) == '.' && p.get_char(2) == '/')
            || (n == 2 && p.get_char(0) == '.' && p.get_char(1) == '.') {
            if q {
                self.output.push('.');
                self.output.push('.');
                self.output.push('/');
                self.output.push('.');
                self.output.push(' ');
                self.output.push('+');
                self.output.push(' ');
                self.output.push('"');
                let rest = p.substring_char(3, n);
                escape_nix_string_into(rest, &mut self.output);
                self.output.push('"');
                proof {
                    assert(rest@ == drop_n(p@, 3));
                    assert(self.output@ =~= old(self).output@ + enc_path(p@));
                }
            } else {
                push_str_chars(&mut self.output, p);
            }
        } else {
            if q {
                self.output.push('.');
                self.output.push('/');
                self.output.push('.');
                self.output.push(' ');
                self.output.push('+');
                self.output.push(' ');
                self.output.push('"');
                escape_nix_string_into(p, &mut self.output);
                self.output.push('"');
                proof {
                    assert(self.output@ =~= old(self).output@ + enc_path(p@));
                }
            } else {
                self.output.push('.');
                self.output.push('/');
                push_str_chars(&mut self.output, p);
                proof {
                    assert(self.output@ =~= old(self).output@ + enc_path(p@));
                }
            }
        }
    }
}

/// An owned path, kept as its text, that encodes as a Nix path literal.
///
/// Use this wrapper when a path should appear in the output as a path
/// expression (`./foo.nix`, `/etc/nixos/configuration.nix`) rather than as a
/// quoted string. For borrowed path text, use [`NixPath`].
#[derive(Debug, Clone, PartialEq, Eq, PartialOrd, Ord, Hash)]
pub struct NixPathBuf {
    path: String,
}

impl View for NixPathBuf {
    type V = Seq<char>;

    closed spec fn view(&self) -> Seq<char> {
        self.path@
    }
}

impl NixPathBuf {
    /// Creates a new `NixPathBuf` from path text.
    pub fn new(path: &str) -> (r: Self)
        ensures
            r@ == path@,
    {
        NixPathBuf { path: path.to_owned() }
    }

    /// Returns the underlying path text.
    pub fn as_path(&self) -> (r: &str)
        ensures
            r@ == self@,
    {
        self.path.as_str()
    }

    /// Converts into the underlying owned path text.
    pub fn into_path_buf(self) -> (r: String)
        ensures
            r@ == self@,
    {
        self.path
    }
}

/// A borrowed path, kept as its text, that encodes as a Nix path literal.
///
/// For owned path text, use [`NixPathBuf`].
#[derive(Debug, Clone, Copy, PartialEq, Eq, PartialOrd, Ord, Hash)]
pub struct NixPath<'a> {
    path: &'a str,
}

impl<'a> View for NixPath<'a> {
    type V = Seq<char>;

    closed spec fn view(&self) -> Seq<char> {
        self.path@
    }
}

impl<'a> NixPath<'a> {
    /// Creates a new `NixPath` from borrowed path text.
    pub fn new(path: &'a str) -> (r: Self)
        ensures
            r@ == path@,
    {
        NixPath { path }
    }

    /// Returns the underlying path text.
    pub fn as_path(&self) -> (r: &'a str)
        ensures
            r@ == self@,
    {
        self.path
    }
}

} // verus!
