use vstd::prelude::*;
use vstd::utf8::encode_utf8;

use crate::escape::{
    contains_newline, enc_str, esc_block, esc_block_at, esc_block_prefix, esc_quoted,
    esc_quoted_at, esc_quoted_prefix,
};
use crate::path::{
    enc_path, esc_path, is_absolute, spec_needs_quoting, starts_cur_dir, starts_parent_dir,
};
use crate::ser::{enc, enc_entries, enc_fields, enc_entry, enc_field, ind};
use crate::value::Value;
use crate::{
    cleaned_line, encoded, lemma_newline_from, lemma_newline_from_bounds, line_has_content,
    newline_from, post_from, post_process,
};

verus! {

/// The source character a single-line backslash escape stands for.
pub open spec fn unescaped_pair(c: char) -> char {
    if c == 'n' {
        '\n'
    } else if c == 't' {
        '\t'
    } else {
        c
    }
}

/// The single-line escape table applied backwards: `''$` directly before
/// `{` becomes `$`, a backslash pair becomes the character it stands for,
/// and every other character passes through.
pub open spec fn unescape_quoted(t: Seq<char>) -> Seq<char>
    decreases t.len(),
{
    if t.len() == 0 {
        Seq::<char>::empty()
    } else if t.len() >= 4 && t[0] == '\'' && t[1] == '\'' && t[2] == '$' && t[3] == '{' {
        seq!['$', '{'] + unescape_quoted(t.skip(4))
    } else if t.len() >= 2 && t[0] == '\\' {
        seq![unescaped_pair(t[1])] + unescape_quoted(t.skip(2))
    } else {
        seq![t[0]] + unescape_quoted(t.skip(1))
    }
}

proof fn lemma_esc_quoted_shift(s: Seq<char>, i: int)
    requires
        1 <= i <= s.len(),
    ensures
        esc_quoted_prefix(s, i) == esc_quoted_at(s, 0) + esc_quoted_prefix(s.skip(1), i - 1),
    decreases i,
{
    if i == 1 {
        assert(esc_quoted_prefix(s, 0) == Seq::<char>::empty());
        assert(esc_quoted_prefix(s.skip(1), 0) == Seq::<char>::empty());
        assert(esc_quoted_prefix(s, 1) =~= esc_quoted_at(s, 0) + esc_quoted_prefix(
            s.skip(1),
            0,
        ));
    } else {
        lemma_esc_quoted_shift(s, i - 1);
        assert(s.skip(1)[i - 2] == s[i - 1]);
        if i < s.len() {
            assert(s.skip(1)[i - 1] == s[i]);
        }
        assert(esc_quoted_at(s, i - 1) == esc_quoted_at(s.skip(1), i - 2));
        assert(esc_quoted_prefix(s, i) =~= esc_quoted_at(s, 0) + esc_quoted_prefix(
            s.skip(1),
            i - 1,
        ));
    }
}

proof fn lemma_esc_quoted_front(s: Seq<char>)
    requires
        s.len() > 0,
    ensures
        esc_quoted(s) == esc_quoted_at(s, 0) + esc_quoted(s.skip(1)),
{
    lemma_esc_quoted_shift(s, s.len() as int);
    assert(s.skip(1).len() == s.len() - 1);
}

proof fn lemma_esc_quoted_first(u: Seq<char>)
    requires
        u.len() > 0,
    ensures
        esc_quoted(u).len() > 0,
        esc_quoted(u)[0] == '\\' || esc_quoted(u)[0] == '\'' || esc_quoted(u)[0] == u[0],
{
    lemma_esc_quoted_front(u);
}

/// The escape of any string never begins with `${`: a `$` kept verbatim is
/// never followed by a verbatim `{`.
proof fn lemma_esc_no_interp_start(s: Seq<char>)
    ensures
        !(esc_quoted(s).len() >= 2 && esc_quoted(s)[0] == '$' && esc_quoted(s)[1] == '{'),
{
    if s.len() > 0 {
        lemma_esc_quoted_front(s);
        if s[0] == '$' && !(1 < s.len() && s[1] == '{') {
            if s.len() > 1 {
                lemma_esc_quoted_first(s.skip(1));
                assert(s.skip(1)[0] == s[1]);
            }
        }
    }
}

/// The escape of any string never begins with `'${`.
proof fn lemma_esc_no_quote_interp(s: Seq<char>)
    ensures
        !(esc_quoted(s).len() >= 3 && esc_quoted(s)[0] == '\'' && esc_quoted(s)[1] == '$'
            && esc_quoted(s)[2] == '{'),
{
    if s.len() > 0 {
        lemma_esc_quoted_front(s);
        if s[0] == '\'' {
            lemma_esc_no_interp_start(s.skip(1));
        }
    }
}

proof fn lemma_round_trip_all(s: Seq<char>)
    ensures
        unescape_quoted(esc_quoted(s)) == s,
    decreases s.len(),
{
    if s.len() == 0 {
        assert(esc_quoted(s) == Seq::<char>::empty());
        assert(unescape_quoted(esc_quoted(s)) =~= s);
    } else {
        lemma_esc_quoted_front(s);
        let t = esc_quoted(s);
        let c = s[0];
        if c == '"' || c == '\\' || c == '\n' || c == '\t' {
            lemma_round_trip_all(s.skip(1));
            assert(t.skip(2) =~= esc_quoted(s.skip(1)));
            assert(unescape_quoted(t) =~= s);
        } else if c == '$' && 1 < s.len() && s[1] == '{' {
            lemma_esc_quoted_front(s.skip(1));
            assert(s.skip(1)[0] == '{');
            assert(s.skip(1).skip(1) =~= s.skip(2));
            lemma_round_trip_all(s.skip(2));
            assert(t.skip(4) =~= esc_quoted(s.skip(2)));
            assert(t[0] == '\'' && t[1] == '\'' && t[2] == '$' && t[3] == '{');
            assert(unescape_quoted(t) =~= s);
        } else {
            lemma_round_trip_all(s.skip(1));
            assert(t.skip(1) =~= esc_quoted(s.skip(1)));
            lemma_esc_no_quote_interp(s.skip(1));
            assert(unescape_quoted(t) =~= s);
        }
    }
}

/// For every string the single-line quoted mode is chosen for (no newline,
/// or shorter than 80 UTF-8 bytes), the encoding is the escape between
/// double quotes, and applying the escape table backwards to that escape
/// reproduces the source string exactly.
pub proof fn lemma_single_line_round_trip(s: Seq<char>, d: nat)
    requires
        !contains_newline(s) || encode_utf8(s).len() < 80,
    ensures
        enc_str(s, d) == seq!['"'] + esc_quoted(s) + seq!['"'],
        unescape_quoted(esc_quoted(s)) == s,
{
    lemma_round_trip_all(s);
}

/// The block-mode escape of the characters at positions `a..b` of `s`.
pub open spec fn esc_block_range(s: Seq<char>, tab: Seq<char>, a: int, b: int) -> Seq<char>
    decreases b - a,
{
    if b <= a {
        Seq::<char>::empty()
    } else {
        esc_block_range(s, tab, a, b - 1) + esc_block_at(s, b - 1, tab)
    }
}

proof fn lemma_esc_block_split(s: Seq<char>, tab: Seq<char>, a: int, b: int)
    requires
        0 <= a <= b,
    ensures
        esc_block_prefix(s, b, tab) == esc_block_prefix(s, a, tab) + esc_block_range(
            s,
            tab,
            a,
            b,
        ),
    decreases b - a,
{
    if b == a {
        assert(esc_block_prefix(s, a, tab) + esc_block_range(s, tab, a, b)
            =~= esc_block_prefix(s, a, tab));
    } else {
        lemma_esc_block_split(s, tab, a, b - 1);
        assert(esc_block_prefix(s, b, tab) =~= esc_block_prefix(s, a, tab) + esc_block_range(
            s,
            tab,
            a,
            b,
        ));
    }
}

/// In block mode the literal opens with `''` and a newline, and closes with
/// a newline, the enclosing indentation, and `''`; between them stands the
/// block escape of the string, behind one extra level of indentation.
pub proof fn lemma_block_mode_shape(s: Seq<char>, d: nat)
    requires
        contains_newline(s),
        encode_utf8(s).len() >= 80,
    ensures
        enc_str(s, d) == seq!['\'', '\'', '\n'] + ind(d + 1) + esc_block(s, ind(d + 1))
            + seq!['\n'] + ind(d) + seq!['\'', '\''],
        enc_str(s, d).subrange(0, 3) == seq!['\'', '\'', '\n'],
        enc_str(s, d).subrange(
            enc_str(s, d).len() - (2 * d + 3),
            enc_str(s, d).len() as int,
        ) == seq!['\n'] + ind(d) + seq!['\'', '\''],
{
    let e = enc_str(s, d);
    assert(e.subrange(0, 3) =~= seq!['\'', '\'', '\n']);
    assert(e.subrange(e.len() - (2 * d + 3), e.len() as int) =~= seq!['\n'] + ind(d)
        + seq!['\'', '\'']);
}

/// In block mode, a `$` standing directly before `{` in the source gains a
/// `''` prefix: the four characters `''${` stand in the output exactly where
/// the block escape of the preceding characters ends.
pub proof fn lemma_block_mode_interpolation(s: Seq<char>, d: nat, i: int)
    requires
        contains_newline(s),
        encode_utf8(s).len() >= 80,
        0 <= i,
        i + 1 < s.len(),
        s[i] == '$',
        s[i + 1] == '{',
    ensures
        ({
            let j = 3 + ind(d + 1).len() + esc_block_prefix(s, i, ind(d + 1)).len();
            &&& j + 4 <= enc_str(s, d).len()
            &&& enc_str(s, d).subrange(j as int, j as int + 4) == seq!['\'', '\'', '$', '{']
        }),
{
    let tab = ind(d + 1);
    lemma_esc_block_split(s, tab, i + 2, s.len() as int);
    lemma_esc_block_split(s, tab, i, i + 2);
    assert(esc_block_range(s, tab, i, i) == Seq::<char>::empty());
    assert(esc_block_range(s, tab, i, i + 1) =~= esc_block_at(s, i, tab));
    assert(esc_block_range(s, tab, i, i + 2) =~= esc_block_at(s, i, tab) + esc_block_at(
        s,
        i + 1,
        tab,
    ));
    assert(esc_block_at(s, i, tab) =~= seq!['\'', '\'', '$']);
    assert(esc_block_at(s, i + 1, tab) =~= seq!['{']);
    let j = 3 + tab.len() + esc_block_prefix(s, i, tab).len();
    assert(enc_str(s, d).subrange(j as int, j as int + 4) =~= seq!['\'', '\'', '$', '{']);
}

/// In block mode, the first quote of a `''` pair in the source is doubled:
/// three consecutive quotes stand in the output exactly where the block
/// escape of the preceding characters ends.
pub proof fn lemma_block_mode_quote_pair(s: Seq<char>, d: nat, i: int)
    requires
        contains_newline(s),
        encode_utf8(s).len() >= 80,
        0 <= i,
        i + 1 < s.len(),
        s[i] == '\'',
        s[i + 1] == '\'',
    ensures
        ({
            let j = 3 + ind(d + 1).len() + esc_block_prefix(s, i, ind(d + 1)).len();
            &&& j + 3 <= enc_str(s, d).len()
            &&& enc_str(s, d).subrange(j as int, j as int + 3) == seq!['\'', '\'', '\'']
        }),
{
    let tab = ind(d + 1);
    lemma_esc_block_split(s, tab, i + 2, s.len() as int);
    lemma_esc_block_split(s, tab, i, i + 2);
    assert(esc_block_range(s, tab, i, i) == Seq::<char>::empty());
    assert(esc_block_range(s, tab, i, i + 1) =~= esc_block_at(s, i, tab));
    assert(esc_block_range(s, tab, i, i + 2) =~= esc_block_at(s, i, tab) + esc_block_at(
        s,
        i + 1,
        tab,
    ));
    assert(esc_block_at(s, i, tab) =~= seq!['\'', '\'']);
    assert(esc_block_at(s, i + 1, tab)[0] == '\'');
    let j = 3 + tab.len() + esc_block_prefix(s, i, tab).len();
    assert(enc_str(s, d).subrange(j as int, j as int + 3) =~= seq!['\'', '\'', '\'']);
}

/// A relative path with no `./` or `../` prefix and no character outside
/// the bare path-literal set encodes as `./` followed by the path text,
/// unchanged.
pub proof fn lemma_bare_relative_path(p: Seq<char>)
    requires
        !spec_needs_quoting(p),
        !is_absolute(p),
        !starts_cur_dir(p),
        !starts_parent_dir(p),
    ensures
        enc_path(p) == seq!['.', '/'] + p,
{
}

/// An absolute path holding at least one character outside the bare
/// path-literal set encodes as the concatenation expression
/// `/. + "<escaped path>"`.
pub proof fn lemma_absolute_path_quoted(p: Seq<char>)
    requires
        is_absolute(p),
        spec_needs_quoting(p),
    ensures
        enc_path(p) == seq!['/', '.', ' ', '+', ' ', '"'] + esc_path(p) + seq!['"'],
{
}

/// Map entries are encoded in input order, each independently of the ones
/// after it: the body of a map over `front + back` is the body over `front`
/// followed by the body over `back`. In particular an entry that is never
/// presented contributes nothing anywhere in the output.
pub proof fn lemma_map_entries_ordered(
    front: Seq<(Value, Value)>,
    back: Seq<(Value, Value)>,
    d: nat,
)
    ensures
        enc_entries(front + back, d) == enc_entries(front, d) + enc_entries(back, d),
    decreases back.len(),
{
    if back.len() == 0 {
        assert(front + back =~= front);
        assert(enc_entries(front, d) + enc_entries(back, d) =~= enc_entries(front, d));
    } else {
        lemma_map_entries_ordered(front, back.drop_last(), d);
        assert((front + back).drop_last() =~= front + back.drop_last());
        assert((front + back).last() == back.last());
        assert(enc_entries(front, d) + enc_entries(back, d) =~= enc_entries(front, d) + (
        enc_entries(back.drop_last(), d) + enc_entry(back.last(), d)));
    }
}

/// Record fields are encoded in input order, each independently of the ones
/// after it; a field omitted by the caller contributes nothing anywhere in
/// the output.
pub proof fn lemma_record_fields_ordered(
    front: Seq<(String, Value)>,
    back: Seq<(String, Value)>,
    d: nat,
)
    ensures
        enc_fields(front + back, d) == enc_fields(front, d) + enc_fields(back, d),
    decreases back.len(),
{
    if back.len() == 0 {
        assert(front + back =~= front);
        assert(enc_fields(front, d) + enc_fields(back, d) =~= enc_fields(front, d));
    } else {
        lemma_record_fields_ordered(front, back.drop_last(), d);
        assert((front + back).drop_last() =~= front + back.drop_last());
        assert((front + back).last() == back.last());
        assert(enc_fields(front, d) + enc_fields(back, d) =~= enc_fields(front, d) + (
        enc_fields(back.drop_last(), d) + enc_field(back.last(), d)));
    }
}

proof fn lemma_newline_from_scan(t: Seq<char>, from: int)
    requires
        0 <= from,
    ensures
        forall|j: int| from <= j < newline_from(t, from) ==> t[j] != '\n',
        newline_from(t, from) < t.len() ==> t[newline_from(t, from)] == '\n',
    decreases t.len() - from,
{
    if from < t.len() && t[from] != '\n' {
        lemma_newline_from_scan(t, from + 1);
    }
}

proof fn lemma_newline_shift(p: Seq<char>, b: Seq<char>, j: int)
    requires
        0 <= j,
    ensures
        newline_from(p + b, p.len() + j) == p.len() + newline_from(b, j),
    decreases b.len() - j,
{
    if j < b.len() {
        assert((p + b)[p.len() + j] == b[j]);
        if b[j] != '\n' {
            lemma_newline_shift(p, b, j + 1);
        }
    }
}

proof fn lemma_post_from_shift(p: Seq<char>, b: Seq<char>, j: int)
    requires
        0 <= j <= b.len(),
    ensures
        post_from(p + b, p.len() + j) == post_from(b, j),
    decreases b.len() - j,
{
    lemma_newline_shift(p, b, j);
    lemma_newline_from_bounds(b, j);
    let k = newline_from(b, j);
    assert((p + b).subrange(p.len() + j, p.len() + k) =~= b.subrange(j, k));
    if k < b.len() {
        lemma_post_from_shift(p, b, k + 1);
    }
}

proof fn lemma_post_from_idem(t: Seq<char>, start: int)
    requires
        0 <= start <= t.len(),
    ensures
        post_process(post_from(t, start)) == post_from(t, start),
    decreases t.len() - start,
{
    lemma_newline_from_bounds(t, start);
    lemma_newline_from_scan(t, start);
    let k = newline_from(t, start);
    let line = t.subrange(start, k);
    let c = cleaned_line(line);
    assert(forall|j: int| 0 <= j < line.len() ==> line[j] != '\n');
    assert(forall|j: int| 0 <= j < c.len() ==> c[j] != '\n');
    assert(cleaned_line(c) == c) by {
        if line_has_content(line) {
        } else {
            assert(!line_has_content(c));
        }
    }
    if k == t.len() {
        let x = post_from(t, start);
        assert(x == c);
        lemma_newline_from(x, 0, x.len() as int);
        assert(x.subrange(0, x.len() as int) =~= x);
        assert(post_process(x) == cleaned_line(x));
    } else {
        let rest = post_from(t, k + 1);
        let x = post_from(t, start);
        assert(x == c + seq!['\n'] + rest);
        let p = c + seq!['\n'];
        assert(x =~= p + rest);
        lemma_newline_from(x, 0, c.len() as int);
        assert(x.subrange(0, c.len() as int) =~= c);
        lemma_post_from_idem(t, k + 1);
        lemma_post_from_shift(p, rest, 0);
        assert(post_from(x, c.len() as int + 1) == post_from(rest, 0));
        assert(post_process(x) == cleaned_line(c) + seq!['\n'] + post_from(rest, 0));
        assert(post_process(x) =~= x);
    }
}

/// The post-processor is idempotent: text it has cleaned once, it leaves
/// untouched. Re-processing any produced output is therefore harmless.
pub proof fn lemma_post_process_idempotent(t: Seq<char>)
    ensures
        post_process(post_process(t)) == post_process(t),
{
    lemma_post_from_idem(t, 0);
}

/// Feeding a produced output back in as a raw-literal value reproduces the
/// output byte for byte: encoding is idempotent over its own text.
pub proof fn lemma_reencode_output(v: Value, w: Value)
    requires
        w matches Value::Literal(s) && s@ == encoded(v),
    ensures
        encoded(w) == encoded(v),
{
    lemma_post_process_idempotent(enc(v, 0).0);
}

/// An empty map encodes, after post-processing, to exactly `{`, a newline,
/// and `}`: the scaffold between the braces is blanked away.
pub proof fn lemma_empty_map(v: Value)
    requires
        v matches Value::Dict(entries) && entries@.len() == 0,
    ensures
        encoded(v) == seq!['{', '\n', '}'],
{
    let t = enc(v, 0).0;
    let entries = v->Dict_0;
    assert(enc_entries(entries@, 1) == Seq::<char>::empty());
    assert(ind(0) =~= Seq::<char>::empty());
    assert(t =~= seq!['{', '\n', '}']);
    assert(newline_from(t, 3) == 3);
    assert(newline_from(t, 2) == 3);
    assert(newline_from(t, 1) == 1);
    assert(newline_from(t, 0) == 1);
    assert(t.subrange(0, 1) =~= seq!['{']);
    assert(t.subrange(2, 3) =~= seq!['}']);
    assert(cleaned_line(t.subrange(0, 1)) == t.subrange(0, 1)) by {
        assert(t.subrange(0, 1)[0] != ' ');
    }
    assert(cleaned_line(t.subrange(2, 3)) == t.subrange(2, 3)) by {
        assert(t.subrange(2, 3)[0] != ' ');
    }
    assert(post_from(t, 2) == cleaned_line(t.subrange(2, 3)));
    assert(post_process(t) =~= seq!['{', '\n', '}']);
}

} // verus!
