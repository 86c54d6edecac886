use vstd::prelude::*;

use crate::escape::enc_str;
use crate::num::{dec_int, dec_nat, push_i64_decimal, push_u64_decimal};
use crate::path::enc_path;
use crate::tag::{push_lowered_tag, spec_lower_tag};
use crate::value::Value;

verus! {

/// The layout state of one encoding pass: the output buffer, grown from
/// front to back, and the current indentation depth (two spaces per level).
pub struct Serializer {
    pub output: Vec<char>,
    pub indent_depth: usize,
}

/// The indentation text for depth `d`: `2 * d` space characters.
pub open spec fn ind(d: nat) -> Seq<char> {
    Seq::new(2 * d, |i: int| ' ')
}

impl Serializer {
    /// The depth counter never exceeds the number of characters written:
    /// every level was opened by at least one delimiter character. This is
    /// what keeps the counter from overflowing.
    pub open spec fn wf(self) -> bool {
        self.indent_depth <= self.output@.len()
    }

    /// A fresh layout state with an empty buffer at depth zero.
    pub fn new() -> (s: Serializer)
        ensures
            s.output@ == Seq::<char>::empty(),
            s.indent_depth == 0,
            s.wf(),
    {
        Serializer { output: Vec::new(), indent_depth: 0 }
    }

    /// Emits the indentation for the current depth: two spaces per level.
    pub fn indent(&mut self)
        ensures
            final(self).output@ == old(self).output@ + ind(old(self).indent_depth as nat),
            final(self).indent_depth == old(self).indent_depth,
    {
        let mut j: usize = 0;
        while j < self.indent_depth
            invariant
                j <= self.indent_depth,
                self.indent_depth == old(self).indent_depth,
                self.output@ == old(self).output@ + Seq::new(2 * j as nat, |i: int| ' '),
            decreases self.indent_depth - j,
        {
            self.output.push(' ');
            self.output.push(' ');
            proof {
                assert(old(self).output@ + Seq::new(2 * (j + 1) as nat, |i: int| ' ')
                    =~= self.output@);
            }
            j += 1;
        }
        proof {
            assert(self.output@ =~= old(self).output@ + ind(old(self).indent_depth as nat));
        }
    }
}

/// An encoded map or record key with its surrounding double quotes removed,
/// when it has them: bare attribute names are preferred. Any other key text
/// is kept as it is.
pub open spec fn strip_quotes(t: Seq<char>) -> Seq<char> {
    if t.len() >= 2 && t[0] == '"' && t[t.len() - 1] == '"' {
        t.subrange(1, t.len() - 1)
    } else {
        t
    }
}

/// The text that encoding `v` at indentation depth `d` appends to the
/// output, together with the depth left behind. Every shape restores the
/// depth it found, except a tuple, which opens a level it never closes;
/// the pair's second component records that.
pub open spec fn enc(v: Value, d: nat) -> (Seq<char>, nat)
    decreases v, 1int,
{
    match v {
        Value::Null => (seq!['n', 'u', 'l', 'l'], d),
        Value::Bool(b) => (
            if b {
                seq!['t', 'r', 'u', 'e']
            } else {
                seq!['f', 'a', 'l', 's', 'e']
            },
            d,
        ),
        Value::Int(n) => (dec_int(n as int), d),
        Value::UInt(n) => (dec_nat(n as nat), d),
        Value::Str(s) => (enc_str(s@, d), d),
        Value::Char(c) => (enc_str(seq![c], d), d),
        Value::Bytes(bs) => (seq!['[', '\n'] + enc_bytes(bs@) + seq![']'], d),
        Value::List(es) => {
            let body = enc_list(es@, d + 1);
            (
                seq!['['] + body.0 + seq!['\n'] + ind((body.1 - 1) as nat) + seq![']'],
                (body.1 - 1) as nat,
            )
        },
        Value::Tuple(es) => {
            let body = enc_tuple(es@, d + 1);
            (seq!['['] + body.0 + seq![' ', ']'], body.1)
        },
        Value::Dict(entries) => (
            seq!['{'] + enc_entries(entries@, d + 1) + seq!['\n'] + ind(d) + seq!['}'],
            d,
        ),
        Value::Record(fields) => (
            seq!['{'] + (if fields@.len() > 0 {
                seq!['\n']
            } else {
                Seq::<char>::empty()
            }) + enc_fields(fields@, d + 1) + ind(d) + seq!['}'],
            d,
        ),
        Value::UnitVariant(t) => (enc_str(t@, d), d),
        Value::NewtypeVariant(t, val) => {
            let inner = enc(*val, d);
            (
                seq!['{', ' '] + spec_lower_tag(t@) + seq![' ', '=', ' '] + inner.0
                    + seq![';', ' ', '}'],
                inner.1,
            )
        },
        Value::TupleVariant(t, es) => {
            let body = enc_tuple(es@, d);
            (
                seq!['{', ' '] + enc_str(t@, d) + seq![' ', '=', ' ', '['] + body.0
                    + seq![' ', ']', ' ', '}'],
                body.1,
            )
        },
        Value::StructVariant(t, fields) => {
            let body = enc_sv_fields(fields@, d);
            (
                seq!['{', ' '] + enc_str(t@, d) + seq![' ', '=', ' ', '{'] + body.0
                    + seq!['}', ';', ' ', '}'],
                body.1,
            )
        },
        Value::Literal(s) => (s@, d),
        Value::Path(s) => (enc_path(s@), d),
    }
}

/// The body of a multi-line list: each element on its own line, preceded by
/// a newline and the indentation current when the element starts. The depth
/// threads from element to element, since a tuple element leaves it raised.
pub open spec fn enc_list(es: Seq<Value>, d: nat) -> (Seq<char>, nat)
    decreases es, 0int,
{
    if es.len() == 0 {
        (Seq::<char>::empty(), d)
    } else {
        let front = enc_list(es.drop_last(), d);
        let elem = enc(es.last(), front.1);
        (front.0 + seq!['\n'] + ind(front.1) + elem.0, elem.1)
    }
}

/// The body of a single-line tuple: elements separated by single spaces,
/// with no space before the first. The depth threads from element to
/// element.
pub open spec fn enc_tuple(es: Seq<Value>, d: nat) -> (Seq<char>, nat)
    decreases es, 0int,
{
    if es.len() == 0 {
        (Seq::<char>::empty(), d)
    } else {
        let front = enc_tuple(es.drop_last(), d);
        let elem = enc(es.last(), front.1);
        let sep = if es.len() == 1 {
            Seq::<char>::empty()
        } else {
            seq![' ']
        };
        (front.0 + sep + elem.0, elem.1)
    }
}

/// One map entry: a fresh indented line holding `key = value;`, the key
/// encoded like any value and then unquoted. Key and value are laid out at
/// the entry's own depth `d`; whatever depth their encodings leave behind
/// is discarded.
pub open spec fn enc_entry(e: (Value, Value), d: nat) -> Seq<char>
    decreases e, 1int,
{
    seq!['\n'] + ind(d) + strip_quotes(enc(e.0, d).0) + seq![' ', '=', ' '] + enc(e.1, d).0
        + seq![';']
}

/// The body of a map: its entries in input order.
pub open spec fn enc_entries(entries: Seq<(Value, Value)>, d: nat) -> Seq<char>
    decreases entries, 0int,
{
    if entries.len() == 0 {
        Seq::<char>::empty()
    } else {
        enc_entries(entries.drop_last(), d) + enc_entry(entries.last(), d)
    }
}

/// One record field: an indented `name = value;` line, the field name
/// encoded as a string literal and then unquoted. The depth the value's
/// encoding leaves behind is discarded.
pub open spec fn enc_field(f: (String, Value), d: nat) -> Seq<char>
    decreases f, 1int,
{
    ind(d) + strip_quotes(enc_str(f.0@, d)) + seq![' ', '=', ' '] + enc(f.1, d).0
        + seq![';', '\n']
}

/// The body of a record: its fields in input order.
pub open spec fn enc_fields(fields: Seq<(String, Value)>, d: nat) -> Seq<char>
    decreases fields, 0int,
{
    if fields.len() == 0 {
        Seq::<char>::empty()
    } else {
        enc_fields(fields.drop_last(), d) + enc_field(fields.last(), d)
    }
}

/// One struct-variant field: ` "name" = { value`, all on one line; the
/// field's braces are closed only once, at the end of the whole variant.
/// The depth threads on to the next field.
pub open spec fn enc_sv_field(f: (String, Value), d: nat) -> (Seq<char>, nat)
    decreases f, 1int,
{
    let val = enc(f.1, d);
    (seq![' '] + enc_str(f.0@, d) + seq![' ', '=', ' ', '{', ' '] + val.0, val.1)
}

/// The body of a struct variant: its fields in input order, the depth
/// threading from field to field.
pub open spec fn enc_sv_fields(fields: Seq<(String, Value)>, d: nat) -> (Seq<char>, nat)
    decreases fields, 0int,
{
    if fields.len() == 0 {
        (Seq::<char>::empty(), d)
    } else {
        let front = enc_sv_fields(fields.drop_last(), d);
        let f = enc_sv_field(fields.last(), front.1);
        (front.0 + f.0, f.1)
    }
}

/// The body of a byte sequence: each byte as a decimal integer on its own
/// line, behind a fixed two-space indent.
pub open spec fn enc_bytes(bs: Seq<u8>) -> Seq<char>
    decreases bs.len(),
{
    if bs.len() == 0 {
        Seq::<char>::empty()
    } else {
        enc_bytes(bs.drop_last()) + seq![' ', ' '] + dec_nat(bs.last() as nat) + seq!['\n']
    }
}

/// Encoding never lowers the indentation depth below where it started.
proof fn lemma_enc_ge(v: Value, d: nat)
    ensures
        enc(v, d).1 >= d,
    decreases v, 1int,
{
    match v {
        Value::List(es) => {
            lemma_enc_list_ge(es@, d + 1);
        },
        Value::Tuple(es) => {
            lemma_enc_tuple_ge(es@, d + 1);
        },
        Value::NewtypeVariant(t, val) => {
            lemma_enc_ge(*val, d);
        },
        Value::TupleVariant(t, es) => {
            lemma_enc_tuple_ge(es@, d);
        },
        Value::StructVariant(t, fields) => {
            lemma_enc_sv_ge(fields@, d);
        },
        _ => {},
    }
}

proof fn lemma_enc_list_ge(es: Seq<Value>, d: nat)
    ensures
        enc_list(es, d).1 >= d,
    decreases es, 0int,
{
    if es.len() > 0 {
        lemma_enc_list_ge(es.drop_last(), d);
        lemma_enc_ge(es.last(), enc_list(es.drop_last(), d).1);
    }
}

proof fn lemma_enc_tuple_ge(es: Seq<Value>, d: nat)
    ensures
        enc_tuple(es, d).1 >= d,
    decreases es, 0int,
{
    if es.len() > 0 {
        lemma_enc_tuple_ge(es.drop_last(), d);
        lemma_enc_ge(es.last(), enc_tuple(es.drop_last(), d).1);
    }
}

proof fn lemma_enc_sv_field_ge(f: (String, Value), d: nat)
    ensures
        enc_sv_field(f, d).1 >= d,
    decreases f, 1int,
{
    lemma_enc_ge(f.1, d);
}

proof fn lemma_enc_sv_ge(fields: Seq<(String, Value)>, d: nat)
    ensures
        enc_sv_fields(fields, d).1 >= d,
    decreases fields, 0int,
{
    if fields.len() > 0 {
        lemma_enc_sv_ge(fields.drop_last(), d);
        lemma_enc_sv_field_ge(fields.last(), enc_sv_fields(fields.drop_last(), d).1);
    }
}

impl Serializer {
    /// Encodes one value, appending its text to the output. The depth left
    /// behind is the one [`enc`] describes: unchanged for every shape but a
    /// tuple.
    #[verifier::rlimit(50)]
    pub fn encode_value(&mut self, v: &Value)
        requires
            old(self).wf(),
        ensures
            final(self).wf(),
            final(self).output@ == old(self).output@ + enc(
                *v,
                old(self).indent_depth as nat,
            ).0,
            final(self).indent_depth as nat == enc(*v, old(self).indent_depth as nat).1,
        decreases *v, 2int,
    {
        let ghost d = old(self).indent_depth as nat;
        match v {
            Value::Null => {
                self.output.push('n');
                self.output.push('u');
                self.output.push('l');
                self.output.push('l');
                proof {
                    assert(self.output@ =~= old(self).output@ + enc(*v, d).0);
                }
            },
            Value::Bool(b) => {
                if *b {
                    self.output.push('t');
                    self.output.push('r');
                    self.output.push('u');
                    self.output.push('e');
                } else {
                    self.output.push('f');
                    self.output.push('a');
                    self.output.push('l');
                    self.output.push('s');
                    self.output.push('e');
                }
                proof {
                    assert(self.output@ =~= old(self).output@ + enc(*v, d).0);
                }
            },
            Value::Int(n) => {
                push_i64_decimal(&mut self.output, *n);
            },
            Value::UInt(n) => {
                push_u64_decimal(&mut self.output, *n);
            },
            Value::Str(s) => {
                self.write_str_literal(s.as_str());
            },
            Value::Char(c) => {
                self.write_char_literal(*c);
            },
            Value::Bytes(bs) => {
                self.output.push('[');
                self.output.push('\n');
                let ghost base = old(self).output@ + seq!['[', '\n'];
                let mut i: usize = 0;
                while i < bs.len()
                    invariant
                        i <= bs.len(),
                        self.indent_depth == old(self).indent_depth,
                        self.output@ == base + enc_bytes(bs@.take(i as int)),
                    decreases bs.len() - i,
                {
                    self.output.push(' ');
                    self.output.push(' ');
                    push_u64_decimal(&mut self.output, bs[i] as u64);
                    self.output.push('\n');
                    proof {
                        assert(bs@.take(i + 1 as int).drop_last() =~= bs@.take(i as int));
                        assert(bs@.take(i + 1 as int).last() == bs@[i as int]);
                        assert(self.output@ =~= base + enc_bytes(bs@.take(i + 1 as int)));
                    }
                    i += 1;
                }
                proof {
                    assert(bs@.take(bs@.len() as int) =~= bs@);
                }
                self.output.push(']');
                proof {
                    assert(self.output@ =~= old(self).output@ + enc(*v, d).0);
                }
            },
            Value::List(es) => {
                self.output.push('[');
                proof {
                    assert(self.indent_depth < self.output.len());
                }
                self.indent_depth = self.indent_depth + 1;
                self.encode_list_body(es);
                proof {
                    lemma_enc_list_ge(es@, d + 1);
                }
                self.output.push('\n');
                self.indent_depth = self.indent_depth - 1;
                self.indent();
                self.output.push(']');
                proof {
                    assert(self.output@ =~= old(self).output@ + enc(*v, d).0);
                }
            },
            Value::Tuple(es) => {
                self.output.push('[');
                proof {
                    assert(self.indent_depth < self.output.len());
                }
                self.indent_depth = self.indent_depth + 1;
                self.encode_tuple_body(es);
                self.output.push(' ');
                self.output.push(']');
                proof {
                    assert(self.output@ =~= old(self).output@ + enc(*v, d).0);
                }
            },
            Value::Dict(entries) => {
                self.output.push('{');
                proof {
                    assert(self.indent_depth < self.output.len());
                }
                self.indent_depth = self.indent_depth + 1;
                self.encode_dict_body(entries);
                self.output.push('\n');
                self.indent_depth = self.indent_depth - 1;
                self.indent();
                self.output.push('}');
                proof {
                    assert(self.output@ =~= old(self).output@ + enc(*v, d).0);
                }
            },
            Value::Record(fields) => {
                self.output.push('{');
                proof {
                    assert(self.indent_depth < self.output.len());
                }
                self.indent_depth = self.indent_depth + 1;
                if fields.len() > 0 {
                    self.output.push('\n');
                }
                self.encode_record_body(fields);
                self.indent_depth = self.indent_depth - 1;
                self.indent();
                self.output.push('}');
                proof {
                    assert(self.output@ =~= old(self).output@ + enc(*v, d).0);
                }
            },
            Value::UnitVariant(t) => {
                self.write_str_literal(t.as_str());
            },
            Value::NewtypeVariant(t, val) => {
                self.output.push('{');
                self.output.push(' ');
                push_lowered_tag(&mut self.output, t.as_str());
                self.output.push(' ');
                self.output.push('=');
                self.output.push(' ');
                self.encode_value(&**val);
                self.output.push(';');
                self.output.push(' ');
                self.output.push('}');
                proof {
                    assert(self.output@ =~= old(self).output@ + enc(*v, d).0);
                }
            },
            Value::TupleVariant(t, es) => {
                self.output.push('{');
                self.output.push(' ');
                self.write_str_literal(t.as_str());
                self.output.push(' ');
                self.output.push('=');
                self.output.push(' ');
                self.output.push('[');
                self.encode_tuple_body(es);
                self.output.push(' ');
                self.output.push(']');
                self.output.push(' ');
                self.output.push('}');
                proof {
                    assert(self.output@ =~= old(self).output@ + enc(*v, d).0);
                }
            },
            Value::StructVariant(t, fields) => {
                self.output.push('{');
                self.output.push(' ');
                self.write_str_literal(t.as_str());
                self.output.push(' ');
                self.output.push('=');
                self.output.push(' ');
                self.output.push('{');
                self.encode_sv_body(fields);
                self.output.push('}');
                self.output.push(';');
                self.output.push(' ');
                self.output.push('}');
                proof {
                    assert(self.output@ =~= old(self).output@ + enc(*v, d).0);
                }
            },
            Value::Literal(s) => {
                crate::path::push_str_chars(&mut self.output, s.as_str());
            },
            Value::Path(s) => {
                self.write_path(s.as_str());
            },
        }
    }

    /// Encodes the elements of a multi-line list, each on a fresh indented
    /// line.
    fn encode_list_body(&mut self, es: &Vec<Value>)
        requires
            old(self).wf(),
        ensures
            final(self).wf(),
            final(self).output@ == old(self).output@ + enc_list(
                es@,
                old(self).indent_depth as nat,
            ).0,
            final(self).indent_depth as nat == enc_list(es@, old(self).indent_depth as nat).1,
        decreases es@, 1int,
    {
        let ghost d = old(self).indent_depth as nat;
        let mut i: usize = 0;
        while i < es.len()
            invariant
                i <= es.len(),
                self.wf(),
                self.output@ == old(self).output@ + enc_list(es@.take(i as int), d).0,
                self.indent_depth as nat == enc_list(es@.take(i as int), d).1,
            decreases es.len() - i,
        {
            self.output.push('\n');
            self.indent();
            self.encode_value(&es[i]);
            proof {
                assert(es@.take(i + 1 as int).drop_last() =~= es@.take(i as int));
                assert(es@.take(i + 1 as int).last() == es@[i as int]);
                assert(self.output@ =~= old(self).output@ + enc_list(
                    es@.take(i + 1 as int),
                    d,
                ).0);
            }
            i += 1;
        }
        proof {
            assert(es@.take(es@.len() as int) =~= es@);
        }
    }

    /// Encodes the elements of a single-line tuple, space-separated.
    fn encode_tuple_body(&mut self, es: &Vec<Value>)
        requires
            old(self).wf(),
        ensures
            final(self).wf(),
            final(self).output@ == old(self).output@ + enc_tuple(
                es@,
                old(self).indent_depth as nat,
            ).0,
            final(self).indent_depth as nat == enc_tuple(es@, old(self).indent_depth as nat).1,
        decreases es@, 1int,
    {
        let ghost d = old(self).indent_depth as nat;
        let mut i: usize = 0;
        while i < es.len()
            invariant
                i <= es.len(),
                self.wf(),
                self.output@ == old(self).output@ + enc_tuple(es@.take(i as int), d).0,
                self.indent_depth as nat == enc_tuple(es@.take(i as int), d).1,
            decreases es.len() - i,
        {
            if i > 0 {
                self.output.push(' ');
            }
            self.encode_value(&es[i]);
            proof {
                assert(es@.take(i + 1 as int).drop_last() =~= es@.take(i as int));
                assert(es@.take(i + 1 as int).last() == es@[i as int]);
                assert(self.output@ =~= old(self).output@ + enc_tuple(
                    es@.take(i + 1 as int),
                    d,
                ).0);
            }
            i += 1;
        }
        proof {
            assert(es@.take(es@.len() as int) =~= es@);
        }
    }

    /// Encodes the entries of a map, in input order.
    fn encode_dict_body(&mut self, entries: &Vec<(Value, Value)>)
        requires
            old(self).wf(),
        ensures
            final(self).wf(),
            final(self).output@ == old(self).output@ + enc_entries(
                entries@,
                old(self).indent_depth as nat,
            ),
            final(self).indent_depth == old(self).indent_depth,
        decreases entries@, 1int,
    {
        let ghost d = old(self).indent_depth as nat;
        proof {
            assert(self.output@ =~= old(self).output@ + enc_entries(entries@.take(0), d));
        }
        let mut i: usize = 0;
        while i < entries.len()
            invariant
                i <= entries.len(),
                self.wf(),
                self.indent_depth == old(self).indent_depth,
                self.indent_depth as nat == d,
                self.output@ == old(self).output@ + enc_entries(entries@.take(i as int), d),
            decreases entries.len() - i,
        {
            self.encode_dict_entry(&entries[i]);
            proof {
                assert(entries@.take(i + 1 as int).drop_last() =~= entries@.take(i as int));
                assert(entries@.take(i + 1 as int).last() == entries@[i as int]);
                assert(enc_entries(entries@.take(i + 1 as int), d) == enc_entries(
                    entries@.take(i as int),
                    d,
                ) + enc_entry(entries@[i as int], d));
                assert(self.output@ =~= old(self).output@ + enc_entries(
                    entries@.take(i + 1 as int),
                    d,
                ));
            }
            i += 1;
        }
        proof {
            assert(entries@.take(entries@.len() as int) =~= entries@);
        }
    }

    /// Encodes one map entry: the key encoded in place and unquoted, then
    /// ` = `, the value, and `;`. The depths their encodings leave behind
    /// are discarded, as the entry lays both out at its own depth.
    fn encode_dict_entry(&mut self, e: &(Value, Value))
        requires
            old(self).wf(),
        ensures
            final(self).wf(),
            final(self).output@ == old(self).output@ + enc_entry(
                *e,
                old(self).indent_depth as nat,
            ),
            final(self).indent_depth == old(self).indent_depth,
        decreases *e, 2int,
    {
        let ghost d = old(self).indent_depth as nat;
        self.output.push('\n');
        self.indent();
        let ghost line_start = self.output@;
        let saved = self.indent_depth;
        let key_start = self.output.len();
        self.encode_value(&e.0);
        self.indent_depth = saved;
        let ghost ktext = enc(e.0, d).0;
        let len = self.output.len();
        proof {
            assert(len - key_start == ktext.len());
        }
        if len - key_start >= 2 {
            let first = self.output[key_start];
            let last = self.output[len - 1];
            if first == '"' && last == '"' {
                self.output.remove(key_start);
                self.output.pop();
            }
        }
        proof {
            assert(self.output@ =~= line_start + strip_quotes(ktext));
        }
        self.output.push(' ');
        self.output.push('=');
        self.output.push(' ');
        let saved2 = self.indent_depth;
        self.encode_value(&e.1);
        self.indent_depth = saved2;
        self.output.push(';');
        proof {
            assert(self.output@ =~= old(self).output@ + enc_entry(*e, d));
        }
    }

    /// Encodes the fields of a record, in input order.
    fn encode_record_body(&mut self, fields: &Vec<(String, Value)>)
        requires
            old(self).wf(),
        ensures
            final(self).wf(),
            final(self).output@ == old(self).output@ + enc_fields(
                fields@,
                old(self).indent_depth as nat,
            ),
            final(self).indent_depth == old(self).indent_depth,
        decreases fields@, 1int,
    {
        let ghost d = old(self).indent_depth as nat;
        proof {
            assert(self.output@ =~= old(self).output@ + enc_fields(fields@.take(0), d));
        }
        let mut i: usize = 0;
        while i < fields.len()
            invariant
                i <= fields.len(),
                self.wf(),
                self.indent_depth == old(self).indent_depth,
                self.indent_depth as nat == d,
                self.output@ == old(self).output@ + enc_fields(fields@.take(i as int), d),
            decreases fields.len() - i,
        {
            self.encode_record_field(&fields[i]);
            proof {
                assert(fields@.take(i + 1 as int).drop_last() =~= fields@.take(i as int));
                assert(fields@.take(i + 1 as int).last() == fields@[i as int]);
                assert(enc_fields(fields@.take(i + 1 as int), d) == enc_fields(
                    fields@.take(i as int),
                    d,
                ) + enc_field(fields@[i as int], d));
                assert(self.output@ =~= old(self).output@ + enc_fields(
                    fields@.take(i + 1 as int),
                    d,
                ));
            }
            i += 1;
        }
        proof {
            assert(fields@.take(fields@.len() as int) =~= fields@);
        }
    }

    /// Encodes one record field: the name as an unquoted string literal,
    /// then ` = `, the value, `;` and a newline. The depth the value's
    /// encoding leaves behind is discarded.
    fn encode_record_field(&mut self, f: &(String, Value))
        requires
            old(self).wf(),
        ensures
            final(self).wf(),
            final(self).output@ == old(self).output@ + enc_field(
                *f,
                old(self).indent_depth as nat,
            ),
            final(self).indent_depth == old(self).indent_depth,
        decreases *f, 2int,
    {
        let ghost d = old(self).indent_depth as nat;
        self.indent();
        let ghost line_start = self.output@;
        let key_start = self.output.len();
        self.write_str_literal(f.0.as_str());
        let ghost ktext = enc_str(f.0@, d);
        let len = self.output.len();
        proof {
            assert(len - key_start == ktext.len());
        }
        if len - key_start >= 2 {
            let first = self.output[key_start];
            let last = self.output[len - 1];
            if first == '"' && last == '"' {
                self.output.remove(key_start);
                self.output.pop();
            }
        }
        proof {
            assert(self.output@ =~= line_start + strip_quotes(ktext));
        }
        self.output.push(' ');
        self.output.push('=');
        self.output.push(' ');
        let saved = self.indent_depth;
        self.encode_value(&f.1);
        self.indent_depth = saved;
        self.output.push(';');
        self.output.push('\n');
        proof {
            assert(self.output@ =~= old(self).output@ + enc_field(*f, d));
        }
    }

    /// Encodes the fields of a struct variant, in input order, the depth
    /// threading from field to field.
    fn encode_sv_body(&mut self, fields: &Vec<(String, Value)>)
        requires
            old(self).wf(),
        ensures
            final(self).wf(),
            final(self).output@ == old(self).output@ + enc_sv_fields(
                fields@,
                old(self).indent_depth as nat,
            ).0,
            final(self).indent_depth as nat == enc_sv_fields(
                fields@,
                old(self).indent_depth as nat,
            ).1,
        decreases fields@, 1int,
    {
        let ghost d = old(self).indent_depth as nat;
        let mut i: usize = 0;
        while i < fields.len()
            invariant
                i <= fields.len(),
                self.wf(),
                self.output@ == old(self).output@ + enc_sv_fields(fields@.take(i as int), d).0,
                self.indent_depth as nat == enc_sv_fields(fields@.take(i as int), d).1,
            decreases fields.len() - i,
        {
            self.encode_sv_field(&fields[i]);
            proof {
                assert(fields@.take(i + 1 as int).drop_last() =~= fields@.take(i as int));
                assert(fields@.take(i + 1 as int).last() == fields@[i as int]);
                assert(self.output@ =~= old(self).output@ + enc_sv_fields(
                    fields@.take(i + 1 as int),
                    d,
                ).0);
            }
            i += 1;
        }
        proof {
            assert(fields@.take(fields@.len() as int) =~= fields@);
        }
    }

    /// Encodes one struct-variant field: ` "name" = { value`, on one line.
    fn encode_sv_field(&mut self, f: &(String, Value))
        requires
            old(self).wf(),
        ensures
            final(self).wf(),
            final(self).output@ == old(self).output@ + enc_sv_field(
                *f,
                old(self).indent_depth as nat,
            ).0,
            final(self).indent_depth as nat == enc_sv_field(
                *f,
                old(self).indent_depth as nat,
            ).1,
        decreases *f, 2int,
    {
        let ghost d = old(self).indent_depth as nat;
        self.output.push(' ');
        self.write_str_literal(f.0.as_str());
        self.output.push(' ');
        self.output.push('=');
        self.output.push(' ');
        self.output.push('{');
        self.output.push(' ');
        self.encode_value(&f.1);
        proof {
            assert(self.output@ =~= old(self).output@ + enc_sv_field(*f, d).0);
        }
    }
}

} // verus!
