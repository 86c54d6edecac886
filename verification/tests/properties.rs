use ser_nix::{
    encode, escape_nix_string_into, needs_quoting, post_processor, Error, NixLiteral, NixPath,
    NixPathBuf, Serializer, Value,
};

fn text(out: &[char]) -> String {
    out.iter().collect()
}

#[test]
fn empty_map_is_brace_newline_brace() {
    let result = encode(&Value::Dict(vec![])).unwrap();
    assert_eq!(result, "{\n}");
}

#[test]
fn empty_record_is_braces() {
    let result = encode(&Value::Record(vec![])).unwrap();
    assert_eq!(result, "{}");
}

#[test]
fn empty_list() {
    let result = encode(&Value::List(vec![])).unwrap();
    assert_eq!(result, "[\n]");
}

#[test]
fn tuple_stays_single_line() {
    let result = encode(&Value::Tuple(vec![Value::Int(1), Value::Int(2)])).unwrap();
    assert_eq!(result, "[1 2 ]");
}

#[test]
fn tuple_leaves_indent_raised() {
    // A tuple opens an indentation level it never closes, so a list element
    // after it sits one level deeper.
    let v = Value::List(vec![Value::Tuple(vec![Value::Int(1)]), Value::Int(2)]);
    let result = encode(&v).unwrap();
    assert_eq!(result, "[\n  [1 ]\n    2\n  ]");
}

#[test]
fn bytes_one_per_line() {
    let result = encode(&Value::Bytes(vec![0, 7, 255])).unwrap();
    assert_eq!(result, "[\n  0\n  7\n  255\n]");
}

#[test]
fn unit_variant_is_quoted_tag() {
    let result = encode(&Value::UnitVariant("Celsius".to_string())).unwrap();
    assert_eq!(result, "\"Celsius\"");
}

#[test]
fn tuple_variant_single_line() {
    let v = Value::TupleVariant("Pair".to_string(), vec![Value::Int(1), Value::Int(2)]);
    let result = encode(&v).unwrap();
    assert_eq!(result, "{ \"Pair\" = [1 2 ] }");
}

#[test]
fn struct_variant_single_line() {
    let v = Value::StructVariant(
        "V".to_string(),
        vec![("a".to_string(), Value::Int(1))],
    );
    let result = encode(&v).unwrap();
    assert_eq!(result, "{ \"V\" = { \"a\" = { 1}; }");
}

#[test]
fn newtype_variant_lowercases_non_ascii_tag() {
    let v = Value::NewtypeVariant("Übermut".to_string(), Box::new(Value::UInt(1)));
    let result = encode(&v).unwrap();
    assert_eq!(result, "{ übermut = 1; }");
}

#[test]
fn newtype_variant_keeps_lowercase_tag() {
    let v = Value::NewtypeVariant("inches".to_string(), Box::new(Value::UInt(2)));
    let result = encode(&v).unwrap();
    assert_eq!(result, "{ inches = 2; }");
}

#[test]
fn raw_literal_is_verbatim() {
    let v = Value::Record(vec![(
        "package".to_string(),
        NixLiteral::new("pkgs.hello").to_value(),
    )]);
    let result = encode(&v).unwrap();
    assert_eq!(result, "{\n  package = pkgs.hello;\n}");
}

#[test]
fn integer_extremes() {
    assert_eq!(encode(&Value::Int(-5)).unwrap(), "-5");
    assert_eq!(encode(&Value::Int(0)).unwrap(), "0");
    assert_eq!(
        encode(&Value::Int(i64::MIN)).unwrap(),
        "-9223372036854775808"
    );
    assert_eq!(
        encode(&Value::UInt(u64::MAX)).unwrap(),
        "18446744073709551615"
    );
}

#[test]
fn char_encodes_as_one_character_string() {
    assert_eq!(encode(&Value::Char('a')).unwrap(), "\"a\"");
    assert_eq!(encode(&Value::Char('\n')).unwrap(), "\"\\n\"");
    assert_eq!(encode(&Value::Char('"')).unwrap(), "\"\\\"\"");
    assert_eq!(encode(&Value::Char('$')).unwrap(), "\"$\"");
}

#[test]
fn empty_string() {
    assert_eq!(encode(&Value::Str(String::new())).unwrap(), "\"\"");
}

#[test]
fn non_ascii_string_passes_through() {
    assert_eq!(
        encode(&Value::Str("héllo wörld".to_string())).unwrap(),
        "\"héllo wörld\""
    );
}

#[test]
fn short_string_with_newline_stays_quoted() {
    // A newline alone does not trigger block mode below 80 bytes.
    assert_eq!(encode(&Value::Str("a\nb".to_string())).unwrap(), "\"a\\nb\"");
}

#[test]
fn long_string_without_newline_stays_quoted() {
    let s = "a".repeat(100);
    let expected = format!("\"{}\"", s);
    assert_eq!(encode(&Value::Str(s)).unwrap(), expected);
}

#[test]
fn block_mode_escapes_quote_pairs_and_interpolation() {
    let s = format!("aa''bb${{cc\n{}", "d".repeat(70));
    let expected = format!("''\n  aa'''bb''${{cc\n  {}\n''", "d".repeat(70));
    assert_eq!(encode(&Value::Str(s)).unwrap(), expected);
}

#[test]
fn map_key_quotes_are_stripped() {
    let v = Value::Dict(vec![(Value::Str("a b".to_string()), Value::Int(1))]);
    assert_eq!(encode(&v).unwrap(), "{\n  a b = 1;\n}");
}

#[test]
fn reencoding_output_is_identical() {
    let v = Value::Record(vec![
        ("a".to_string(), Value::Int(42)),
        ("b".to_string(), Value::Str("Hi!".to_string())),
    ]);
    let first = encode(&v).unwrap();
    let again = encode(&Value::Literal(first.clone())).unwrap();
    assert_eq!(again, first);
}

#[test]
fn encoding_is_deterministic() {
    let v = Value::List(vec![Value::Bool(true), Value::Null]);
    assert_eq!(encode(&v).unwrap(), encode(&v).unwrap());
}

#[test]
fn post_processor_blanks_space_only_lines() {
    assert_eq!(post_processor(&String::from("{\n  \n}")), "{\n\n}");
    assert_eq!(post_processor(&String::from("   ")), "");
    assert_eq!(post_processor(&String::from("a\n   x\n  ")), "a\n   x\n");
    assert_eq!(post_processor(&String::from("")), "");
}

#[test]
fn single_line_escapes_reverse_exactly() {
    // Undo the single-line escape table by hand: the encoder's own escaping
    // must be exactly reversible.
    let source = "pre ${x} \"q\" \\ tail\t'";
    let encoded_text = encode(&Value::Str(source.to_string())).unwrap();
    let inner: Vec<char> = encoded_text[1..encoded_text.len() - 1].chars().collect();
    let mut recovered = String::new();
    let mut i = 0;
    while i < inner.len() {
        if i + 3 < inner.len() && inner[i] == '\'' && inner[i + 1] == '\'' && inner[i + 2] == '$'
            && inner[i + 3] == '{'
        {
            recovered.push('$');
            recovered.push('{');
            i += 4;
        } else if i + 1 < inner.len() && inner[i] == '\\' {
            recovered.push(match inner[i + 1] {
                'n' => '\n',
                't' => '\t',
                other => other,
            });
            i += 2;
        } else {
            recovered.push(inner[i]);
            i += 1;
        }
    }
    assert_eq!(recovered, source);
}

#[test]
fn needs_quoting_follows_path_charset() {
    assert!(!needs_quoting("azAZ09._-+/"));
    assert!(needs_quoting("with space"));
    assert!(needs_quoting("dollar$"));
    assert!(needs_quoting("quote'"));
    assert!(needs_quoting("ünicode"));
    assert!(!needs_quoting(""));
}

#[test]
fn escape_for_quoted_path_strings() {
    let mut out: Vec<char> = Vec::new();
    escape_nix_string_into("a\"b\\c${d}\n\te$f", &mut out);
    assert_eq!(text(&out), "a\\\"b\\\\c\\${d}\\n\\te$f");
}

#[test]
fn serializer_indent_writes_two_spaces_per_level() {
    let mut ser = Serializer::new();
    ser.indent_depth = 3;
    ser.indent();
    assert_eq!(text(&ser.output), "      ");
}

#[test]
fn serializer_encodes_into_buffer() {
    let mut ser = Serializer::new();
    ser.encode_value(&Value::Bool(true));
    assert_eq!(text(&ser.output), "true");
    assert_eq!(ser.indent_depth, 0);
}

#[test]
fn literal_wrapper_accessors() {
    let lit = NixLiteral::new("lib.mkForce true");
    assert_eq!(lit.as_str(), "lib.mkForce true");
    assert_eq!(lit.clone().into_string(), "lib.mkForce true");
}

#[test]
fn path_wrapper_accessors() {
    let owned = NixPathBuf::new("./a.nix");
    assert_eq!(owned.as_path(), "./a.nix");
    assert_eq!(owned.clone().into_path_buf(), "./a.nix");
    let borrowed = NixPath::new("/b.nix");
    assert_eq!(borrowed.as_path(), "/b.nix");
}

#[test]
fn error_carries_message() {
    let e = Error::Message("expected string".to_string());
    assert_eq!(e.message(), "expected string");
}

#[test]
fn nested_option_is_transparent() {
    // Some(v) encodes as v itself; None as null: the wrapper never shows.
    let v = Value::Record(vec![("depth".to_string(), Value::Int(3))]);
    assert_eq!(encode(&v).unwrap(), "{\n  depth = 3;\n}");
}

#[test]
fn block_string_nested_in_record_indents_deeper() {
    let s = format!("x\ny{}", "z".repeat(80));
    let v = Value::Record(vec![("text".to_string(), Value::Str(s))]);
    let expected = format!("{{\n  text = ''\n    x\n    y{}\n  '';\n}}", "z".repeat(80));
    assert_eq!(encode(&v).unwrap(), expected);
}

#[test]
fn empty_block_line_is_blanked() {
    // A blank source line inside a block string leaves an indentation-only
    // scaffold line, which the post-processor empties.
    let s = format!("a\n\nb{}", "c".repeat(76));
    let expected = format!("''\n  a\n\n  b{}\n''", "c".repeat(76));
    assert_eq!(encode(&Value::Str(s)).unwrap(), expected);
}
