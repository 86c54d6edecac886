use ser_nix::{encode, Value};

fn record(fields: Vec<(&str, Value)>) -> Value {
    Value::Record(fields.into_iter().map(|(k, v)| (k.to_string(), v)).collect())
}

#[test]
fn foo() {
    let str = String::from("Hello World!");

    let ser = encode(&Value::Str(str)).unwrap();

    assert_eq!(ser, String::from("\"Hello World!\""));
}

#[test]
fn simple_struct() {
    let foo = record(vec![
        ("a", Value::Int(42)),
        ("b", Value::Str(String::from("Hi!"))),
        ("c", Value::Bool(true)),
    ]);

    let foo_str = encode(&foo).unwrap();

    let expected = "{\n  a = 42;\n  b = \"Hi!\";\n  c = true;\n}";

    assert_eq!(foo_str, expected);
}

#[test]
fn map() {
    let map = Value::Dict(vec![
        (Value::Str("enable".to_string()), Value::Bool(true)),
        (Value::Str("with-setting".to_string()), Value::Bool(true)),
    ]);

    let map_str = encode(&map).unwrap();

    let expected = "{\n  enable = true;\n  with-setting = true;\n}";

    assert_eq!(map_str, expected);
}

fn book(name: &str) -> Value {
    record(vec![
        ("name", Value::Str(name.to_string())),
        ("author", Value::Str("Christopher Paolini".to_string())),
        ("read", Value::Bool(true)),
    ])
}

#[test]
fn nested() {
    let library = Value::Dict(
        ["Eragon", "Eldest", "Brisngr", "Inheritance", "Murtagh"]
            .iter()
            .map(|name| (Value::Str(name.to_string()), book(name)))
            .collect(),
    );

    let libraries = Value::List(vec![library]);

    let libraries_str = encode(&libraries).unwrap();

    let expected = "[\n  {\n    Eragon = {\n      name = \"Eragon\";\n      author = \"Christopher Paolini\";\n      read = true;\n    };\n    Eldest = {\n      name = \"Eldest\";\n      author = \"Christopher Paolini\";\n      read = true;\n    };\n    Brisngr = {\n      name = \"Brisngr\";\n      author = \"Christopher Paolini\";\n      read = true;\n    };\n    Inheritance = {\n      name = \"Inheritance\";\n      author = \"Christopher Paolini\";\n      read = true;\n    };\n    Murtagh = {\n      name = \"Murtagh\";\n      author = \"Christopher Paolini\";\n      read = true;\n    };\n  }\n]";

    assert_eq!(libraries_str, expected);
}

#[test]
fn string() {
    let test = String::from("${} $ \" \t \n ' \\");

    let test_str = encode(&Value::Str(test)).unwrap();

    let expected = String::from("\"''${} $ \\\" \\t \\n ' \\\\\"");

    assert_eq!(test_str, expected);
}

#[test]
fn multiline_string() {
    let longer = "Lorem ipsum 'dolor ''sit amet,\nconsectetur adipiscing elit,\nseddo eiusmod \ttempor incididunt\nut labore et dolore magnam\naliquam ${} \" quaerat voluptatem. Ut\nenim aeque doleamus animo, cum\ncorpore $ dolemus, \\ fieri tamen\npermagna accessio potest, si\naliquod aeternum et infinitum\nimpendere malum nobis opinemur.\nQuod idem licet transferre in\nvoluptatem, ut.";

    let longer_test = encode(&Value::Str(longer.to_string())).unwrap();

    let expected = "''\n  Lorem ipsum 'dolor '''sit amet,\n  consectetur adipiscing elit,\n  seddo eiusmod \ttempor incididunt\n  ut labore et dolore magnam\n  aliquam ''${} \" quaerat voluptatem. Ut\n  enim aeque doleamus animo, cum\n  corpore $ dolemus, \\ fieri tamen\n  permagna accessio potest, si\n  aliquod aeternum et infinitum\n  impendere malum nobis opinemur.\n  Quod idem licet transferre in\n  voluptatem, ut.\n''";

    assert_eq!(longer_test, expected);
}

#[test]
fn none() {
    let none = record(vec![("a", Value::Int(32)), ("b", Value::Null)]);

    let none_test = encode(&none).unwrap();

    let expected = "{\n  a = 32;\n  b = null;\n}";

    assert_eq!(none_test, expected);
}

#[test]
fn none_map() {
    let none_map = Value::Dict(vec![
        (Value::Int(1), Value::Int(1)),
        (Value::Int(2), Value::Null),
        (Value::Int(3), Value::Int(3)),
    ]);

    let none_map_test = encode(&none_map).unwrap();

    let expected = "{\n  1 = 1;\n  2 = null;\n  3 = 3;\n}";

    assert_eq!(none_map_test, expected);
}

#[test]
fn skip_serializing_if_none() {
    let none = record(vec![("a", Value::Int(32)), ("c", Value::Int(64))]);

    let none_test = encode(&none).unwrap();

    let expected = "{\n  a = 32;\n  c = 64;\n}";

    assert_eq!(none_test, expected);
}

#[test]
fn newtype_var() {
    let newtype_var = Value::NewtypeVariant("Inches".to_string(), Box::new(Value::UInt(8)));

    let newtype_var_test = encode(&newtype_var).unwrap();

    let expected = String::from("{ inches = 8; }");

    assert_eq!(newtype_var_test, expected);
}
