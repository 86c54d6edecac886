use ser_nix::{encode, NixPath, NixPathBuf, Value};

fn record(fields: Vec<(&str, Value)>) -> Value {
    Value::Record(fields.into_iter().map(|(k, v)| (k.to_string(), v)).collect())
}

#[test]
fn path_with_serialize_with() {
    let config = record(vec![
        ("source", Value::Path("./hardware-configuration.nix".to_string())),
        ("config", Value::Path("/etc/nixos/configuration.nix".to_string())),
    ]);

    let config_str = encode(&config).unwrap();

    let expected = "{\n  source = ./hardware-configuration.nix;\n  config = /etc/nixos/configuration.nix;\n}";

    assert_eq!(config_str, expected);
}

#[test]
fn path_with_nix_path_buf_wrapper() {
    let config = record(vec![
        ("source", NixPathBuf::new("./hardware-configuration.nix").to_value()),
        ("config", NixPathBuf::new("/etc/nixos/configuration.nix").to_value()),
    ]);

    let config_str = encode(&config).unwrap();

    let expected = "{\n  source = ./hardware-configuration.nix;\n  config = /etc/nixos/configuration.nix;\n}";

    assert_eq!(config_str, expected);
}

#[test]
fn nix_path_borrowed() {
    let nix_path = NixPath::new("./test.nix");

    let result = encode(&nix_path.to_value()).unwrap();
    assert_eq!(result, "./test.nix");
}

#[test]
fn optional_path() {
    let config = record(vec![
        ("owned", NixPathBuf::new("./owned.nix").to_value()),
        ("borrowed", NixPath::new("./borrowed.nix").to_value()),
        ("none", Value::Null),
    ]);

    let config_str = encode(&config).unwrap();

    let expected = "{\n  owned = ./owned.nix;\n  borrowed = ./borrowed.nix;\n  none = null;\n}";

    assert_eq!(config_str, expected);
}

#[test]
fn relative_path_gets_prefix() {
    // Paths without ./ prefix get it automatically
    let path = NixPathBuf::new("foo.nix");
    let result = encode(&path.to_value()).unwrap();
    assert_eq!(result, "./foo.nix");

    // Paths with ./ prefix stay unchanged
    let path = NixPathBuf::new("./foo.nix");
    let result = encode(&path.to_value()).unwrap();
    assert_eq!(result, "./foo.nix");

    // Paths with ../ prefix stay unchanged
    let path = NixPathBuf::new("../foo.nix");
    let result = encode(&path.to_value()).unwrap();
    assert_eq!(result, "../foo.nix");

    // Absolute paths stay unchanged
    let path = NixPathBuf::new("/etc/nixos/foo.nix");
    let result = encode(&path.to_value()).unwrap();
    assert_eq!(result, "/etc/nixos/foo.nix");
}

#[test]
fn path_with_spaces() {
    // Relative path without prefix
    let path = NixPathBuf::new("path with spaces.nix");
    let result = encode(&path.to_value()).unwrap();
    assert_eq!(result, r#"./. + "path with spaces.nix""#);

    // Relative path with ./ prefix
    let path = NixPathBuf::new("./path with spaces.nix");
    let result = encode(&path.to_value()).unwrap();
    assert_eq!(result, r#"./. + "path with spaces.nix""#);

    // Relative path with ../ prefix
    let path = NixPathBuf::new("../path with spaces.nix");
    let result = encode(&path.to_value()).unwrap();
    assert_eq!(result, r#"../. + "path with spaces.nix""#);

    // Absolute path
    let path = NixPathBuf::new("/etc/nixos/path with spaces.nix");
    let result = encode(&path.to_value()).unwrap();
    assert_eq!(result, r#"/. + "/etc/nixos/path with spaces.nix""#);
}

#[test]
fn path_with_special_chars() {
    // Path with double quotes - must be escaped
    let path = NixPathBuf::new(r#"path"with"quotes.nix"#);
    let result = encode(&path.to_value()).unwrap();
    assert_eq!(result, r#"./. + "path\"with\"quotes.nix""#);

    // Path with single quotes - outside the bare path-literal set, so quoted
    let path = NixPathBuf::new("path'with'quotes.nix");
    let result = encode(&path.to_value()).unwrap();
    assert_eq!(result, r#"./. + "path'with'quotes.nix""#);

    // Path with dollar sign not followed by { - quoted, the $ itself unescaped
    let path = NixPathBuf::new("path$var.nix");
    let result = encode(&path.to_value()).unwrap();
    assert_eq!(result, r#"./. + "path$var.nix""#);

    // Path with ${ - must be escaped
    let path = NixPathBuf::new("path${var}.nix");
    let result = encode(&path.to_value()).unwrap();
    assert_eq!(result, r#"./. + "path\${var}.nix""#);

    // Path with backslash - must be escaped
    let path = NixPathBuf::new(r"path\with\backslash.nix");
    let result = encode(&path.to_value()).unwrap();
    assert_eq!(result, r#"./. + "path\\with\\backslash.nix""#);
}
