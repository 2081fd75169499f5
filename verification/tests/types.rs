use frontmatter_gen::types::escape_str;
use frontmatter_gen::{Format, Frontmatter, Value};

fn num(x: f64) -> Value {
    Value::Number(x.to_bits())
}

#[test]
fn test_format_default() {
    assert_eq!(Format::default(), Format::Json);
}

#[test]
fn test_value_default() {
    assert_eq!(Value::default(), Value::Null);
}

#[test]
fn test_value_as_str() {
    let value = Value::String("Hello".to_string());
    assert_eq!(value.as_str(), Some("Hello"));

    let value = num(42.0);
    assert_eq!(value.as_str(), None);
}

#[test]
fn test_value_as_bool() {
    let value = Value::Boolean(true);
    assert_eq!(value.as_bool(), Some(true));

    let value = Value::String("Not a boolean".to_string());
    assert_eq!(value.as_bool(), None);
}

#[test]
fn test_value_is_null() {
    assert!(Value::Null.is_null());
    assert!(!Value::String("Not null".to_string()).is_null());
}

#[test]
fn test_value_is_string() {
    assert!(Value::String("test".to_string()).is_string());
    assert!(!num(42.0).is_string());
}

#[test]
fn test_value_is_number() {
    assert!(num(42.0).is_number());
    assert!(!Value::String("42".to_string()).is_number());
}

#[test]
fn test_value_is_boolean() {
    assert!(Value::Boolean(true).is_boolean());
    assert!(!Value::String("true".to_string()).is_boolean());
}

#[test]
fn test_value_as_array() {
    let value = Value::Array(vec![Value::Null, Value::Boolean(false)]);
    assert!(value.as_array().is_some());
    assert_eq!(value.as_array().unwrap().len(), 2);

    assert!(Value::String("Not an array".to_string()).as_array().is_none());
}

#[test]
fn test_value_as_object() {
    let mut fm = Frontmatter::new();
    let _ = fm.insert("key".to_string(), Value::String("value".to_string()));
    let value = Value::Object(Box::new(fm.clone()));
    assert_eq!(value.as_object().unwrap(), &fm);

    assert!(Value::String("Not an object".to_string()).as_object().is_none());
}

#[test]
fn test_value_to_object() {
    let fm = Frontmatter::new();
    let obj = Value::Object(Box::new(fm.clone()));
    assert_eq!(obj.to_object().unwrap(), fm);

    assert!(Value::String("Not an object".to_string()).to_object().is_err());
}

#[test]
fn test_frontmatter_new() {
    let fm = Frontmatter::new();
    assert!(fm.is_empty());
    assert_eq!(fm.len(), 0);
}

#[test]
fn test_frontmatter_insert_and_get() {
    let mut fm = Frontmatter::new();
    let _ = fm.insert("title".to_string(), Value::String("Hello World".to_string()));

    assert_eq!(
        fm.get("title"),
        Some(&Value::String("Hello World".to_string()))
    );
}

#[test]
fn test_frontmatter_len_and_is_empty() {
    let mut fm = Frontmatter::new();
    assert!(fm.is_empty());

    let _ = fm.insert("key1".to_string(), Value::Null);
    assert_eq!(fm.len(), 1);
    assert!(!fm.is_empty());
}

#[test]
fn test_frontmatter_merge() {
    let mut fm1 = Frontmatter::new();
    let _ = fm1.insert("key1".to_string(), Value::String("value1".to_string()));

    let mut fm2 = Frontmatter::new();
    let _ = fm2.insert("key2".to_string(), num(42.0));

    fm1.merge(fm2);
    assert_eq!(fm1.len(), 2);
    assert_eq!(fm1.get("key2"), Some(&num(42.0)));
}

#[test]
fn test_frontmatter_is_null() {
    let mut fm = Frontmatter::new();
    let _ = fm.insert("key".to_string(), Value::Null);

    assert!(fm.is_null("key"));
    assert!(!fm.is_null("nonexistent_key"));
}

#[test]
fn test_escape_str() {
    assert_eq!(escape_str(r#"Hello "World""#), r#"Hello \"World\""#);
    assert_eq!(escape_str(r#"C:\path\to\file"#), r#"C:\\path\\to\\file"#);
}

#[test]
fn test_escape_str_empty() {
    assert_eq!(escape_str(""), "");
}

#[test]
fn test_frontmatter_clear() {
    let mut fm = Frontmatter::new();
    let _ = fm.insert("key1".to_string(), Value::String("value1".to_string()));
    let _ = fm.insert("key2".to_string(), num(42.0));

    fm.clear();
    assert!(fm.is_empty());
    assert_eq!(fm.len(), 0);
}

#[test]
fn test_frontmatter_capacity_and_reserve() {
    let mut fm = Frontmatter::new();
    let initial_capacity = fm.capacity();

    fm.reserve(10);
    assert!(fm.capacity() >= initial_capacity + 10);
}

#[test]
fn test_value_tagged() {
    let tagged_value = Value::Tagged("tag".to_string(), Box::new(num(42.0)));

    if let Value::Tagged(tag, value) = tagged_value {
        assert_eq!(tag, "tag");
        assert_eq!(*value, num(42.0));
    } else {
        panic!("Expected Value::Tagged");
    }
}

#[test]
fn test_value_array_mutation() {
    let mut value = Value::Array(vec![num(1.0), num(2.0)]);

    if let Some(array) = value.get_mut_array() {
        array.push(num(3.0));
    }

    assert_eq!(value.array_len(), Some(3));
    assert!(value.as_array().unwrap().contains(&num(3.0)));
}

#[test]
fn test_frontmatter_empty_iterator() {
    let fm = Frontmatter::new();
    let mut iter = fm.iter();

    assert!(iter.next().is_none());
}

#[test]
fn test_frontmatter_duplicate_merge() {
    let mut fm1 = Frontmatter::new();
    let _ = fm1.insert("key1".to_string(), Value::String("value1".to_string()));

    let mut fm2 = Frontmatter::new();
    let _ = fm2.insert("key1".to_string(), Value::String("new_value".to_string()));

    fm1.merge(fm2);

    assert_eq!(
        fm1.get("key1"),
        Some(&Value::String("new_value".to_string()))
    );
}

#[test]
fn test_escape_str_edge_cases() {
    let special_chars = r#"Special \chars\n\t"#;
    assert_eq!(escape_str(special_chars), r#"Special \\chars\\n\\t"#);
}

#[test]
fn insert_returns_previous_value_and_remove_undoes_insert() {
    let mut fm = Frontmatter::new();
    assert_eq!(fm.insert("b".to_string(), Value::Boolean(true)), None);
    assert_eq!(
        fm.insert("b".to_string(), Value::Boolean(false)),
        Some(Value::Boolean(true))
    );
    assert_eq!(fm.get("b"), Some(&Value::Boolean(false)));
    assert_eq!(fm.len(), 1);
    let before = fm.clone();
    let _ = fm.insert("a".to_string(), Value::Null);
    assert_eq!(fm.remove("a"), Some(Value::Null));
    assert_eq!(fm, before);
    assert_eq!(fm.remove("missing"), None);
}

#[test]
fn entries_are_kept_in_key_order() {
    let mut fm = Frontmatter::new();
    for k in ["zeta", "alpha", "mid", "Beta", "é"] {
        let _ = fm.insert(k.to_string(), Value::Null);
    }
    let keys: Vec<&str> = fm.as_slice().iter().map(|(k, _)| k.as_str()).collect();
    assert_eq!(keys, vec!["Beta", "alpha", "mid", "zeta", "é"]);
    assert!(fm.contains_key("mid"));
    assert!(!fm.contains_key("Mid"));
}

#[test]
fn same_entries_in_any_order_are_equal() {
    let mut a = Frontmatter::new();
    let _ = a.insert("x".to_string(), num(1.0));
    let _ = a.insert("y".to_string(), num(2.0));
    let mut b = Frontmatter::new();
    let _ = b.insert("y".to_string(), num(2.0));
    let _ = b.insert("x".to_string(), num(1.0));
    assert_eq!(a, b);
}

#[test]
fn value_accessors_and_conversions() {
    let t = Value::Tagged("!t".to_string(), Box::new(Value::Boolean(true)));
    let (tag, inner) = t.as_tagged().unwrap();
    assert_eq!(tag, "!t");
    assert_eq!(inner, &Value::Boolean(true));
    assert!(t.is_tagged());
    assert!(Value::Null.as_tagged().is_none());
    assert_eq!(Value::Null.array_len(), None);
    assert_eq!(Value::String("s".to_string()).into_string(), Ok("s".to_string()));
    assert_eq!(
        Value::Null.into_string(),
        Err("Value is not a string".to_string())
    );
    assert_eq!(Value::Boolean(true).into_bool(), Ok(true));
    assert_eq!(num(1.0).into_bool(), Err("Value is not a boolean".to_string()));
    assert_eq!(
        Value::Null.to_object(),
        Err("Value is not an object".to_string())
    );
    assert!(Value::Object(Box::new(Frontmatter::new())).is_object());
    assert!(Value::Array(vec![]).is_array());
    assert_eq!(Value::from(true), Value::Boolean(true));
    assert_eq!(Value::from("x".to_string()), Value::String("x".to_string()));
}

#[test]
fn clone_copies_nested_values() {
    let mut inner = Frontmatter::new();
    let _ = inner.insert("k".to_string(), Value::Array(vec![num(1.5), Value::Null]));
    let v = Value::Tagged("t".to_string(), Box::new(Value::Object(Box::new(inner))));
    assert_eq!(v.clone(), v);
}

#[test]
fn escape_then_unescape_gives_back_the_text() {
    let original = "a\"b\\c\u{e9}";
    let escaped = escape_str(original);
    assert_eq!(escaped, "a\\\"b\\\\c\u{e9}");
    let mut back = String::new();
    let mut chars = escaped.chars();
    while let Some(c) = chars.next() {
        if c == '\\' {
            back.push(chars.next().unwrap());
        } else {
            back.push(c);
        }
    }
    assert_eq!(back, original);
}

#[test]
fn format_names() {
    assert_eq!(Format::Yaml.to_string(), "YAML");
    assert_eq!(Format::Toml.to_string(), "TOML");
    assert_eq!(Format::Json.to_string(), "JSON");
    assert_eq!(Format::Unsupported.to_string(), "Unsupported");
}

#[test]
fn get_mut_changes_a_value_in_place() {
    let mut fm = Frontmatter::new();
    let _ = fm.insert("count".to_string(), num(1.0));
    if let Some(v) = fm.get_mut("count") {
        *v = num(2.0);
    }
    assert_eq!(fm.get("count"), Some(&num(2.0)));
    assert!(fm.get_mut("missing").is_none());
    assert_eq!(fm.len(), 1);
}

#[test]
fn keywords_ignore_letter_case() {
    assert_eq!(Value::parse_keyword("null"), Some(Value::Null));
    assert_eq!(Value::parse_keyword("NuLL"), Some(Value::Null));
    assert_eq!(Value::parse_keyword("TRUE"), Some(Value::Boolean(true)));
    assert_eq!(Value::parse_keyword("False"), Some(Value::Boolean(false)));
    assert_eq!(Value::parse_keyword("nul"), None);
    assert_eq!(Value::parse_keyword("42"), None);
    assert_eq!(Value::parse_keyword(""), None);
}

#[test]
fn escaping_adds_one_byte_per_quote_and_backslash() {
    let s = r#"a"b\c""#;
    assert_eq!(escape_str(s).len(), s.len() + 3);
    assert_eq!(escape_str("plain"), "plain");
}

#[test]
fn values_changed_in_place_by_index() {
    let mut fm = Frontmatter::new();
    let _ = fm.insert("b".to_string(), Value::Null);
    let _ = fm.insert("a".to_string(), Value::Boolean(false));
    for i in 0..fm.len() {
        *fm.value_at_index_mut(i) = Value::Boolean(true);
    }
    assert_eq!(fm.get("a"), Some(&Value::Boolean(true)));
    assert_eq!(fm.get("b"), Some(&Value::Boolean(true)));
    assert_eq!(fm.len(), 2);
}
