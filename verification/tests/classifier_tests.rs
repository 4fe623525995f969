use dum_lang::utilities::{extract_string, is_float, is_int, is_string, is_var, strip_quotes_exec};

#[test]
fn int_literals() {
    assert!(is_int(&String::from("0")));
    assert!(is_int(&String::from("123")));
    assert!(!is_int(&String::from("")));
    assert!(!is_int(&String::from("12a")));
    assert!(!is_int(&String::from("-3")));
    assert!(!is_int(&String::from("1.5")));
}

#[test]
fn float_literals() {
    assert!(is_float(&String::from("1.5")));
    assert!(is_float(&String::from("10.25")));
    assert!(is_float(&String::from("0.0")));
    assert!(!is_float(&String::from("1.")));
    assert!(!is_float(&String::from(".5")));
    assert!(!is_float(&String::from("1")));
    assert!(!is_float(&String::from("1.5.2")));
    assert!(!is_float(&String::from("")));
    assert!(!is_float(&String::from("-1.5")));
}

#[test]
fn identifiers() {
    assert!(is_var(&String::from("a")));
    assert!(is_var(&String::from("abc123")));
    assert!(is_var(&String::from("Exit")));
    assert!(is_var(&String::from("exit")));
    assert!(!is_var(&String::from("1ab")));
    assert!(!is_var(&String::from("ab1c")));
    assert!(!is_var(&String::from("")));
    assert!(!is_var(&String::from("a_b")));
}

#[test]
fn quoted_strings() {
    assert!(is_string(&String::from("''")));
    assert!(is_string(&String::from("'a'")));
    assert!(is_string(&String::from("'12'")));
    assert!(!is_string(&String::from("'")));
    assert!(!is_string(&String::from("a'")));
    assert!(!is_string(&String::from("'a")));
    assert!(!is_string(&String::from("")));
}

#[test]
fn extract_resolves_escaped_quote() {
    assert_eq!(extract_string("'it\\'s ok'"), Ok(String::from("'it's ok'")));
}

#[test]
fn extract_empty_string() {
    assert_eq!(extract_string("''"), Ok(String::from("''")));
}

#[test]
fn extract_copies_escaped_character_verbatim() {
    // The character after the backslash is copied as itself, not decoded.
    assert_eq!(extract_string("'a\\nb'"), Ok(String::from("'anb'")));
    assert_eq!(extract_string("'a\\\\b'"), Ok(String::from("'a\\b'")));
}

#[test]
fn extract_rejects_unknown_escape() {
    assert_eq!(extract_string("'a\\qb'"), Err('q'));
}

#[test]
fn strip_removes_every_quote() {
    assert_eq!(strip_quotes_exec("'hi'"), String::from("hi"));
    assert_eq!(strip_quotes_exec("'a'b'"), String::from("ab"));
    assert_eq!(strip_quotes_exec("plain"), String::from("plain"));
}
