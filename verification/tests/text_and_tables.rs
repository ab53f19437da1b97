use lisette_highlight::snapshot::{Definition, DefinitionBody, Definitions, Type};
use lisette_highlight::text::{find_byte_in, find_dot_dot_in, leading_ws_len, trailing_ws_len};

#[test]
fn white_space_is_measured_in_bytes() {
    let text = " \t+ \n".as_bytes();
    assert_eq!(leading_ws_len(text, 0, text.len()), 2);
    assert_eq!(trailing_ws_len(text, 0, text.len()), 2);
    assert_eq!(leading_ws_len(text, 2, 3), 0);
}

#[test]
fn unicode_white_space_is_trimmed() {
    // No-break space (two bytes) and ideographic space (three bytes).
    let text = "\u{a0}==\u{3000}".as_bytes();
    assert_eq!(leading_ws_len(text, 0, text.len()), 2);
    assert_eq!(trailing_ws_len(text, 0, text.len()), 3);
    let all_space = "\u{2028} \u{85}".as_bytes();
    assert_eq!(leading_ws_len(all_space, 0, all_space.len()), all_space.len());
}

#[test]
fn dot_dot_is_found_first() {
    let text = "a . ..b..".as_bytes();
    assert_eq!(find_dot_dot_in(text, 0, text.len()), Some(4));
    assert_eq!(find_dot_dot_in(text, 5, text.len()), Some(2));
    assert_eq!(find_dot_dot_in(text, 0, 4), None);
}

#[test]
fn byte_is_found_first() {
    let text = "x)? ?".as_bytes();
    assert_eq!(find_byte_in(text, 0, text.len(), b'?'), Some(2));
    assert_eq!(find_byte_in(text, 3, text.len(), b'?'), Some(1));
    assert_eq!(find_byte_in(text, 0, 2, b'?'), None);
}

fn value_def() -> Definition {
    Definition { body: DefinitionBody::Value, ty: Type::Other }
}

#[test]
fn definitions_keep_the_last_insert_per_name() {
    let mut defs = Definitions::new();
    assert!(defs.get(&"main.f".to_string()).is_none());
    defs.insert("main.f".to_string(), value_def());
    defs.insert("main.T".to_string(), Definition { body: DefinitionBody::Interface, ty: Type::Other });
    defs.insert("main.f".to_string(), Definition { body: DefinitionBody::TypeAlias, ty: Type::Other });
    assert!(matches!(defs.get(&"main.f".to_string()).unwrap().body, DefinitionBody::TypeAlias));
    assert!(matches!(defs.get(&"main.T".to_string()).unwrap().body, DefinitionBody::Interface));
    assert!(defs.get(&"main.g".to_string()).is_none());
}
