use zsp::exceptions::{
    exception, exceptionbuilder, position_of, rtexception, split_lines, text_lines,
    unexpected_symbol_exception,
};
use zsp::parser::tokens::Symbol as ParserSymbol;
use zsp::library::{load_lib, manifest_from, read_manifest, JsonNode, JsonShape, LibError};
use zsp::native::Const;
use zsp::numbers::{i64_decimal, parse_i32, parse_i64};
use zsp::builtins::{string_at, string_substr};
use zsp::interpreter::exceptions::rule_width;
use zsp::text::{chars_of, string_of};
use zsp::zstd::{Func, Std};

fn chars(s: &str) -> Vec<char> {
    s.chars().collect()
}

#[test]
fn source_positions() {
    let c = chars("ab\ncd");
    let p = position_of(&c, 4);
    assert_eq!((p.line, p.column), (1, 2));
    let p = position_of(&c, 0);
    assert_eq!((p.line, p.column), (0, 0));
    let p = position_of(&c, 3);
    assert_eq!((p.line, p.column), (1, 1));
}

#[test]
fn lines_and_pieces() {
    assert_eq!(text_lines(&chars("a\r\nb\n")), vec!["a".to_string(), "b".to_string()]);
    assert_eq!(
        split_lines(&chars("a\r\nb\n")),
        vec!["a\r".to_string(), "b".to_string(), String::new()]
    );
    assert_eq!(text_lines(&chars("")), Vec::<String>::new());
    assert_eq!(split_lines(&chars("")), vec![String::new()]);
}

#[test]
fn core_exception_reports() {
    let src = "a\r\nbc".to_string();
    let r = exception(&src, 4, "UnexpectedSymbolException", "bad");
    assert_eq!(r.position.line, 1);
    assert_eq!(r.position.column, 2);
    assert_eq!(r.source_line, "bc");
    assert_eq!(r.errtype, "UnexpectedSymbolException");
    let r = exceptionbuilder(&src, 1, "E", "m");
    assert_eq!((r.position.line, r.position.column), (0, 1));
    assert_eq!(r.source_line, "a");
    let r = rtexception(&src, 5, "InvalidBreakException", "no loop");
    assert_eq!(r.message, "RUNTIME EXCEPTION: no loop");
    assert_eq!(r.position.column, 3);
}

#[test]
fn text_helpers() {
    // the substring crate's clamping, through the string method
    assert_eq!(string_substr("hello", 1, 3), "el");
    assert_eq!(string_substr("hello", 3, 1), "");
    assert_eq!(string_substr("héllo", 1, 10), "éllo");
    // byte lengths, through the report's rule width
    assert_eq!(rule_width(0, "é"), 11);
    // pushing characters, through building strings
    assert_eq!(string_at("abé", 2), "é");
    assert_eq!(string_of(&chars_of("xyz")), "xyz");
}

#[test]
fn integer_text() {
    assert_eq!(parse_i64(&chars("-12")), Some(-12));
    assert_eq!(parse_i64(&chars("+5")), Some(5));
    assert_eq!(parse_i64(&chars("12a")), None);
    assert_eq!(parse_i64(&chars("")), None);
    assert_eq!(parse_i64(&chars("-")), None);
    assert_eq!(parse_i64(&chars("9223372036854775808")), None);
    assert_eq!(parse_i64(&chars("-9223372036854775808")), Some(i64::MIN));
    assert_eq!(parse_i32(&chars("2147483648")), None);
    assert_eq!(parse_i32(&chars("-2147483648")), Some(i32::MIN));
    assert_eq!(string_of(&i64_decimal(-305)), "-305");
    assert_eq!(string_of(&i64_decimal(0)), "0");
    assert_eq!(string_of(&i64_decimal(i64::MIN)), "-9223372036854775808");
}

#[test]
fn standard_library_table() {
    let m = Std.get();
    assert_eq!(m, vec![("print", Func {})]);
}

#[test]
fn manifests() {
    let raw = r#"{"name":"fs","static_loc":"libfs.so","binds":{"fopen":{"args":["path","mode"],"bound_symbol":"zsp_fopen"},"fclose":{"args":[],"bound_symbol":"zsp_fclose"}}}"#;
    let m = read_manifest(raw).unwrap();
    assert_eq!(m.name, "fs");
    assert_eq!(m.static_loc, "libfs.so");
    assert_eq!(m.binds.len(), 2);
    assert_eq!(m.binds[0].name, "fopen");
    assert_eq!(m.binds[0].args, vec!["path".to_string(), "mode".to_string()]);
    assert_eq!(m.binds[0].bound_symbol, "zsp_fopen");
    assert_eq!(m.binds[1].name, "fclose");
    assert!(m.binds[1].args.is_empty());
    let lib = load_lib(m, true).unwrap();
    assert_eq!(lib.name, "fs");
    assert_eq!(lib.binds.len(), 2);
    // a missing field reads as null
    let m = read_manifest(r#"{"static_loc":"x.so"}"#).unwrap();
    assert_eq!(m.name, "null");
    assert!(m.binds.is_empty());
    assert_eq!(load_lib(m, false).unwrap_err(), LibError::MissingStaticObject("x.so".to_string()));
    assert_eq!(read_manifest("{not json").unwrap_err(), LibError::BadManifest);
}

#[test]
fn native_constants() {
    let a = Const::String("h".to_string());
    let b = Const::u32(3);
    assert_ne!(a, b);
    assert_eq!(b, Const::u32(3));
}

#[test]
fn decimal_round_trip() {
    for v in [0i64, 9, 10, -1, 123456789, i64::MAX, i64::MIN] {
        assert_eq!(parse_i64(&i64_decimal(v)), Some(v));
    }
    for v in [0i32, -7, i32::MAX, i32::MIN] {
        assert_eq!(parse_i32(&i64_decimal(v as i64)), Some(v));
    }
}

fn leaf(t: &str) -> JsonNode {
    JsonNode { text: t.to_string(), shape: JsonShape::Other }
}

#[test]
fn manifest_fields_are_chosen_from_the_tree() {
    // { "name": 3, "binds": { "f": { "args": "x", "bound_symbol": true } } }
    let entry = JsonNode {
        text: "{..}".to_string(),
        shape: JsonShape::Object(vec![
            ("args".to_string(), leaf("x")),
            ("bound_symbol".to_string(), leaf("true")),
        ]),
    };
    let binds = JsonNode {
        text: "{..}".to_string(),
        shape: JsonShape::Object(vec![("f".to_string(), entry)]),
    };
    let root = JsonNode {
        text: "{..}".to_string(),
        shape: JsonShape::Object(vec![("name".to_string(), leaf("3")), ("binds".to_string(), binds)]),
    };
    let m = manifest_from(&root);
    assert_eq!(m.name, "3");
    assert_eq!(m.static_loc, "null");
    assert_eq!(m.binds.len(), 1);
    assert_eq!(m.binds[0].name, "f");
    assert!(m.binds[0].args.is_empty());
    assert_eq!(m.binds[0].bound_symbol, "true");
    // a root that is not an object has only null fields
    let m = manifest_from(&leaf("1"));
    assert_eq!((m.name.as_str(), m.static_loc.as_str()), ("null", "null"));
    assert!(m.binds.is_empty());
}

#[test]
fn manifest_values_read_as_json_prints_them() {
    let m = read_manifest(r#"{"name":12,"static_loc":"a","binds":{"g":{"args":[1,"b",[2]],"bound_symbol":"s"}}}"#).unwrap();
    assert_eq!(m.name, "12");
    assert_eq!(m.binds[0].args, vec!["1".to_string(), "b".to_string(), "[2]".to_string()]);
}

#[test]
fn unexpected_symbol_reports_name_the_expected_symbols() {
    let src = "a b\nc d".to_string();
    let one = unexpected_symbol_exception(&src, 3, &ParserSymbol::Break, &vec!["}".to_string()]);
    assert_eq!(one.errtype, "UnexpectedSymbolException");
    assert_eq!(one.message, "Expected the symbol: , }");
    assert_eq!(one.position.line, 0);
    assert_eq!(one.position.column, 3);
    let two = unexpected_symbol_exception(
        &src,
        6,
        &ParserSymbol::Break,
        &vec!["{".to_string(), "(".to_string()],
    );
    assert_eq!(two.message, "Expected one of the following symbols: , {, (");
    assert_eq!(two.source_line, "c d");
    let rt = rtexception(&src, 6, "E", "m");
    let plain = exception(&src, 6, "E", "RUNTIME EXCEPTION: m");
    assert_eq!((rt.message, rt.source_line, rt.position), (plain.message, plain.source_line, plain.position));
}
