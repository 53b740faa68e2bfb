use zsp::runtime::table::{function_table, Origin};
use zsp::script::{consume, split_expression, split_string};

fn names(v: &[&str]) -> Vec<String> {
    v.iter().map(|s| s.to_string()).collect()
}

fn lookup(t: &[(String, Origin)], n: &str) -> Option<Origin> {
    t.iter().find(|(k, _)| k == n).map(|(_, o)| *o)
}

#[test]
fn program_functions_win_over_libraries_and_builtins() {
    let t = function_table(
        &names(&["put", "len", "get"]),
        &names(&["len", "fopen"]),
        &names(&["get", "main"]),
    );
    assert_eq!(lookup(&t, "put"), Some(Origin::Builtin(0)));
    assert_eq!(lookup(&t, "len"), Some(Origin::Library(0)));
    assert_eq!(lookup(&t, "fopen"), Some(Origin::Library(1)));
    assert_eq!(lookup(&t, "get"), Some(Origin::Program(0)));
    assert_eq!(lookup(&t, "main"), Some(Origin::Program(1)));
    assert_eq!(lookup(&t, "nothing"), None);
    assert_eq!(t.len(), 5);
}

#[test]
fn the_last_of_a_name_in_one_list_wins() {
    let t = function_table(&names(&["a", "a"]), &names(&[]), &names(&[]));
    assert_eq!(t, vec![("a".to_string(), Origin::Builtin(1))]);
}

#[test]
fn split_expression_gives_one_piece_more_than_splits() {
    let r = split_expression("a b \"c d\" e".to_string(), ' ');
    assert_eq!(r, vec!["a", "b", "\"c d\"", "e"]);
    let q = split_expression("x\"y\"z".to_string(), '"');
    assert_eq!(q, vec!["x\"y\"z"]);
}

#[test]
fn split_string_on_ascii_rejoins() {
    let (a, b) = split_string("print 1 + 2", " ");
    assert_eq!(a, "print");
    assert_eq!(format!("{} {}", a, b), "print 1 + 2");
    let (c, d) = split_string("nothing", ",");
    assert_eq!((c.as_str(), d.as_str()), ("nothing", ""));
}

#[test]
fn consume_leaves_a_piece_of_its_input() {
    let code = "print 1\nprint 2\n";
    let mut out = Vec::new();
    let rest = consume(code, &mut out).unwrap();
    assert!(code.contains(rest.as_str()));
    assert_eq!(rest, "print 2\n");
}
