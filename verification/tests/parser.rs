use gorpvm::assembly::{DefaultMode, Number, Postfix};
use gorpvm::parser::{
    literal, one_of, one_or_more, optional, pair, predicate, take_while, Parser,
};

#[test]
fn literal_matches_a_prefix() {
    assert_eq!(literal("ab").parse("abc"), Ok(("c", String::from("ab"))));
    assert_eq!(literal("ab").parse("ab"), Ok(("", String::from("ab"))));
    assert_eq!(literal("").parse("xyz"), Ok(("xyz", String::new())));
    assert_eq!(literal("ab").parse("a"), Err("a"));
    assert_eq!(literal("ab").parse("ba"), Err("ba"));
    assert_eq!(literal("ab").parse(""), Err(""));
    assert_eq!(literal("é").parse("éa"), Ok(("a", String::from("é"))));
}

#[test]
fn predicate_takes_one_character() {
    assert_eq!(predicate("abc", |c: char| c == 'a'), Ok(("bc", String::from("a"))));
    assert_eq!(predicate("abc", |c: char| c == 'b'), Err("abc"));
    assert_eq!(predicate("", |_c: char| true), Err(""));
    assert_eq!(predicate("éa", char::is_alphabetic), Ok(("a", String::from("é"))));
}

#[test]
fn take_while_is_greedy_and_never_fails() {
    assert_eq!(take_while("aaab", |c: char| c == 'a'), Ok(("b", String::from("aaa"))));
    assert_eq!(take_while("aaa", |c: char| c == 'a'), Ok(("", String::from("aaa"))));
    assert_eq!(take_while("baa", |c: char| c == 'a'), Ok(("baa", String::new())));
    assert_eq!(take_while("", |c: char| c == 'a'), Ok(("", String::new())));
    assert_eq!(take_while("٣٣x", char::is_numeric), Ok(("x", String::from("٣٣"))));
}

#[test]
fn one_or_more_needs_one_match() {
    assert_eq!(one_or_more("aab", |c: char| c == 'a'), Ok(("b", String::from("aa"))));
    assert_eq!(one_or_more("b", |c: char| c == 'a'), Err("b"));
    assert_eq!(one_or_more("", |c: char| c == 'a'), Err(""));
}

#[test]
fn optional_never_fails() {
    assert_eq!(optional(literal("a")).parse("ab"), Ok(("b", Some(String::from("a")))));
    assert_eq!(optional(literal("a")).parse("b"), Ok(("b", None)));
    assert_eq!(optional(literal("a")).parse(""), Ok(("", None)));
}

#[test]
fn pair_runs_both_or_reads_nothing() {
    let parser = pair(literal("a"), literal("b"));
    assert_eq!(parser.parse("abc"), Ok(("c", (String::from("a"), String::from("b")))));
    assert_eq!(parser.parse("acb"), Err("acb"));
    assert_eq!(parser.parse("bab"), Err("bab"));
    assert_eq!(parser.parse("a"), Err("a"));
}

#[test]
fn one_of_takes_the_first_that_matches() {
    let parser = one_of(vec![literal("ab"), literal("a"), literal("abc")]);
    assert_eq!(parser.parse("abcd"), Ok(("cd", String::from("ab"))));
    assert_eq!(parser.parse("acd"), Ok(("cd", String::from("a"))));
    assert_eq!(parser.parse("bcd"), Err("bcd"));
    let shadowed = one_of(vec![literal("a"), literal("ab")]);
    assert_eq!(shadowed.parse("ab"), Ok(("b", String::from("a"))));
    let none: Vec<gorpvm::parser::Literal> = Vec::new();
    assert_eq!(one_of(none).parse("a"), Err("a"));
}

#[test]
fn map_changes_the_value_only() {
    let parser = gorpvm::parser::map(pair(Number, optional(Postfix)), DefaultMode);
    assert_eq!(parser.parse("12 x"), Ok((" x", (String::from("12"), String::from("i")))));
    assert_eq!(parser.parse("12ox"), Ok(("x", (String::from("12"), String::from("o")))));
    assert_eq!(parser.parse("x"), Err("x"));
}

#[test]
fn number_and_postfix_read_digits_and_letters() {
    assert_eq!(Number.parse("0123x"), Ok(("x", String::from("0123"))));
    assert_eq!(Number.parse("x1"), Err("x1"));
    assert_eq!(Postfix.parse("Zz"), Ok(("z", String::from("Z"))));
    assert_eq!(Postfix.parse("1z"), Err("1z"));
    assert_eq!(Postfix.parse(""), Err(""));
}
