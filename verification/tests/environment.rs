use dotenv_codegen::entry::{ParseError, ParseErrorKind, ParsedEntry};
use dotenv_codegen::environment::{fold, fold_pass, Environment};
use dotenv_codegen::parser::{parse, Parser};

#[test]
fn later_entry_of_a_name_wins() {
    let results = parse("NAME=first\nOTHER=x\nNAME=second\n");
    assert_eq!(results.len(), 3);
    let env = fold(&results).unwrap();
    assert_eq!(env.get("NAME"), Some("second"));
    assert_eq!(env.get("OTHER"), Some("x"));
    assert_eq!(env.len(), 2);
}

#[test]
fn file_with_comment_folds_to_its_two_variables() {
    let env = fold(&parse("FOO=bar\n# comment\nBAZ=\"hi there\"\n")).unwrap();
    assert_eq!(env.get("FOO"), Some("bar"));
    assert_eq!(env.get("BAZ"), Some("hi there"));
    assert_eq!(env.get("comment"), None);
    assert_eq!(env.len(), 2);
}

#[test]
fn fold_returns_the_first_error() {
    let results = parse("A=1\nB='x\nC=\"\\q\"\n");
    assert_eq!(
        fold(&results).err(),
        Some(ParseError { line: 2, kind: ParseErrorKind::UnterminatedQuote })
    );
}

#[test]
fn empty_environment_binds_nothing() {
    let env = Environment::new();
    assert_eq!(env.len(), 0);
    assert_eq!(env.get("A"), None);
    let env = fold(&Vec::new()).unwrap();
    assert_eq!(env.len(), 0);
}

#[test]
fn insert_overwrites_in_place() {
    let mut env = Environment::new();
    env.insert(ParsedEntry::new("A", "1").unwrap());
    env.insert(ParsedEntry::new("B", "2").unwrap());
    env.insert(ParsedEntry::new("A", "3").unwrap());
    assert_eq!(env.get("A"), Some("3"));
    assert_eq!(env.get("B"), Some("2"));
    assert_eq!(env.len(), 2);
}

#[test]
fn pass_folds_like_its_results() {
    let env = fold_pass(Parser::new("A=1\nB=2\nA=3\n")).unwrap();
    assert_eq!(env.get("A"), Some("3"));
    assert_eq!(env.get("B"), Some("2"));
    assert_eq!(env.len(), 2);
    assert_eq!(
        fold_pass(Parser::new("A=1\n=x\nB='open\n")).err(),
        Some(ParseError { line: 2, kind: ParseErrorKind::InvalidIdentifier })
    );
    assert_eq!(fold_pass(Parser::new("")).unwrap().len(), 0);
}
