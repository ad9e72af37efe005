use dotenv_codegen::arguments::{
    assignment_argument, literal_value, plain, read_arguments, read_literals, Argument,
    ArgumentError, Literal,
};
use dotenv_codegen::config::{
    build_filename, lookup_request, module_config, LookupRequest, ModuleConfig,
};

fn assign(target: &str, text: &str, visibility: Option<&str>) -> Argument {
    Argument::Assign {
        target: target.to_string(),
        literal: Some(Literal { text: text.to_string(), visibility: visibility.map(str::to_string) }),
    }
}

fn not_literal(target: &str) -> Argument {
    Argument::Assign { target: target.to_string(), literal: None }
}

#[test]
fn string_literal_denotes_its_text() {
    assert_eq!(literal_value("\".env\""), Some(".env".to_string()));
    assert_eq!(literal_value("\"\""), Some("".to_string()));
    assert_eq!(literal_value("\"a\\nb\""), Some("a\nb".to_string()));
    assert_eq!(literal_value("\"say \\\"hi\\\"\""), Some("say \"hi\"".to_string()));
    assert_eq!(literal_value("r\"raw\\n\""), Some("raw\\n".to_string()));
    assert_eq!(literal_value("r#\"a\"b\"#"), Some("a\"b".to_string()));
    assert_eq!(literal_value("\"gr\u{fc}\u{df}e\""), Some("gr\u{fc}\u{df}e".to_string()));
}

#[test]
fn other_text_denotes_no_string() {
    assert_eq!(literal_value(""), None);
    assert_eq!(literal_value(".env"), None);
    assert_eq!(literal_value("42"), None);
    assert_eq!(literal_value("'c'"), None);
    assert_eq!(literal_value("\"open"), None);
    assert_eq!(literal_value("\"a\" + \"b\""), None);
    assert_eq!(literal_value("b\"bytes\""), None);
}

#[test]
fn text_that_ends_outside_ascii_denotes_no_string() {
    assert_eq!(literal_value("\"a\\n\" . \u{e9}"), None);
    assert_eq!(literal_value("\u{e9}"), None);
}

#[test]
fn assignment_argument_reads_literal_and_visibility() {
    assert_eq!(
        assignment_argument("visibility".to_string(), "\"pub\"".to_string()),
        assign("visibility", "pub", Some("pub"))
    );
    assert_eq!(
        assignment_argument("filename".to_string(), "\"a b\"".to_string()),
        assign("filename", "a b", None)
    );
    assert_eq!(assignment_argument("filename".to_string(), "name".to_string()), not_literal("filename"));
}

#[test]
fn arguments_are_read_in_order() {
    assert_eq!(read_arguments(""), Ok(vec![]));
    assert_eq!(
        read_arguments("filename = \".env.test\", visibility = \"pub\""),
        Ok(vec![assign("filename", ".env.test", None), assign("visibility", "pub", Some("pub"))])
    );
    assert_eq!(
        read_arguments("other = x, \"x\", visibility = \"\","),
        Ok(vec![not_literal("other"), Argument::Other, assign("visibility", "", Some(""))])
    );
}

#[test]
fn arguments_that_are_no_expressions_are_refused() {
    assert_eq!(read_arguments("filename = "), Err(ArgumentError::Syntax));
    assert_eq!(read_arguments("a b"), Err(ArgumentError::Syntax));
    assert_eq!(read_arguments("\"open"), Err(ArgumentError::Syntax));
}

#[test]
fn literals_are_read_in_order() {
    assert_eq!(read_literals(""), Ok(vec![]));
    assert_eq!(read_literals("\"NAME\""), Ok(vec!["NAME".to_string()]));
    assert_eq!(
        read_literals("\"NAME\", \"not\\tthere\","),
        Ok(vec!["NAME".to_string(), "not\tthere".to_string()])
    );
    assert_eq!(read_literals("NAME"), Err(ArgumentError::Syntax));
    assert_eq!(read_literals("\"NAME\" \"x\""), Err(ArgumentError::Syntax));
}

#[test]
fn build_reads_its_first_argument_only() {
    assert_eq!(build_filename(&vec![]), Ok(".env".to_string()));
    assert_eq!(build_filename(&vec![assign("filename", "x.env", None)]), Ok("x.env".to_string()));
    assert_eq!(build_filename(&vec![assign("other", "x.env", None)]), Ok(".env".to_string()));
    assert_eq!(build_filename(&vec![not_literal("other")]), Ok(".env".to_string()));
    assert_eq!(
        build_filename(&vec![assign("other", "x", None), assign("filename", "y", None)]),
        Ok(".env".to_string())
    );
    assert_eq!(
        build_filename(&vec![assign("filename", "x", None), Argument::Other]),
        Ok("x".to_string())
    );
    assert_eq!(build_filename(&vec![not_literal("filename")]), Err(ArgumentError::NotStringLiteral));
    assert_eq!(build_filename(&vec![Argument::Other]), Err(ArgumentError::NotAssignment));
}

#[test]
fn module_reads_every_argument() {
    let config = |filename: &str, visibility: &str| {
        Ok(ModuleConfig { filename: filename.to_string(), visibility: visibility.to_string() })
    };
    assert_eq!(module_config(&vec![]), config(".env", "pub"));
    assert_eq!(
        module_config(&vec![assign("visibility", "pub(crate)", Some("pub (crate)")), assign("filename", "x", None)]),
        config("x", "pub (crate)")
    );
    assert_eq!(
        module_config(&vec![assign("filename", "x", None), not_literal("other"), assign("filename", "y", Some(""))]),
        config("y", "pub")
    );
    assert_eq!(module_config(&vec![assign("visibility", "", Some(""))]), config(".env", ""));
}

#[test]
fn module_refuses_at_the_first_bad_argument() {
    assert_eq!(
        module_config(&vec![assign("filename", "x", None), Argument::Other, not_literal("filename")]),
        Err(ArgumentError::NotAssignment)
    );
    assert_eq!(
        module_config(&vec![not_literal("visibility"), Argument::Other]),
        Err(ArgumentError::NotStringLiteral)
    );
    assert_eq!(
        module_config(&vec![not_literal("filename")]),
        Err(ArgumentError::NotStringLiteral)
    );
    assert_eq!(
        module_config(&vec![assign("visibility", "public", None), assign("visibility", "pub", Some("pub"))]),
        Err(ArgumentError::InvalidVisibility)
    );
}

#[test]
fn visibility_is_checked_when_arguments_are_read() {
    let args = read_arguments("visibility = \"pub(crate)\"").unwrap();
    let config = module_config(&args).unwrap();
    assert_eq!(config.visibility.replace(' ', ""), "pub(crate)");
    let args = read_arguments("visibility = \"not a visibility\"").unwrap();
    assert_eq!(module_config(&args), Err(ArgumentError::InvalidVisibility));
    let args = read_arguments("visibility = public").unwrap();
    assert_eq!(module_config(&args), Err(ArgumentError::NotStringLiteral));
}

#[test]
fn lookup_takes_a_name_and_a_message() {
    let names = |list: &[&str]| list.iter().map(|s| s.to_string()).collect::<Vec<String>>();
    assert_eq!(lookup_request(&names(&[])), Err(ArgumentError::MissingName));
    assert_eq!(
        lookup_request(&names(&["HOME"])),
        Ok(LookupRequest {
            name: "HOME".to_string(),
            message: "environment variable 'HOME' not defined".to_string(),
        })
    );
    assert_eq!(
        lookup_request(&names(&["HOME", "no home"])),
        Ok(LookupRequest { name: "HOME".to_string(), message: "no home".to_string() })
    );
    assert_eq!(lookup_request(&names(&["A", "b", "c"])), Err(ArgumentError::TooManyArguments));
}

#[test]
fn plain_text_holds_names_separators_and_strings() {
    assert!(plain(""));
    assert!(plain("filename = \".env\", visibility = \"pub(crate)\""));
    assert!(plain("\"NAME\",\n\t\"it's not there\","));
    assert!(plain("a1 = _b2"));
    assert!(plain("\"abc\""));
    assert!(plain("\"say \\\"c\\\" 1 'x' // #\""));
    assert!(plain("filename = r\"a\\b\""));
    assert!(plain("\"a\" \"b\"\"c\""));
}

#[test]
fn text_with_another_literal_is_not_plain() {
    assert!(!plain("c\"x\""));
    assert!(!plain("filename = c\"x\""));
    assert!(!plain("cr\"x\""));
    assert!(!plain("b\"x\""));
    assert!(!plain("br\"x\""));
    assert!(!plain("'x'"));
    assert!(!plain("b'x'"));
    assert!(!plain("1"));
    assert!(!plain("other = 5"));
    assert!(!plain("other = 1.5e3"));
    assert!(!plain("\"a\"1"));
    assert!(!plain("\"a\"suffix"));
    assert!(!plain("ar\"x\""));
    assert!(!plain("r#\"x\"#"));
    assert!(!plain("(/*ERROR*/)"));
}

#[test]
fn text_with_other_characters_is_not_plain() {
    assert!(!plain("a // note"));
    assert!(!plain("a /* \" */ c\"x\" /* \" */"));
    assert!(!plain("filename = concat!(\"a\")"));
    assert!(!plain("a.b = \"x\""));
    assert!(!plain("\u{e9} = \"x\""));
    assert!(!plain("filename = \"open"));
    assert!(!plain("filename = \"ends in a backslash\\"));
    assert!(!plain("r\"open"));
}

#[test]
fn text_that_is_not_plain_is_refused_before_it_is_parsed() {
    for text in ["c\"x\"", "filename = c\"x\"", "\"A\", cr\"x\"", "(/*ERROR*/)", "other = 5", "'x'"] {
        assert_eq!(read_arguments(text), Err(ArgumentError::Syntax));
        assert_eq!(read_literals(text), Err(ArgumentError::Syntax));
    }
}

#[test]
fn string_that_holds_a_prefix_and_a_quote_is_read() {
    assert_eq!(read_literals("\"abc\""), Ok(vec!["abc".to_string()]));
    assert_eq!(
        read_literals("\"c\", \"say \\\"c\\\"\""),
        Ok(vec!["c".to_string(), "say \"c\"".to_string()])
    );
    assert_eq!(
        read_arguments("filename = \"abc\""),
        Ok(vec![assign("filename", "abc", None)])
    );
}

#[test]
fn raw_string_is_read() {
    assert_eq!(
        read_arguments("filename = r\"a\\b\""),
        Ok(vec![assign("filename", "a\\b", None)])
    );
    assert_eq!(read_literals("r\"A\""), Ok(vec!["A".to_string()]));
}

#[test]
fn only_the_literal_of_visibility_is_read_as_a_visibility() {
    assert_eq!(
        read_arguments("filename = \"pub\", other = \"pub\", visibility = \"pub\""),
        Ok(vec![
            assign("filename", "pub", None),
            assign("other", "pub", None),
            assign("visibility", "pub", Some("pub")),
        ])
    );
    assert_eq!(
        assignment_argument("filename".to_string(), "\"crate\"".to_string()),
        assign("filename", "crate", None)
    );
}

#[test]
fn short_texts_are_read_or_refused() {
    let alphabet = ["a", "r", "c", "1", "\"", "\\", "=", ",", " ", "x", "'"];
    let mut texts = vec![String::new()];
    let mut last = vec![String::new()];
    for _ in 0..4 {
        let mut next = Vec::new();
        for text in &last {
            for piece in alphabet {
                next.push(format!("{}{}", text, piece));
            }
        }
        texts.extend(next.iter().cloned());
        last = next;
    }
    let mut read = 0;
    for text in &texts {
        let arguments = read_arguments(text);
        let literals = read_literals(text);
        if !plain(text) {
            assert_eq!(arguments, Err(ArgumentError::Syntax));
            assert_eq!(literals, Err(ArgumentError::Syntax));
        } else if arguments.is_ok() {
            read += 1;
        }
    }
    assert!(read > 100);
}
