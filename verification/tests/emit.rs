use dotenv_codegen::arguments::read_arguments;
use dotenv_codegen::config::{module_config, LookupRequest, ModuleConfig};
use dotenv_codegen::emit::{
    describe, dotenv, dotenv_build, dotenv_module, expand_env, items, path_of, push_decimal, Item,
    LookupError, MissingVariableError, Module,
};
use dotenv_codegen::entry::{ParseError, ParseErrorKind};
use dotenv_codegen::locator::{EnvFile, NotFoundError};
use dotenv_codegen::parser::parse;

fn file(contents: &str) -> Result<EnvFile, NotFoundError> {
    Ok(EnvFile {
        directory: vec!["srv".to_string(), "app".to_string()],
        filename: ".env".to_string(),
        contents: contents.to_string(),
    })
}

fn variable(name: &str, value: &str) -> Item {
    Item::Variable { name: name.to_string(), value: value.to_string() }
}

fn failure(message: &str) -> Item {
    Item::CompileError { message: message.to_string() }
}

fn request(name: &str) -> LookupRequest {
    LookupRequest { name: name.to_string(), message: format!("no {}", name) }
}

fn missing(name: &str) -> Result<String, LookupError> {
    Err(LookupError::Missing(MissingVariableError {
        name: name.to_string(),
        message: format!("no {}", name),
    }))
}

#[test]
fn numbers_are_written_in_decimal() {
    let decimal = |n: usize| {
        let mut out = String::from("#");
        push_decimal(&mut out, n);
        out
    };
    assert_eq!(decimal(0), "#0");
    assert_eq!(decimal(7), "#7");
    assert_eq!(decimal(10), "#10");
    assert_eq!(decimal(69), "#69");
    assert_eq!(decimal(12345), "#12345");
    assert_eq!(decimal(usize::MAX), format!("#{}", usize::MAX));
}

#[test]
fn error_is_described_by_line_and_cause() {
    let text = |line, kind| describe(&ParseError { line, kind });
    assert_eq!(text(1, ParseErrorKind::UnterminatedQuote), "line 1: unterminated quote");
    assert_eq!(text(12, ParseErrorKind::InvalidEscape), "line 12: invalid escape sequence");
    assert_eq!(text(305, ParseErrorKind::MalformedLine), "line 305: malformed line");
    assert_eq!(text(4, ParseErrorKind::InvalidIdentifier), "line 4: invalid identifier");
}

#[test]
fn path_is_written_with_slashes() {
    assert_eq!(path_of(&vec!["srv".to_string(), "app".to_string()], ".env"), "/srv/app/.env");
    assert_eq!(path_of(&vec![], ".env"), "/.env");
}

#[test]
fn each_result_becomes_one_item() {
    let results = parse("A=1\nB='x\nC=3\n");
    assert_eq!(
        items("/p/.env", &results),
        vec![variable("A", "1"), failure("/p/.env: line 2: unterminated quote"), variable("C", "3")]
    );
    assert_eq!(items("/p/.env", &Vec::new()), vec![]);
}

#[test]
fn build_sets_each_variable_of_the_file() {
    assert_eq!(
        dotenv_build(file("FOO=bar\n# comment\nBAZ=\"hi there\"\n")),
        Ok(vec![variable("FOO", "bar"), variable("BAZ", "hi there")])
    );
    assert_eq!(
        dotenv_build(file("1A=x\nA=\"\\x\"")),
        Ok(vec![
            failure("/srv/app/.env: line 1: invalid identifier"),
            failure("/srv/app/.env: line 2: invalid escape sequence"),
        ])
    );
}

#[test]
fn build_passes_the_error_of_the_search_on() {
    assert_eq!(dotenv_build(Err(NotFoundError::Absent)), Err(NotFoundError::Absent));
    let unreadable = NotFoundError::Unreadable { directory: vec!["srv".to_string()] };
    assert_eq!(
        dotenv_build(Err(NotFoundError::Unreadable { directory: vec!["srv".to_string()] })),
        Err(unreadable)
    );
}

#[test]
fn private_module_holds_one_constant() {
    let args = read_arguments("visibility = \"\"").unwrap();
    let config = module_config(&args).unwrap();
    assert_eq!(
        dotenv_module(config, file("X=1")),
        Ok(Module {
            visibility: "".to_string(),
            name: "dotenv_vars".to_string(),
            items: vec![variable("X", "1")],
        })
    );
}

#[test]
fn module_keeps_the_visibility_asked_for() {
    let config = ModuleConfig { filename: ".env".to_string(), visibility: "pub (crate)".to_string() };
    let module = dotenv_module(config, file("X=1\nY='2'\nbad line\n")).unwrap();
    assert_eq!(module.visibility, "pub (crate)");
    assert_eq!(module.name, "dotenv_vars");
    assert_eq!(
        module.items,
        vec![variable("X", "1"), variable("Y", "2"), failure("/srv/app/.env: line 3: malformed line")]
    );
    let config = ModuleConfig { filename: ".env".to_string(), visibility: "pub".to_string() };
    assert_eq!(dotenv_module(config, Err(NotFoundError::Absent)), Err(NotFoundError::Absent));
}

#[test]
fn expansion_takes_the_value_or_fails_with_the_message() {
    assert_eq!(expand_env(request("A"), Some("1".to_string())), Ok("1".to_string()));
    assert_eq!(
        expand_env(request("A"), None),
        Err(MissingVariableError { name: "A".to_string(), message: "no A".to_string() })
    );
}

#[test]
fn lookup_prefers_the_environment_of_the_process() {
    assert_eq!(dotenv(request("A"), Some("live".to_string()), file("A=file")), Ok("live".to_string()));
    assert_eq!(dotenv(request("A"), None, file("A=file")), Ok("file".to_string()));
    assert_eq!(dotenv(request("A"), None, file("A=first\nA=last")), Ok("last".to_string()));
    assert_eq!(dotenv(request("B"), None, file("A=file")), missing("B"));
}

#[test]
fn lookup_goes_on_without_a_file() {
    assert_eq!(
        dotenv(request("A"), Some("live".to_string()), Err(NotFoundError::Absent)),
        Ok("live".to_string())
    );
    assert_eq!(dotenv(request("A"), None, Err(NotFoundError::Absent)), missing("A"));
}

#[test]
fn lookup_fails_on_a_file_it_cannot_use() {
    assert_eq!(
        dotenv(
            request("A"),
            Some("live".to_string()),
            Err(NotFoundError::Unreadable { directory: vec!["srv".to_string()] })
        ),
        Err(LookupError::File(NotFoundError::Unreadable { directory: vec!["srv".to_string()] }))
    );
    assert_eq!(
        dotenv(request("A"), Some("live".to_string()), file("A=1\nB=\"open\nC='open")),
        Err(LookupError::Parse {
            path: "/srv/app/.env".to_string(),
            error: ParseError { line: 2, kind: ParseErrorKind::UnterminatedQuote },
        })
    );
}
