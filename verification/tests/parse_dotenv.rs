use dotenv_codegen::arguments::read_arguments;
use dotenv_codegen::config::{build_filename, module_config};
use dotenv_codegen::emit::{dotenv_build, dotenv_module, Item};
use dotenv_codegen::locator::{find, EnvFile, NotFoundError, Probe};
use std::collections::HashMap;

const DOTENV: &str = "CODEGEN_TEST_VAR1=\"hello!\"\nCODEGEN_TEST_VAR2=\"'quotes within quotes'\"\nCODEGEN_TEST_VAR3=69\n";

fn project() -> Vec<String> {
    vec!["home".to_string(), "project".to_string(), "codegen".to_string()]
}

/// Searches from the crate directory of a project whose root holds the file.
fn locate(filename: String) -> Result<EnvFile, NotFoundError> {
    let probes = if filename == ".env" {
        vec![Probe::Missing, Probe::Loaded(DOTENV.to_string())]
    } else {
        vec![]
    };
    find(project(), filename, &probes)
}

/// What the items set when they run as assignments at the start of a program.
fn run(items: &[Item]) -> HashMap<String, String> {
    let mut vars = HashMap::new();
    for item in items {
        match item {
            Item::Variable { name, value } => {
                vars.insert(name.clone(), value.clone());
            }
            Item::CompileError { message } => panic!("{}", message),
        }
    }
    vars
}

fn build(input: &str) -> HashMap<String, String> {
    let args = read_arguments(input).unwrap();
    let filename = build_filename(&args).unwrap();
    run(&dotenv_build(locate(filename)).unwrap())
}

fn constants(input: &str) -> (String, HashMap<String, String>) {
    let args = read_arguments(input).unwrap();
    let config = module_config(&args).unwrap();
    let filename = config.filename.clone();
    let module = dotenv_module(config, locate(filename)).unwrap();
    assert_eq!(module.name, "dotenv_vars");
    (module.visibility, run(&module.items))
}

#[test]
fn test_vars_at_build() {
    let vars = build("");

    assert_eq!(vars.get("CODEGEN_TEST_VAR1").cloned(), Some("hello!".to_owned()));
    assert_eq!(
        vars.get("CODEGEN_TEST_VAR2").cloned(),
        Some("'quotes within quotes'".to_owned())
    );
    assert_eq!(vars.get("CODEGEN_TEST_VAR3").cloned(), Some("69".to_owned()));
}

#[test]
fn test_private_vars() {
    let (visibility, vars) = constants("filename = \".env\", visibility = \"pub\"");
    assert_eq!(visibility, "pub");
    assert_eq!(vars["CODEGEN_TEST_VAR1"], "hello!");
    assert_eq!(vars["CODEGEN_TEST_VAR2"], "'quotes within quotes'");
    assert_eq!(vars["CODEGEN_TEST_VAR3"], "69");
}

#[test]
fn test_custom_path() {
    let vars = build("filename = \".env\"");

    assert_eq!(vars.get("CODEGEN_TEST_VAR1").cloned(), Some("hello!".to_owned()));
    assert_eq!(
        vars.get("CODEGEN_TEST_VAR2").cloned(),
        Some("'quotes within quotes'".to_owned())
    );
    assert_eq!(vars.get("CODEGEN_TEST_VAR3").cloned(), Some("69".to_owned()));
}

#[test]
fn test_vars_in_module() {
    let (visibility, vars) = constants("");
    assert_eq!(visibility, "pub");
    assert_eq!(vars["CODEGEN_TEST_VAR1"], "hello!");
    assert_eq!(vars["CODEGEN_TEST_VAR2"], "'quotes within quotes'");
    assert_eq!(vars["CODEGEN_TEST_VAR3"], "69");
}

#[test]
fn build_fails_where_no_file_is_found() {
    let args = read_arguments("filename = \"other.env\"").unwrap();
    let filename = build_filename(&args).unwrap();
    assert_eq!(filename, "other.env");
    assert_eq!(dotenv_build(locate(filename)), Err(NotFoundError::Absent));
}
