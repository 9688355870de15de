use std::collections::HashMap;

use script_lang::interpreter::{Effect, Interpreter};
use script_lang::parser::Statement;
use script_lang::Script;

/// Runs a script against in-memory files, returning the printed lines.
fn run_with_files(source: &str, files: &mut HashMap<String, String>) -> Vec<String> {
    let statements = Script::from(source).run().unwrap();
    let mut interpreter = Interpreter::new();
    let mut printed = Vec::new();
    for statement in &statements {
        match interpreter.step(statement) {
            Some(Effect::ReadFile(path, dest)) => {
                let text = files.get(&path).cloned().unwrap();
                interpreter.assign(dest, text);
            }
            Some(Effect::WriteFile(path, text)) => {
                files.insert(path, text);
            }
            Some(Effect::PrintLine(text)) => printed.push(text),
            None => {}
        }
    }
    printed
}

#[test]
fn test_interpreter_basic() {
    let script = r#"READ input.txt -> content
PRINT content
APPEND content " (appended)" -> appended_content
PRINT appended_content
WRITE output.txt appended_content
"#;

    let mut files = HashMap::new();
    files.insert("input.txt".to_string(), "Hello, World!".to_string());
    let printed = run_with_files(script, &mut files);

    assert_eq!(printed, vec!["Hello, World!".to_string(), "Hello, World! (appended)".to_string()]);
    assert_eq!(files.get("output.txt").unwrap(), "Hello, World! (appended)");
}

#[test]
fn unassigned_name_prints_itself() {
    let mut files = HashMap::new();
    assert_eq!(run_with_files("PRINT missingVar\n", &mut files), vec!["missingVar".to_string()]);
}

#[test]
fn literal_and_unassigned_name_print_alike() {
    let mut files = HashMap::new();
    let from_literal = run_with_files("PRINT \"missingVar\"\n", &mut files);
    let from_name = run_with_files("PRINT missingVar\n", &mut files);
    assert_eq!(from_literal, vec!["missingVar".to_string()]);
    assert_eq!(from_literal, from_name);
}

#[test]
fn append_joins_text() {
    let mut interpreter = Interpreter::new();
    let effect = interpreter.step(&Statement::Append(
        "12".to_string(),
        "34".to_string(),
        "x".to_string(),
    ));
    assert_eq!(effect, None);
    assert_eq!(interpreter.get_var_or_literal("x"), "1234");
    assert_eq!(
        interpreter.step(&Statement::Print("x".to_string())),
        Some(Effect::PrintLine("1234".to_string()))
    );
}

#[test]
fn quoted_operand_is_taken_verbatim() {
    let mut interpreter = Interpreter::new();
    interpreter.assign("x".to_string(), "value".to_string());
    assert_eq!(interpreter.get_var_or_literal("\"x\""), "x");
    assert_eq!(interpreter.get_var_or_literal("\"\""), "");
    assert_eq!(interpreter.get_var_or_literal("x"), "value");
    assert_eq!(interpreter.get_var_or_literal("y"), "y");
    // a single quote is no pair
    assert_eq!(interpreter.get_var_or_literal("\""), "\"");
}

#[test]
fn assign_replaces_earlier_value() {
    let mut interpreter = Interpreter::new();
    interpreter.assign("x".to_string(), "one".to_string());
    interpreter.assign("y".to_string(), "two".to_string());
    interpreter.assign("x".to_string(), "three".to_string());
    assert_eq!(interpreter.get_var_or_literal("x"), "three");
    assert_eq!(interpreter.get_var_or_literal("y"), "two");
}

#[test]
fn read_and_write_are_handed_out() {
    let mut interpreter = Interpreter::new();
    assert_eq!(
        interpreter.step(&Statement::Read("in.txt".to_string(), "v".to_string())),
        Some(Effect::ReadFile("in.txt".to_string(), "v".to_string()))
    );
    interpreter.assign("v".to_string(), "data".to_string());
    assert_eq!(
        interpreter.step(&Statement::Write("out.txt".to_string(), "v".to_string())),
        Some(Effect::WriteFile("out.txt".to_string(), "data".to_string()))
    );
}

#[test]
fn comment_only_script_runs_as_nothing() {
    let mut files = HashMap::new();
    assert_eq!(Script::from("# nothing here\n").run().unwrap(), vec![]);
    assert!(run_with_files("# nothing here\n", &mut files).is_empty());
    assert!(files.is_empty());
}

#[test]
fn run_reports_lex_and_parse_errors() {
    match Script::from("READ foo\n").run() {
        Err(script_lang::interpreter::InterpreterError::RuntimeError(m)) => {
            assert_eq!(m, "Expected an identifier.")
        }
        other => panic!("unexpected result: {:?}", other),
    }
    match Script::from("PRINT @\n").run() {
        Err(script_lang::interpreter::InterpreterError::RuntimeError(m)) => {
            assert_eq!(m, "Unexpected character: '@'.")
        }
        other => panic!("unexpected result: {:?}", other),
    }
}

#[test]
fn same_text_runs_the_same_way() {
    let source = "READ a.txt -> v\nAPPEND v \"!\" -> w\nPRINT w\nWRITE b.txt w\n";
    let mut first = HashMap::new();
    first.insert("a.txt".to_string(), "hi".to_string());
    let mut second = first.clone();
    let printed_first = run_with_files(source, &mut first);
    let printed_second = run_with_files(source, &mut second);
    assert_eq!(printed_first, vec!["hi!".to_string()]);
    assert_eq!(printed_first, printed_second);
    assert_eq!(first, second);
}
