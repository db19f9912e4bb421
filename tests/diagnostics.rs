use crbrs::diagnostics::{parse_compiler_output, ParsedOutput};
use crbrs::CompilationErrorDetail;

fn failed(text: &str) -> Vec<CompilationErrorDetail> {
    match parse_compiler_output(text) {
        ParsedOutput::Failed(ds) => ds,
        other => panic!("expected a failure verdict, got {:?}", other),
    }
}

#[test]
fn single_diagnostic_line() {
    let ds = failed("Compile Failed!\nline 1: ok");
    assert_eq!(ds.len(), 1);
    assert_eq!(ds[0].line, Some(1));
    assert_eq!(ds[0].message, "ok");
}

#[test]
fn continuation_line_joins_message() {
    let ds = failed("Compile Failed!\nline 3: bad thing\nextra detail");
    assert_eq!(ds.len(), 1);
    assert_eq!(ds[0].line, Some(3));
    assert_eq!(ds[0].message, "bad thing\nextra detail");
}

#[test]
fn compiled_ok_ignores_trailing_content() {
    for text in [
        "Compiled OK.",
        "prog.cr2 -- Compiled OK.\nline 1: not an error",
        "\n\n  Compiled OK. done\nCompile Failed!\nline 2: x",
        "Compiled OK.\n\n\n",
    ] {
        assert!(matches!(parse_compiler_output(text), ParsedOutput::Success), "{:?}", text);
    }
}

#[test]
fn unrecognized_header() {
    assert!(matches!(parse_compiler_output(""), ParsedOutput::Unrecognized));
    assert!(matches!(parse_compiler_output("\n  \n"), ParsedOutput::Unrecognized));
    assert!(matches!(parse_compiler_output("warning: whatever\nCompiled OK."), ParsedOutput::Unrecognized));
}

#[test]
fn failure_without_diagnostics() {
    assert!(failed("Compile Failed!").is_empty());
    assert!(failed("Compile Failed!\nsome stray text\nline : nothing").is_empty());
}

#[test]
fn header_is_first_non_blank_line() {
    let ds = failed("\n   \nCompile Failed!\nline 7: boom");
    assert_eq!(ds.len(), 1);
    assert_eq!(ds[0].line, Some(7));
}

#[test]
fn source_label_before_delimiter() {
    let ds = failed("  prog.cr2 -- Compile Failed!\nline 2: oops");
    assert_eq!(ds[0].file_path_in_log, "prog.cr2");
    let ds = failed("Compile Failed!\nline 2: oops");
    assert_eq!(ds[0].file_path_in_log, "");
}

#[test]
fn several_diagnostics_and_whitespace() {
    let ds = failed("Compile Failed!\r\n  line   10:   first  \r\n\tmore\r\n\r\nline 12:second\nline x: no\n");
    assert_eq!(ds.len(), 2);
    assert_eq!(ds[0].line, Some(10));
    assert_eq!(ds[0].message, "first\nmore");
    assert_eq!(ds[1].line, Some(12));
    assert_eq!(ds[1].message, "second");
}

#[test]
fn line_number_too_large() {
    let ds = failed("Compile Failed!\nline 99999999999: huge\nline 4294967295: max");
    assert_eq!(ds.len(), 2);
    assert_eq!(ds[0].line, None);
    assert_eq!(ds[0].message, "huge");
    assert_eq!(ds[1].line, Some(4294967295));
}

#[test]
fn lines_starting_with_line_word_are_not_continuations() {
    let ds = failed("Compile Failed!\nline 1: a\nline without number\nlinear note");
    assert_eq!(ds.len(), 1);
    assert_eq!(ds[0].message, "a\nlinear note");
}
