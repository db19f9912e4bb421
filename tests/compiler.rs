use crbrs::compiler::{
    interpret_output, launch_failure, plan_compile, plan_for_compiler, resolve_compiler_id,
    zero_based_line, CompileSuccess,
};
use crbrs::installer::record_installation;
use crbrs::{Error, ManifestCompilerEntry, Settings};

fn settings_with(requires_wine: bool) -> Settings {
    let mut s = Settings::default();
    s.compiler_storage_path = Some("/store".to_string());
    let e = ManifestCompilerEntry {
        description: "d".to_string(),
        version: "1".to_string(),
        download_url: "u".to_string(),
        executable_name: "cc.exe".to_string(),
        requires_wine,
        supported_loggers: None,
        sha256: None,
    };
    record_installation(&mut s, "cc", &e);
    s.file_associations.push(("cr2".to_string(), "cc".to_string()));
    s
}

#[test]
fn resolve_ids() {
    let s = settings_with(true);
    assert_eq!(resolve_compiler_id(&s, Some("x"), None, "f").unwrap(), "x");
    assert_eq!(resolve_compiler_id(&s, None, Some("CR2"), "f.CR2").unwrap(), "cc");
    assert!(matches!(resolve_compiler_id(&s, None, None, "noext"), Err(Error::InvalidExtension(f)) if f == "noext"));
    assert!(matches!(resolve_compiler_id(&s, None, Some("cr1"), "a.cr1"), Err(Error::NoCompilerForExtension(e)) if e == "cr1"));
}

#[test]
fn plan_errors() {
    let s = settings_with(true);
    assert!(matches!(plan_compile("prog", None, None, &s, false), Err(Error::InvalidExtension(f)) if f == "prog"));
    assert!(matches!(plan_compile("prog.cr9", None, None, &s, false), Err(Error::NoCompilerForExtension(_))));
    assert!(matches!(plan_for_compiler(&s, "missing", "a.cr2", None, false), Err(Error::CompilerNotFound(id)) if id == "missing"));
}

#[test]
fn plan_with_log_and_custom_shim() {
    let mut s = settings_with(true);
    s.wine_path = Some("/opt/wine64".to_string());
    let p = plan_compile("dir/prog.CR2", Some("out.log"), None, &s, false).unwrap();
    assert_eq!(p.compiler_id, "cc");
    assert_eq!(p.command.program, "/opt/wine64");
    assert_eq!(p.command.args, vec!["/store/cc/cc.exe".to_string(), "dir/prog.CR2".to_string(), "out.log".to_string()]);
}

#[test]
fn plan_native_compiler() {
    let s = settings_with(false);
    let p = plan_compile("a.txt", None, Some("cc"), &s, false).unwrap();
    assert!(!p.uses_shim);
    assert_eq!(p.command.program, "/store/cc/cc.exe");
    assert_eq!(p.command.args, vec!["a.txt".to_string()]);
}

#[test]
fn outcomes() {
    assert!(matches!(
        interpret_output("a.cr2", "Compiled OK.".to_string(), String::new(), false, Some(1)),
        Ok(CompileSuccess::Compiled)
    ));
    match interpret_output("a.cr2", "a -- Compile Failed!\nline 2: bad".to_string(), String::new(), true, Some(0)) {
        Err(Error::CompilationFailed { file_path, errors, raw_log }) => {
            assert_eq!(file_path, "a.cr2");
            assert_eq!(errors.len(), 1);
            assert_eq!(errors[0].file_path_in_log, "a");
            assert_eq!(raw_log, "a -- Compile Failed!\nline 2: bad");
        }
        other => panic!("unexpected {:?}", other),
    }
    match interpret_output("a.cr2", "???\nmore".to_string(), String::new(), true, Some(0)) {
        Ok(CompileSuccess::UnrecognizedOutput { raw_output }) => assert_eq!(raw_output, "???\nmore"),
        other => panic!("unexpected {:?}", other),
    }
    match interpret_output("a.cr2", "???".to_string(), "err".to_string(), false, Some(3)) {
        Err(Error::GenericCompilationFailedWithLog { file_path, raw_log, stderr, exit_code }) => {
            assert_eq!(file_path, "a.cr2");
            assert_eq!(raw_log, "???");
            assert_eq!(stderr, "err");
            assert_eq!(exit_code, Some(3));
        }
        other => panic!("unexpected {:?}", other),
    }
}

#[test]
fn launch_failures() {
    let s = settings_with(true);
    let p = plan_compile("a.cr2", None, None, &s, false).unwrap();
    let err = || std::io::Error::new(std::io::ErrorKind::NotFound, "gone");
    assert!(matches!(launch_failure(&p, true, err()), Error::WineNotFound));
    assert!(matches!(launch_failure(&p, false, err()), Error::Subprocess(_)));
    let native = plan_compile("a.cr2", None, None, &s, true).unwrap();
    assert!(matches!(launch_failure(&native, true, err()), Error::Subprocess(_)));
}

#[test]
fn editor_lines() {
    assert_eq!(zero_based_line(Some(1)), 0);
    assert_eq!(zero_based_line(Some(10)), 9);
    assert_eq!(zero_based_line(Some(0)), 0);
    assert_eq!(zero_based_line(None), 0);
}
