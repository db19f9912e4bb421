use crbrs::compiler::plan_for_compiler;
use crbrs::config::set_association;
use crbrs::installer::{
    find_manifest_entry, forget_compiler, hex_lower, is_safe_entry_name, plan_extraction,
    plan_removal, prepare_install, record_installation, verify_checksum, ExtractStep,
};
use crbrs::unpack::{install_actions, plan_install, FsAction};
use crbrs::{Error, Manifest, ManifestCompilerEntry, Settings};
use sha2::Digest;
use std::io::Write;

fn archive(entries: &[(&str, &[u8])]) -> Vec<u8> {
    let mut w = zip::ZipWriter::new(std::io::Cursor::new(Vec::new()));
    let opts = zip::write::SimpleFileOptions::default().unix_permissions(0o755);
    for (name, data) in entries {
        if name.ends_with('/') {
            w.add_directory(*name, opts).unwrap();
        } else {
            w.start_file(*name, opts).unwrap();
            w.write_all(data).unwrap();
        }
    }
    w.finish().unwrap().into_inner()
}

fn digest_hex(bytes: &[u8]) -> String {
    hex_lower(sha2::Sha256::digest(bytes).as_slice())
}

fn entry(sha256: Option<String>) -> ManifestCompilerEntry {
    ManifestCompilerEntry {
        description: "Test compiler".to_string(),
        version: "1.0".to_string(),
        download_url: "https://example.com/comp1.zip".to_string(),
        executable_name: "comp1.exe".to_string(),
        requires_wine: true,
        supported_loggers: Some(vec!["CR1000X".to_string()]),
        sha256,
    }
}

fn relatives(steps: &[ExtractStep]) -> Vec<String> {
    steps.iter().map(|s| s.relative().clone()).collect()
}

#[test]
fn hex_encoding() {
    assert_eq!(hex_lower(&[0x00, 0x0f, 0xa5, 0xff]), "000fa5ff");
    assert_eq!(hex_lower(&[]), "");
}

#[test]
fn digest_of_known_input() {
    let e = entry(Some("BA7816BF8F01CFEA414140DE5DAE2223B00361A396177A9CB410FF61F20015AD".to_string()));
    assert!(prepare_install("comp1", &e, b"abc".to_vec()).is_err_and(|err| matches!(err, Error::Zip(_))));
    let wrong = entry(Some("00".to_string()));
    match prepare_install("comp1", &wrong, b"abc".to_vec()) {
        Err(Error::ChecksumMismatch { compiler_id, expected, actual }) => {
            assert_eq!(compiler_id, "comp1");
            assert_eq!(expected, "00");
            assert_eq!(actual, "ba7816bf8f01cfea414140de5dae2223b00361a396177a9cb410ff61f20015ad");
        }
        other => panic!("unexpected {:?}", other),
    }
}

#[test]
fn checksum_comparison() {
    assert!(verify_checksum("c", &None, "ab".to_string()).is_ok());
    assert!(verify_checksum("c", &Some(String::new()), "ab".to_string()).is_ok());
    assert!(verify_checksum("c", &Some("AB".to_string()), "ab".to_string()).is_ok());
    assert!(matches!(
        verify_checksum("c", &Some("cd".to_string()), "ab".to_string()),
        Err(Error::ChecksumMismatch { .. })
    ));
}

#[test]
fn mismatch_leaves_registry_untouched() {
    let bytes = archive(&[("comp1.exe", b"new")]);
    let mut settings = Settings::default();
    settings.compiler_storage_path = Some("/store".to_string());
    let before = format!("{:?}", settings);
    let e = entry(Some(digest_hex(b"something else")));
    let r = prepare_install("comp1", &e, bytes);
    assert!(matches!(r, Err(Error::ChecksumMismatch { .. })));
    assert_eq!(format!("{:?}", settings), before);
}

#[test]
fn escaping_names_are_skipped() {
    for name in ["../../evil", "/etc/evil", "C:\\evil", "a/../../evil", "..", "x/..", "\\evil"] {
        assert!(!is_safe_entry_name(name), "{}", name);
    }
    for name in ["bin/comp1.exe", "comp1.exe", "a..b", "dir/", "./x", "..x/y"] {
        assert!(is_safe_entry_name(name), "{}", name);
    }
    let bytes = archive(&[
        ("../../evil", b"x"),
        ("/etc/evil", b"x"),
        ("C:\\evil", b"x"),
        ("bin/", b""),
        ("bin/comp1.exe", b"exe"),
    ]);
    let steps = plan_extraction(bytes).unwrap();
    assert_eq!(relatives(&steps), vec!["bin/".to_string(), "bin/comp1.exe".to_string()]);
    match &steps[1] {
        ExtractStep::File { contents, mode, .. } => {
            assert_eq!(contents, b"exe");
            assert_eq!(mode.map(|m| m & 0o777), Some(0o755));
        }
        other => panic!("unexpected {:?}", other),
    }
    assert!(matches!(steps[0], ExtractStep::Directory { .. }));
}

#[test]
fn corrupt_archive() {
    assert!(matches!(plan_extraction(b"not a zip".to_vec()), Err(Error::Zip(_))));
}

#[test]
fn manifest_lookup() {
    let m = Manifest {
        manifest_version: "1".to_string(),
        compilers: vec![("comp1".to_string(), entry(None))],
    };
    assert_eq!(find_manifest_entry(&m, "comp1").unwrap().executable_name, "comp1.exe");
    assert!(matches!(find_manifest_entry(&m, "nope"), Err(Error::CompilerIdNotFoundInManifest(id)) if id == "nope"));
}

#[test]
fn reinstall_replaces_record() {
    let mut settings = Settings::default();
    record_installation(&mut settings, "comp1", &entry(None));
    let mut newer = entry(None);
    newer.version = "2.0".to_string();
    newer.supported_loggers = None;
    record_installation(&mut settings, "comp1", &newer);
    assert_eq!(settings.installed_compilers.len(), 1);
    let info = &settings.installed_compilers[0].1;
    assert_eq!(info.version, "2.0");
    assert_eq!(info.install_subdir, "comp1");
    assert!(info.supported_loggers.is_none());
}

#[test]
fn remove_absent_is_noop() {
    let mut settings = Settings::default();
    settings.compiler_storage_path = Some("/store".to_string());
    let before = format!("{:?}", settings);
    assert!(plan_removal(&settings, "ghost").unwrap().is_none());
    forget_compiler(&mut settings, "ghost");
    assert_eq!(format!("{:?}", settings), before);
}

#[test]
fn remove_installed() {
    let mut settings = Settings::default();
    settings.compiler_storage_path = Some("/store".to_string());
    record_installation(&mut settings, "comp1", &entry(None));
    assert_eq!(plan_removal(&settings, "comp1").unwrap().as_deref(), Some("/store/comp1"));
    forget_compiler(&mut settings, "comp1");
    assert!(settings.installed_compilers.is_empty());
}

#[test]
fn install_then_compile_end_to_end() {
    let bytes = archive(&[("comp1.exe", b"MZ")]);
    let e = entry(Some(digest_hex(&bytes)));
    let manifest = Manifest {
        manifest_version: "1".to_string(),
        compilers: vec![("comp1".to_string(), e)],
    };
    let mut settings = Settings::default();
    settings.compiler_storage_path = Some("/store".to_string());
    let found = find_manifest_entry(&manifest, "comp1").unwrap();
    let steps = prepare_install("comp1", found, bytes).unwrap();
    assert_eq!(relatives(&steps), vec!["comp1.exe".to_string()]);
    record_installation(&mut settings, "comp1", found);
    let (id, info) = &settings.installed_compilers[0];
    assert_eq!(id, "comp1");
    assert_eq!(info.install_subdir, "comp1");
    assert!(info.requires_wine);
    set_association(&mut settings, "ext", "comp1".to_string()).unwrap();

    let shim = crbrs::compiler::plan_compile("x.ext", None, None, &settings, false).unwrap();
    assert!(shim.uses_shim);
    assert_eq!(shim.command.program, "wine");
    assert_eq!(shim.command.args, vec!["/store/comp1/comp1.exe".to_string(), "x.ext".to_string()]);

    let direct = crbrs::compiler::plan_compile("x.ext", None, None, &settings, true).unwrap();
    assert!(!direct.uses_shim);
    assert_eq!(direct.command.program, "/store/comp1/comp1.exe");
    assert_eq!(direct.command.args, vec!["x.ext".to_string()]);

    let same = plan_for_compiler(&settings, "comp1", "x.ext", None, false).unwrap();
    assert_eq!(same.executable_path, shim.executable_path);
}

#[test]
fn install_dir_must_be_plain_name() {
    let mut settings = Settings::default();
    settings.compiler_storage_path = Some("/store".to_string());
    assert_eq!(crbrs::installer::compiler_install_dir(&settings, "comp1").unwrap(), "/store/comp1");
    for id in ["..", ".", "a/b", "a\\b", "/abs", "C:x", ""] {
        assert!(
            matches!(crbrs::installer::compiler_install_dir(&settings, id), Err(Error::InvalidCompilerSource(x)) if x == id),
            "{}",
            id
        );
    }
}

#[test]
fn actions_clear_then_fill_install_dir() {
    let bytes = archive(&[("bin/", b""), ("bin/comp1.exe", b"exe"), ("../up", b"x")]);
    let steps = plan_extraction(bytes).unwrap();
    let actions = install_actions("/store/comp1", steps);
    assert_eq!(actions.len(), 4);
    assert!(matches!(&actions[0], FsAction::RemoveTree { path } if path == "/store/comp1"));
    assert!(matches!(&actions[1], FsAction::CreateDir { path, mode: None } if path == "/store/comp1"));
    assert!(matches!(&actions[2], FsAction::CreateDir { path, .. } if path == "/store/comp1/bin/"));
    match &actions[3] {
        FsAction::WriteFile { path, contents, .. } => {
            assert_eq!(path, "/store/comp1/bin/comp1.exe");
            assert_eq!(contents, b"exe");
        }
        other => panic!("unexpected {:?}", other),
    }
}

#[test]
fn escaping_entries_skipped_safe_file_kept() {
    let bytes = archive(&[
        ("../../evil", b"x"),
        ("/etc/evil", b"x"),
        ("C:\\evil", b"x"),
        ("ok.txt", b"fine"),
    ]);
    let steps = plan_extraction(bytes).unwrap();
    assert_eq!(steps.len(), 1);
    match &steps[0] {
        ExtractStep::File { relative, contents, .. } => {
            assert_eq!(relative, "ok.txt");
            assert_eq!(contents, b"fine");
        }
        other => panic!("unexpected {:?}", other),
    }
}

#[test]
fn plan_install_actions_and_mismatch() {
    let bytes = archive(&[("comp1.exe", b"MZ")]);
    let mut settings = Settings::default();
    settings.compiler_storage_path = Some("/store".to_string());
    let good = entry(Some(digest_hex(&bytes).to_uppercase()));
    let acts = plan_install(&settings, "comp1", &good, bytes.clone()).unwrap();
    assert_eq!(acts.len(), 3);
    assert!(matches!(&acts[0], FsAction::RemoveTree { path } if path == "/store/comp1"));
    assert!(matches!(&acts[2], FsAction::WriteFile { path, contents, .. } if path == "/store/comp1/comp1.exe" && contents == b"MZ"));
    let bad = entry(Some(digest_hex(b"other")));
    assert!(matches!(plan_install(&settings, "comp1", &bad, bytes.clone()), Err(Error::ChecksumMismatch { .. })));
    assert!(matches!(plan_install(&settings, "../comp1", &good, bytes), Err(Error::InvalidCompilerSource(_))));
}

#[test]
fn plan_install_without_digest() {
    let bytes = archive(&[("comp1.exe", b"MZ")]);
    let mut settings = Settings::default();
    settings.compiler_storage_path = Some("/store".to_string());
    for declared in [None, Some(String::new())] {
        let acts = plan_install(&settings, "comp1", &entry(declared), bytes.clone()).unwrap();
        assert_eq!(acts.len(), 3);
    }
}
