use crbrs::config::{
    clean_extension, get_compiler_storage_path, get_config_file_path, join_path, set_association,
    set_config_value, unset_association, CONFIG_FILE_NAME,
};
use crbrs::{default_true, Error, Settings, DEFAULT_REPOSITORY_URL};

#[test]
fn default_settings() {
    let s = Settings::default();
    assert_eq!(s.compiler_repository_url, DEFAULT_REPOSITORY_URL);
    assert!(s.compiler_storage_path.is_none());
    assert!(s.installed_compilers.is_empty());
    assert!(s.file_associations.is_empty());
    assert!(s.wine_path.is_none());
    assert!(default_true());
}

#[test]
fn join_paths() {
    assert_eq!(join_path("/data", "compilers"), "/data/compilers");
    assert_eq!(join_path("/data/", "compilers"), "/data/compilers");
    assert_eq!(join_path("", "x"), "x");
}

#[test]
fn configured_storage_path_wins() {
    let mut s = Settings::default();
    s.compiler_storage_path = Some("/opt/compilers".to_string());
    assert_eq!(get_compiler_storage_path(&s).unwrap(), "/opt/compilers");
}

#[test]
fn default_storage_path_ends_with_compilers() {
    let s = Settings::default();
    match get_compiler_storage_path(&s) {
        Ok(p) => assert!(p.ends_with("compilers"), "{}", p),
        Err(e) => assert!(matches!(e, Error::DirectoryResolutionFailed)),
    }
    match get_config_file_path() {
        Ok(p) => assert!(p.ends_with(CONFIG_FILE_NAME), "{}", p),
        Err(e) => assert!(matches!(e, Error::DirectoryResolutionFailed)),
    }
}

#[test]
fn extension_cleaning() {
    assert_eq!(clean_extension(".CR2"), "cr2");
    assert_eq!(clean_extension("..crTest"), "crtest");
    assert_eq!(clean_extension("cr1"), "cr1");
}

#[test]
fn association_set_and_unset() {
    let mut s = Settings::default();
    assert_eq!(set_association(&mut s, "crTest", "test-compiler-v1".to_string()).unwrap(), "crtest");
    assert_eq!(s.file_associations, vec![("crtest".to_string(), "test-compiler-v1".to_string())]);
    assert_eq!(set_association(&mut s, ".CRTEST", "other".to_string()).unwrap(), "crtest");
    assert_eq!(s.file_associations, vec![("crtest".to_string(), "other".to_string())]);
    assert!(unset_association(&mut s, "crtest"));
    assert!(s.file_associations.is_empty());
    assert!(!unset_association(&mut s, "crtest"));
}

#[test]
fn association_refuses_bad_extensions() {
    let mut s = Settings::default();
    assert!(matches!(set_association(&mut s, "...", "c".to_string()), Err(Error::InvalidExtension(e)) if e == "..."));
    assert!(matches!(set_association(&mut s, "tar.gz", "c".to_string()), Err(Error::InvalidExtension(e)) if e == "tar.gz"));
    assert!(s.file_associations.is_empty());
}

#[test]
fn config_values() {
    let mut s = Settings::default();
    set_config_value(&mut s, "wine_path", "/test/path/to/wine".to_string()).unwrap();
    assert_eq!(s.wine_path.as_deref(), Some("/test/path/to/wine"));
    set_config_value(&mut s, "compiler_repository_url", "https://example.com/compilers.toml".to_string()).unwrap();
    assert_eq!(s.compiler_repository_url, "https://example.com/compilers.toml");
    set_config_value(&mut s, "compiler_storage_path", "/store".to_string()).unwrap();
    assert_eq!(s.compiler_storage_path.as_deref(), Some("/store"));
}

#[test]
fn test_config_set_invalid_key() {
    let mut s = Settings::default();
    match set_config_value(&mut s, "this_key_is_bad", "some_value".to_string()) {
        Err(Error::Config(m)) => assert_eq!(m, "Unknown configuration key: this_key_is_bad"),
        other => panic!("unexpected {:?}", other),
    }
    assert_eq!(s.compiler_repository_url, DEFAULT_REPOSITORY_URL);
}
