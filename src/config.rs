//! Where things are kept, and the edits that the configuration commands make
//! to the registry.
use crate::table::{table_insert, table_map, table_remove};
use crate::text::{case_folded, chars_of, fold_case, push_char, string_of, sub_vec};
use crate::{Error, Settings};
use directories::ProjectDirs;
use vstd::prelude::*;

verus! {

/// Name of the configuration file inside the configuration directory.
pub const CONFIG_FILE_NAME: &'static str = "config.toml";

/// Name of the directory, inside the data directory, that holds installed compilers.
pub const COMPILERS_DIR_NAME: &'static str = "compilers";

pub const QUALIFIER: &'static str = "com";

pub const ORGANIZATION: &'static str = "YourOrg";

pub const APPLICATION: &'static str = "crbrs";

/// The platform's per-application directories, carried through opaquely.
#[verifier::external_type_specification]
#[verifier::external_body]
pub struct ExProjectDirs(directories::ProjectDirs);

/// Relies on `directories::ProjectDirs::from`: the application's directories,
/// or none where no home directory is known. Depends on the environment.
#[verifier::external_body]
fn project_dirs_from(qualifier: &str, organization: &str, application: &str) -> (r: Option<
    ProjectDirs,
>) {
    ProjectDirs::from(qualifier, organization, application)
}

/// Relies on `directories::ProjectDirs::data_local_dir`: the local data directory.
#[verifier::external_body]
fn data_local_dir_of(dirs: &ProjectDirs) -> (r: String) {
    dirs.data_local_dir().to_string_lossy().into_owned()
}

/// Relies on `directories::ProjectDirs::config_dir`: the configuration directory.
#[verifier::external_body]
fn config_dir_of(dirs: &ProjectDirs) -> (r: String) {
    dirs.config_dir().to_string_lossy().into_owned()
}

pub open spec fn is_separator(c: char) -> bool {
    c == '/' || c == '\\'
}

/// `rel` under `base`: one `/` between them unless `base` is empty or already ends in a separator.
pub open spec fn joined(base: Seq<char>, rel: Seq<char>) -> Seq<char> {
    if base.len() == 0 {
        rel
    } else if is_separator(base.last()) {
        base + rel
    } else {
        base + seq!['/'] + rel
    }
}

/// The path `rel` under `base`.
pub fn join_path(base: &str, rel: &str) -> (r: String)
    ensures
        r@ == joined(base@, rel@),
{
    let b = chars_of(base);
    let mut r = String::from_str(base);
    if b.len() > 0 && b[b.len() - 1] != '/' && b[b.len() - 1] != '\\' {
        push_char(&mut r, '/');
    }
    r.append(rel);
    r
}

/// The application's platform directories.
pub fn get_project_dirs() -> (r: Result<ProjectDirs, Error>)
    ensures
        r is Err ==> r matches Err(Error::DirectoryResolutionFailed),
{
    match project_dirs_from(QUALIFIER, ORGANIZATION, APPLICATION) {
        Some(d) => Ok(d),
        None => Err(Error::DirectoryResolutionFailed),
    }
}

/// The directory that holds installed compilers: the configured one, else
/// `compilers` under the platform's local data directory.
pub fn get_compiler_storage_path(settings: &Settings) -> (r: Result<String, Error>)
    ensures
        match settings.compiler_storage_path {
            Some(p) => r matches Ok(s) && s@ == p@,
            None => match r {
                Ok(s) => exists|base: Seq<char>| s@ == #[trigger] joined(base, COMPILERS_DIR_NAME@),
                Err(e) => e is DirectoryResolutionFailed,
            },
        },
{
    match &settings.compiler_storage_path {
        Some(p) => Ok(p.clone()),
        None => {
            let dirs = get_project_dirs()?;
            let base = data_local_dir_of(&dirs);
            let r = join_path(base.as_str(), COMPILERS_DIR_NAME);
            assert(r@ == joined(base@, COMPILERS_DIR_NAME@));
            Ok(r)
        },
    }
}

/// The configuration file: `config.toml` in the platform's configuration directory.
pub fn get_config_file_path() -> (r: Result<String, Error>)
    ensures
        match r {
            Ok(s) => exists|base: Seq<char>| s@ == #[trigger] joined(base, CONFIG_FILE_NAME@),
            Err(e) => e is DirectoryResolutionFailed,
        },
{
    let dirs = get_project_dirs()?;
    let base = config_dir_of(&dirs);
    let r = join_path(base.as_str(), CONFIG_FILE_NAME);
    assert(r@ == joined(base@, CONFIG_FILE_NAME@));
    Ok(r)
}

/// Number of leading `.` characters of `s`.
pub open spec fn leading_dots(s: Seq<char>) -> int
    decreases s.len(),
{
    if s.len() > 0 && s[0] == '.' {
        1 + leading_dots(s.drop_first())
    } else {
        0
    }
}

proof fn lemma_leading_dots(s: Seq<char>, i: int)
    requires
        0 <= i <= s.len(),
        forall|k: int| 0 <= k < i ==> s[k] == '.',
    ensures
        leading_dots(s) == i + leading_dots(s.subrange(i, s.len() as int)),
    decreases i,
{
    if i > 0 {
        assert(s[0] == '.');
        assert(s.drop_first().subrange(i - 1, s.drop_first().len() as int) =~= s.subrange(
            i,
            s.len() as int,
        ));
        lemma_leading_dots(s.drop_first(), i - 1);
    } else {
        assert(s.subrange(0, s.len() as int) =~= s);
    }
}

/// An extension as the registry keys it: without leading dots, in lower case.
pub open spec fn cleaned_extension(ext: Seq<char>) -> Seq<char> {
    case_folded(ext.subrange(leading_dots(ext), ext.len() as int))
}

/// The extension as the registry keys it.
pub fn clean_extension(extension: &str) -> (r: String)
    ensures
        r@ == cleaned_extension(extension@),
{
    let c = chars_of(extension);
    let mut i: usize = 0;
    while i < c.len() && c[i] == '.'
        invariant
            i <= c@.len(),
            c@ == extension@,
            forall|k: int| 0 <= k < i ==> c@[k] == '.',
        decreases c@.len() - i,
    {
        i = i + 1;
    }
    proof {
        lemma_leading_dots(c@, i as int);
        assert(leading_dots(c@.subrange(i as int, c@.len() as int)) == 0);
    }
    let rest = string_of(&sub_vec(&c, i, c.len()));
    fold_case(rest.as_str())
}

/// Does `s` hold the character `ch`?
fn has_char(s: &str, ch: char) -> (r: bool)
    ensures
        r == s@.contains(ch),
{
    let c = chars_of(s);
    let mut i: usize = 0;
    while i < c.len()
        invariant
            i <= c@.len(),
            c@ == s@,
            forall|k: int| 0 <= k < i ==> c@[k] != ch,
        decreases c@.len() - i,
    {
        if c[i] == ch {
            return true;
        }
        i = i + 1;
    }
    false
}

/// Associates `extension` with `compiler_id` and gives the extension as
/// stored. An extension that is empty once cleaned, or that still holds a
/// dot, is refused.
pub fn set_association(settings: &mut Settings, extension: &str, compiler_id: String) -> (r: Result<
    String,
    Error,
>)
    ensures
        ({
            let e = cleaned_extension(extension@);
            if e.len() == 0 || e.contains('.') {
                &&& r matches Err(Error::InvalidExtension(x)) && x@ == extension@
                &&& *final(settings) == *old(settings)
            } else {
                &&& r matches Ok(s) && s@ == e
                &&& table_map(final(settings).file_associations@) == table_map(
                    old(settings).file_associations@,
                ).insert(e, compiler_id)
                &&& final(settings).installed_compilers == old(settings).installed_compilers
                &&& final(settings).compiler_repository_url == old(settings).compiler_repository_url
                &&& final(settings).compiler_storage_path == old(settings).compiler_storage_path
                &&& final(settings).wine_path == old(settings).wine_path
            }
        }),
{
    let cleaned = clean_extension(extension);
    if cleaned.as_str().unicode_len() == 0 || has_char(cleaned.as_str(), '.') {
        return Err(Error::InvalidExtension(String::from_str(extension)));
    }
    table_insert(&mut settings.file_associations, cleaned.clone(), compiler_id);
    Ok(cleaned)
}

/// Removes the association of `extension`; says whether there was one.
pub fn unset_association(settings: &mut Settings, extension: &str) -> (r: bool)
    ensures
        ({
            let e = cleaned_extension(extension@);
            &&& r == table_map(old(settings).file_associations@).contains_key(e)
            &&& table_map(final(settings).file_associations@) == table_map(
                old(settings).file_associations@,
            ).remove(e)
            &&& final(settings).installed_compilers == old(settings).installed_compilers
            &&& final(settings).compiler_repository_url == old(settings).compiler_repository_url
            &&& final(settings).compiler_storage_path == old(settings).compiler_storage_path
            &&& final(settings).wine_path == old(settings).wine_path
        }),
{
    let cleaned = clean_extension(extension);
    let present = crate::table::table_contains(&settings.file_associations, cleaned.as_str());
    table_remove(&mut settings.file_associations, cleaned.as_str());
    present
}

/// The message for a key that the configuration does not have.
pub open spec fn unknown_key_message(key: Seq<char>) -> Seq<char> {
    "Unknown configuration key: "@ + key
}

/// Sets one of the configuration's plain values by its key:
/// `compiler_repository_url`, `wine_path` or `compiler_storage_path`.
pub fn set_config_value(settings: &mut Settings, key: &str, value: String) -> (r: Result<(), Error>)
    ensures
        key@ == "compiler_repository_url"@ ==> {
            &&& r is Ok
            &&& final(settings).compiler_repository_url@ == value@
            &&& final(settings).compiler_storage_path == old(settings).compiler_storage_path
            &&& final(settings).wine_path == old(settings).wine_path
        },
        key@ == "wine_path"@ ==> {
            &&& r is Ok
            &&& final(settings).wine_path matches Some(w) && w@ == value@
            &&& final(settings).compiler_repository_url == old(settings).compiler_repository_url
            &&& final(settings).compiler_storage_path == old(settings).compiler_storage_path
        },
        key@ == "compiler_storage_path"@ ==> {
            &&& r is Ok
            &&& final(settings).compiler_storage_path matches Some(p) && p@ == value@
            &&& final(settings).compiler_repository_url == old(settings).compiler_repository_url
            &&& final(settings).wine_path == old(settings).wine_path
        },
        key@ != "compiler_repository_url"@ && key@ != "wine_path"@ && key@
            != "compiler_storage_path"@ ==> {
            &&& r matches Err(Error::Config(m)) && m@ == unknown_key_message(key@)
            &&& *final(settings) == *old(settings)
        },
        final(settings).installed_compilers == old(settings).installed_compilers,
        final(settings).file_associations == old(settings).file_associations,
{
    proof {
        reveal_strlit("compiler_repository_url");
        reveal_strlit("wine_path");
        reveal_strlit("compiler_storage_path");
        assert("compiler_repository_url"@.len() == 23);
        assert("wine_path"@.len() == 9);
        assert("compiler_storage_path"@.len() == 21);
    }
    let k = String::from_str(key);
    if k == String::from_str("compiler_repository_url") {
        settings.compiler_repository_url = value;
        Ok(())
    } else if k == String::from_str("wine_path") {
        settings.wine_path = Some(value);
        Ok(())
    } else if k == String::from_str("compiler_storage_path") {
        settings.compiler_storage_path = Some(value);
        Ok(())
    } else {
        let mut m = String::from_str("Unknown configuration key: ");
        m.append(key);
        Err(Error::Config(m))
    }
}

} // verus!
