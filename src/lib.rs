//! Verified core of a toolchain manager for proprietary compilers of an
//! embedded scripting language: the installed-compiler registry, package
//! installation planning and the filesystem actions it leads to, compiler
//! invocation planning, and the reading of compiler output into diagnostics.
use vstd::prelude::*;

pub mod compiler;
pub mod config;
pub mod diagnostics;
pub mod installer;
pub mod table;
pub mod text;
pub mod unpack;

verus! {

/// The repository that lists installable compilers, unless configured otherwise.
pub const DEFAULT_REPOSITORY_URL: &'static str =
    "https://raw.githubusercontent.com/RileyLeff/campbell-scientific-compilers/refs/heads/main/compilers.toml";

/// The registry: what is installed, how file extensions map to compilers,
/// and where compilers come from and are kept.
#[derive(Debug, Clone)]
pub struct Settings {
    pub compiler_repository_url: String,
    /// Where installed compilers are kept; the platform's data directory when absent.
    pub compiler_storage_path: Option<String>,
    /// Installed compilers by id.
    pub installed_compilers: Vec<(String, CompilerInfo)>,
    /// Compiler id by file extension (lower case, without the dot).
    pub file_associations: Vec<(String, String)>,
    /// The compatibility shim to launch foreign-platform compilers with; `wine` from `PATH` when absent.
    pub wine_path: Option<String>,
}

impl Default for Settings {
    fn default() -> (r: Settings)
        ensures
            r.compiler_repository_url@ == DEFAULT_REPOSITORY_URL@,
            r.compiler_storage_path is None,
            r.installed_compilers@.len() == 0,
            r.file_associations@.len() == 0,
            r.wine_path is None,
    {
        Settings {
            compiler_repository_url: String::from_str(DEFAULT_REPOSITORY_URL),
            compiler_storage_path: None,
            installed_compilers: Vec::new(),
            file_associations: Vec::new(),
            wine_path: None,
        }
    }
}

/// A compiler after installation.
#[derive(Debug, Clone)]
pub struct CompilerInfo {
    pub id: String,
    pub description: String,
    pub version: String,
    /// Directory of the compiler, relative to the storage path.
    pub install_subdir: String,
    /// The executable, relative to `install_subdir`.
    pub executable_name: String,
    pub requires_wine: bool,
    pub supported_loggers: Option<Vec<String>>,
}

/// Whether a manifest entry needs the shim when it does not say.
pub fn default_true() -> (r: bool)
    ensures
        r,
{
    true
}

/// The document that lists installable compilers.
#[derive(Debug, Clone)]
pub struct Manifest {
    pub manifest_version: String,
    /// Entries by compiler id.
    pub compilers: Vec<(String, ManifestCompilerEntry)>,
}

/// One installable compiler of a manifest.
#[derive(Debug, Clone)]
pub struct ManifestCompilerEntry {
    pub description: String,
    pub version: String,
    pub download_url: String,
    pub executable_name: String,
    pub requires_wine: bool,
    pub supported_loggers: Option<Vec<String>>,
    /// Hex SHA-256 of the archive; verification is skipped when absent or empty.
    pub sha256: Option<String>,
}

/// One structured error reported by a compiler run.
#[derive(Debug, Clone)]
pub struct CompilationErrorDetail {
    /// The source label from the first line of the compiler's report (informational).
    pub file_path_in_log: String,
    /// 1-based line number, when the report gave one that fits in a `u32`.
    pub line: Option<u32>,
    /// The message; continuation lines are joined with `\n`.
    pub message: String,
}

/// Failures of the library's operations.
#[derive(Debug)]
pub enum Error {
    Config(String),
    Io(std::io::Error),
    Network(String),
    Zip(zip::result::ZipError),
    CompilerNotFound(String),
    NoCompilerForExtension(String),
    WineNotFound,
    Subprocess(std::io::Error),
    /// The compiler reported failure; its diagnostics and its full output.
    CompilationFailed { file_path: String, errors: Vec<CompilationErrorDetail>, raw_log: String },
    /// The compiler's output was not recognized and it exited with failure.
    GenericCompilationFailedWithLog {
        file_path: String,
        raw_log: String,
        stderr: String,
        exit_code: Option<i32>,
    },
    CompilationFailedWithLog { log_content: String },
    InvalidCompilerSource(String),
    DirectoryResolutionFailed,
    CompilerIdNotFoundInManifest(String),
    InvalidExtension(String),
    ChecksumMismatch { compiler_id: String, expected: String, actual: String },
}

/// I/O failures are carried through opaquely.
#[verifier::external_type_specification]
#[verifier::external_body]
pub struct ExIoError(std::io::Error);

/// Archive failures of the zip reader are carried through opaquely.
#[verifier::external_type_specification]
#[verifier::external_body]
pub struct ExZipError(zip::result::ZipError);

} // verus!
