//! Invoking an installed compiler: choosing the compiler for a file,
//! building the command line (through the compatibility shim where the
//! compiler is foreign to the host), and judging what the run produced.
use crate::config::{get_compiler_storage_path, join_path, joined};
use crate::diagnostics::{details_model, parse_compiler_output, parse_output, ParsedOutput, Verdict};
use crate::table::{table_get, table_map};
use crate::text::{case_folded, fold_case};
use crate::installer::info_from_entry;
use crate::{CompilerInfo, Error, ManifestCompilerEntry, Settings};
use vstd::prelude::*;

verus! {

/// The shim launched when none is configured, found through `PATH`.
pub const DEFAULT_SHIM: &'static str = "wine";

/// Last position of `c` in `s`, or -1.
pub open spec fn last_index_of(s: Seq<char>, c: char) -> int
    decreases s.len(),
{
    if s.len() == 0 {
        -1
    } else if s.last() == c {
        s.len() - 1
    } else {
        last_index_of(s.drop_last(), c)
    }
}

/// What follows the last `/`.
pub open spec fn final_component(p: Seq<char>) -> Seq<char> {
    p.subrange(last_index_of(p, '/') + 1, p.len() as int)
}

/// A path that every platform splits the same way: `/` separators only
/// (no `\`, no `:` prefix, no `//`), not ending in `/`, and whose final
/// component is neither `.` nor `..`.
pub open spec fn is_plain_path(p: Seq<char>) -> bool {
    &&& p.len() > 0
    &&& !p.contains('\\')
    &&& !p.contains(':')
    &&& p.last() != '/'
    &&& forall|i: int| 0 <= i < p.len() - 1 ==> !(#[trigger] p[i] == '/' && p[i + 1] == '/')
    &&& final_component(p) != seq!['.']
    &&& final_component(p) != seq!['.', '.']
}

/// The extension of a file name: what follows its last `.`, unless there
/// is none or the only one starts the name.
pub open spec fn name_extension(n: Seq<char>) -> Option<Seq<char>> {
    let i = last_index_of(n, '.');
    if i <= 0 {
        None
    } else {
        Some(n.subrange(i + 1, n.len() as int))
    }
}

/// Relies on `std::path::Path::extension`: the extension of the path's file
/// name, as its documentation states (after the last `.`, none where there
/// is no `.` or the name only starts with one).
#[verifier::external_body]
fn path_extension(path: &str) -> (r: Option<String>)
    ensures
        is_plain_path(path@) ==> match name_extension(final_component(path@)) {
            Some(x) => r matches Some(e) && e@ == x,
            None => r is None,
        },
{
    std::path::Path::new(path).extension().and_then(|e| e.to_str()).map(|e| e.to_string())
}

/// Relies on `std::path::Path::file_name`: the path's final component, or empty.
#[verifier::external_body]
fn path_file_name(path: &str) -> (r: String)
    ensures
        is_plain_path(path@) ==> r@ == final_component(path@),
{
    std::path::Path::new(path).file_name().unwrap_or_default().to_string_lossy().into_owned()
}

/// The compiler id to use: the explicit one, else the one associated with
/// the file's extension in lower case.
pub fn resolve_compiler_id(
    settings: &Settings,
    compiler_id: Option<&str>,
    extension: Option<&str>,
    file_name: &str,
) -> (r: Result<String, Error>)
    ensures
        match compiler_id {
            Some(id) => r matches Ok(s) && s@ == id@,
            None => match extension {
                None => r matches Err(Error::InvalidExtension(f)) && f@ == file_name@,
                Some(e) => {
                    let assoc = table_map(settings.file_associations@);
                    if assoc.contains_key(case_folded(e@)) {
                        r matches Ok(s) && s@ == assoc[case_folded(e@)]@
                    } else {
                        r matches Err(Error::NoCompilerForExtension(x)) && x@ == e@
                    }
                },
            },
        },
{
    match compiler_id {
        Some(id) => Ok(String::from_str(id)),
        None => match extension {
            None => Err(Error::InvalidExtension(String::from_str(file_name))),
            Some(e) => {
                let key = fold_case(e);
                match table_get(&settings.file_associations, key.as_str()) {
                    Some(id) => Ok(id.clone()),
                    None => Err(Error::NoCompilerForExtension(String::from_str(e))),
                }
            },
        },
    }
}

/// A program and its arguments.
#[derive(Debug)]
pub struct CompileCommand {
    pub program: String,
    pub args: Vec<String>,
}

/// How to run a compiler on a file.
#[derive(Debug)]
pub struct CompilePlan {
    pub compiler_id: String,
    /// Must exist before the command is run.
    pub executable_path: String,
    /// The command goes through the compatibility shim.
    pub uses_shim: bool,
    pub command: CompileCommand,
}

/// The compiler is foreign to the host: it needs the shim and the host is not its native platform.
pub open spec fn needs_shim(info: CompilerInfo, host_is_windows: bool) -> bool {
    info.requires_wine && !host_is_windows
}

/// The shim to launch: the configured one, else the default.
pub open spec fn shim_program(settings: Settings) -> Seq<char> {
    match settings.wine_path {
        Some(w) => w@,
        None => DEFAULT_SHIM@,
    }
}

/// `first`, then the input file, then the log path where one was asked for.
pub open spec fn command_args(
    first: Seq<Seq<char>>,
    input: Seq<char>,
    log: Option<&str>,
) -> Seq<Seq<char>> {
    first + seq![input] + match log {
        Some(l) => seq![l@],
        None => Seq::<Seq<char>>::empty(),
    }
}

/// `c` runs the executable `exe` on `input`: through the shim, with the
/// executable as its first argument, where the compiler is foreign to the
/// host; directly otherwise.
pub open spec fn command_for(
    c: CompileCommand,
    settings: Settings,
    info: CompilerInfo,
    exe: Seq<char>,
    input: Seq<char>,
    log: Option<&str>,
    host_is_windows: bool,
) -> bool {
    if needs_shim(info, host_is_windows) {
        c.program@ == shim_program(settings) && c.args.deep_view() == command_args(
            seq![exe],
            input,
            log,
        )
    } else {
        c.program@ == exe && c.args.deep_view() == command_args(seq![], input, log)
    }
}

/// `p` is the plan for compiler `id` (installed as `info`, under storage path `root`).
pub open spec fn plan_for(
    p: CompilePlan,
    settings: Settings,
    id: Seq<char>,
    info: CompilerInfo,
    root: Seq<char>,
    input: Seq<char>,
    log: Option<&str>,
    host_is_windows: bool,
) -> bool {
    let exe = joined(joined(root, info.install_subdir@), info.executable_name@);
    &&& p.compiler_id@ == id
    &&& p.executable_path@ == exe
    &&& p.uses_shim == needs_shim(info, host_is_windows)
    &&& command_for(p.command, settings, info, exe, input, log, host_is_windows)
}

/// What planning for the compiler `id` gives.
pub open spec fn planned_for_id(
    r: Result<CompilePlan, Error>,
    settings: Settings,
    id: Seq<char>,
    input: Seq<char>,
    log: Option<&str>,
    host_is_windows: bool,
) -> bool {
    let installed = table_map(settings.installed_compilers@);
    if !installed.contains_key(id) {
        r matches Err(Error::CompilerNotFound(x)) && x@ == id
    } else {
        match settings.compiler_storage_path {
            Some(root) => match r {
                Ok(p) => plan_for(p, settings, id, installed[id], root@, input, log, host_is_windows),
                Err(_) => false,
            },
            None => match r {
                Ok(p) => exists|root: Seq<char>|
                    #[trigger] plan_for(
                        p,
                        settings,
                        id,
                        installed[id],
                        root,
                        input,
                        log,
                        host_is_windows,
                    ),
                Err(e) => e is DirectoryResolutionFailed,
            },
        }
    }
}

fn build_command(
    settings: &Settings,
    info: &CompilerInfo,
    executable: &String,
    input_file: &str,
    output_log: Option<&str>,
    host_is_windows: bool,
) -> (r: CompileCommand)
    ensures
        command_for(r, *settings, *info, executable@, input_file@, output_log, host_is_windows),
{
    let mut args: Vec<String> = Vec::new();
    let program = if info.requires_wine && !host_is_windows {
        args.push(executable.clone());
        match &settings.wine_path {
            Some(w) => w.clone(),
            None => String::from_str(DEFAULT_SHIM),
        }
    } else {
        executable.clone()
    };
    let ghost first = args.deep_view();
    args.push(String::from_str(input_file));
    match output_log {
        Some(l) => args.push(String::from_str(l)),
        None => {},
    }
    assert(args.deep_view() =~= command_args(first, input_file@, output_log));
    if info.requires_wine && !host_is_windows {
        assert(first =~= seq![executable@]);
    } else {
        assert(first =~= Seq::<Seq<char>>::empty());
    }
    CompileCommand { program, args }
}

/// Plans running the installed compiler `compiler_id` on `input_file`,
/// passing `output_log` on where given.
pub fn plan_for_compiler(
    settings: &Settings,
    compiler_id: &str,
    input_file: &str,
    output_log: Option<&str>,
    host_is_windows: bool,
) -> (r: Result<CompilePlan, Error>)
    ensures
        planned_for_id(r, *settings, compiler_id@, input_file@, output_log, host_is_windows),
{
    let info = match table_get(&settings.installed_compilers, compiler_id) {
        Some(i) => i,
        None => return Err(Error::CompilerNotFound(String::from_str(compiler_id))),
    };
    let root = get_compiler_storage_path(settings)?;
    let dir = join_path(root.as_str(), info.install_subdir.as_str());
    let executable = join_path(dir.as_str(), info.executable_name.as_str());
    let command = build_command(settings, info, &executable, input_file, output_log, host_is_windows);
    let plan = CompilePlan {
        compiler_id: String::from_str(compiler_id),
        executable_path: executable,
        uses_shim: info.requires_wine && !host_is_windows,
        command,
    };
    let r: Result<CompilePlan, Error> = Ok(plan);
    proof {
        let installed = table_map(settings.installed_compilers@);
        assert(installed[compiler_id@] == *info);
        assert(r matches Ok(p) && p == plan);
        assert(plan_for(plan, *settings, compiler_id@, installed[compiler_id@], root@, input_file@, output_log, host_is_windows));
        if settings.compiler_storage_path is Some {
            assert(match r {
                Ok(p) => plan_for(p, *settings, compiler_id@, installed[compiler_id@], settings.compiler_storage_path->0@, input_file@, output_log, host_is_windows),
                Err(_) => false,
            });
        } else {
            assert(exists|x: Seq<char>| #[trigger] plan_for(plan, *settings, compiler_id@, installed[compiler_id@], x, input_file@, output_log, host_is_windows));
            assert(match r {
                Ok(p) => exists|x: Seq<char>| #[trigger] plan_for(p, *settings, compiler_id@, installed[compiler_id@], x, input_file@, output_log, host_is_windows),
                Err(e) => e is DirectoryResolutionFailed,
            });
        }
    }
    assert(planned_for_id(r, *settings, compiler_id@, input_file@, output_log, host_is_windows));
    r
}

/// Plans compiling `input_file`: with the compiler `compiler_id` where
/// given, else with the one associated with the file's extension.
pub fn plan_compile(
    input_file: &str,
    output_log: Option<&str>,
    compiler_id: Option<&str>,
    settings: &Settings,
    host_is_windows: bool,
) -> (r: Result<CompilePlan, Error>)
    ensures
        compiler_id matches Some(id) ==> planned_for_id(
            r,
            *settings,
            id@,
            input_file@,
            output_log,
            host_is_windows,
        ),
        compiler_id is None && is_plain_path(input_file@) ==> match name_extension(
            final_component(input_file@),
        ) {
            None => r matches Err(Error::InvalidExtension(f)) && f@ == final_component(input_file@),
            Some(e) => {
                let assoc = table_map(settings.file_associations@);
                if assoc.contains_key(case_folded(e)) {
                    planned_for_id(
                        r,
                        *settings,
                        assoc[case_folded(e)]@,
                        input_file@,
                        output_log,
                        host_is_windows,
                    )
                } else {
                    r matches Err(Error::NoCompilerForExtension(x)) && x@ == e
                }
            },
        },
        compiler_id is None ==> match r {
            Err(Error::InvalidExtension(_)) => true,
            Err(Error::NoCompilerForExtension(x)) => !table_map(
                settings.file_associations@,
            ).contains_key(case_folded(x@)),
            _ => exists|ext: Seq<char>|
                table_map(settings.file_associations@).contains_key(case_folded(ext)) && planned_for_id(
                    r,
                    *settings,
                    #[trigger] table_map(settings.file_associations@)[case_folded(ext)]@,
                    input_file@,
                    output_log,
                    host_is_windows,
                ),
        },
{
    match compiler_id {
        Some(id) => plan_for_compiler(settings, id, input_file, output_log, host_is_windows),
        None => {
            let name = path_file_name(input_file);
            match path_extension(input_file) {
                None => Err(Error::InvalidExtension(name)),
                Some(e) => {
                    let id = resolve_compiler_id(settings, None, Some(e.as_str()), name.as_str())?;
                    let r = plan_for_compiler(
                        settings,
                        id.as_str(),
                        input_file,
                        output_log,
                        host_is_windows,
                    );
                    assert(planned_for_id(
                        r,
                        *settings,
                        table_map(settings.file_associations@)[case_folded(e@)]@,
                        input_file@,
                        output_log,
                        host_is_windows,
                    ));
                    r
                },
            }
        },
    }
}

/// Once `entry` is recorded as installed under `id` (as
/// `record_installation` records it) and a storage path `root` is set,
/// planning for `id` runs `root/id/<executable>` on the input: through the
/// shim exactly when the entry needs it and the host is not Windows,
/// directly otherwise.
pub proof fn lemma_recorded_compiler_plan(
    settings: Settings,
    id: Seq<char>,
    entry: ManifestCompilerEntry,
    input: Seq<char>,
    log: Option<&str>,
    host_is_windows: bool,
    r: Result<CompilePlan, Error>,
)
    requires
        table_map(settings.installed_compilers@).contains_key(id),
        info_from_entry(table_map(settings.installed_compilers@)[id], id, entry),
        settings.compiler_storage_path is Some,
        planned_for_id(r, settings, id, input, log, host_is_windows),
    ensures
        ({
            let exe = joined(
                joined(settings.compiler_storage_path->0@, id),
                entry.executable_name@,
            );
            match r {
                Ok(p) => {
                    &&& p.executable_path@ == exe
                    &&& p.uses_shim == (entry.requires_wine && !host_is_windows)
                    &&& p.uses_shim ==> p.command.program@ == shim_program(settings)
                        && p.command.args.deep_view() == command_args(seq![exe], input, log)
                    &&& !p.uses_shim ==> p.command.program@ == exe && p.command.args.deep_view()
                        == command_args(seq![], input, log)
                },
                Err(_) => false,
            }
        }),
{
}

/// A compiler run that succeeded.
#[derive(Debug)]
pub enum CompileSuccess {
    /// The compiler reported success.
    Compiled,
    /// The output was not recognized but the process exited with success;
    /// the output is kept for the caller to show.
    UnrecognizedOutput { raw_output: String },
}

/// What a finished compiler run means for the caller: success, failure
/// with the parsed diagnostics and the full output, or, where the output
/// was not recognized, the process's exit status decides and the full
/// output is kept either way.
pub fn interpret_output(
    input_file: &str,
    stdout: String,
    stderr: String,
    exit_success: bool,
    exit_code: Option<i32>,
) -> (r: Result<CompileSuccess, Error>)
    ensures
        match parse_output(stdout@) {
            Verdict::Success => r matches Ok(CompileSuccess::Compiled),
            Verdict::Failed { label, diagnostics } => match r {
                Err(Error::CompilationFailed { file_path, errors, raw_log }) => {
                    &&& file_path@ == input_file@
                    &&& details_model(errors@, label, diagnostics)
                    &&& raw_log@ == stdout@
                },
                _ => false,
            },
            Verdict::Unrecognized => if exit_success {
                r matches Ok(CompileSuccess::UnrecognizedOutput { raw_output }) && raw_output@
                    == stdout@
            } else {
                match r {
                    Err(Error::GenericCompilationFailedWithLog { file_path, raw_log, stderr: e, exit_code: c }) => {
                        &&& file_path@ == input_file@
                        &&& raw_log@ == stdout@
                        &&& e@ == stderr@
                        &&& c == exit_code
                    },
                    _ => false,
                }
            },
        },
{
    match parse_compiler_output(stdout.as_str()) {
        ParsedOutput::Success => Ok(CompileSuccess::Compiled),
        ParsedOutput::Failed(errors) => Err(
            Error::CompilationFailed {
                file_path: String::from_str(input_file),
                errors,
                raw_log: stdout,
            },
        ),
        ParsedOutput::Unrecognized => {
            if exit_success {
                Ok(CompileSuccess::UnrecognizedOutput { raw_output: stdout })
            } else {
                Err(
                    Error::GenericCompilationFailedWithLog {
                        file_path: String::from_str(input_file),
                        raw_log: stdout,
                        stderr,
                        exit_code,
                    },
                )
            }
        },
    }
}

/// The error for a command that could not be started: where the plan goes
/// through the shim and the system reports the program missing, the shim is
/// what is missing (the compiler's executable was found before the launch);
/// otherwise the system's error.
pub fn launch_failure(plan: &CompilePlan, not_found: bool, err: std::io::Error) -> (r: Error)
    ensures
        plan.uses_shim && not_found ==> r is WineNotFound,
        !(plan.uses_shim && not_found) ==> r == Error::Subprocess(err),
{
    if plan.uses_shim && not_found {
        Error::WineNotFound
    } else {
        Error::Subprocess(err)
    }
}

/// The 0-based line of a diagnostic, for editors that count from zero; the
/// first line where none was given.
pub fn zero_based_line(line: Option<u32>) -> (r: u32)
    ensures
        r == match line {
            Some(n) => if n > 0 { (n - 1) as u32 } else { 0 },
            None => 0,
        },
{
    match line {
        Some(n) => if n > 0 { n - 1 } else { 0 },
        None => 0,
    }
}

} // verus!
