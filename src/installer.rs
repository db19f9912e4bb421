//! Installing and removing compilers: the manifest lookup, the integrity
//! check of a downloaded archive, the guarded plan for unpacking it, and the
//! registry updates that follow.
use crate::config::{get_compiler_storage_path, is_separator, join_path, joined};
use crate::table::{table_get, table_insert, table_map, table_remove};
use crate::text::{
    case_folded, chars_of, fold_case, is_lower_ascii, lemma_lower_ascii_folds_to_itself, push_char,
};
use crate::{CompilerInfo, Error, Manifest, ManifestCompilerEntry, Settings};
use std::io::Cursor;
use std::io::Read;
use vstd::prelude::*;
use zip::result::ZipError;
use zip::ZipArchive;

verus! {

/// The entry for `compiler_id` in the manifest.
pub fn find_manifest_entry<'a>(manifest: &'a Manifest, compiler_id: &str) -> (r: Result<
    &'a ManifestCompilerEntry,
    Error,
>)
    ensures
        match r {
            Ok(e) => table_map(manifest.compilers@).contains_key(compiler_id@) && table_map(
                manifest.compilers@,
            )[compiler_id@] == *e,
            Err(err) => !table_map(manifest.compilers@).contains_key(compiler_id@) && (err matches Error::CompilerIdNotFoundInManifest(id) && id@ == compiler_id@),
        },
{
    match table_get(&manifest.compilers, compiler_id) {
        Some(e) => Ok(e),
        None => Err(Error::CompilerIdNotFoundInManifest(String::from_str(compiler_id))),
    }
}

// ---------------------------------------------------------------------------
// Integrity
/// What SHA-256 makes of a byte sequence.
pub uninterp spec fn sha256_of(data: Seq<u8>) -> Seq<u8>;

/// Relies on `sha2::Sha256::digest`: the SHA-256 digest of `data`, 32 bytes.
#[verifier::external_body]
fn sha256_digest(data: &[u8]) -> (r: Vec<u8>)
    ensures
        r@ == sha256_of(data@),
        r@.len() == 32,
{
    <sha2::Sha256 as sha2::Digest>::digest(data).to_vec()
}

/// Lower-case hex digit for `n < 16`.
pub open spec fn hex_digit(n: u8) -> char {
    if n < 10 {
        (('0' as u8) + n) as char
    } else {
        (('a' as u8) + n - 10) as char
    }
}

/// Two lower-case hex digits per byte, most significant first.
pub open spec fn hex_of(b: Seq<u8>) -> Seq<char>
    decreases b.len(),
{
    if b.len() == 0 {
        seq![]
    } else {
        hex_of(b.drop_last()) + seq![hex_digit(b.last() / 16), hex_digit(b.last() % 16)]
    }
}

fn hex_digit_exec(n: u8) -> (c: char)
    requires
        n < 16,
    ensures
        c == hex_digit(n),
{
    if n < 10 {
        (('0' as u8) + n) as char
    } else {
        (('a' as u8) + n - 10) as char
    }
}

/// Lower-case hex encoding of `b`.
pub fn hex_lower(b: &[u8]) -> (r: String)
    ensures
        r@ == hex_of(b@),
{
    let mut r = String::new();
    let mut i: usize = 0;
    while i < b.len()
        invariant
            i <= b@.len(),
            r@ == hex_of(b@.subrange(0, i as int)),
        decreases b@.len() - i,
    {
        let x = b[i];
        push_char(&mut r, hex_digit_exec(x / 16));
        push_char(&mut r, hex_digit_exec(x % 16));
        assert(b@.subrange(0, i + 1).drop_last() =~= b@.subrange(0, i as int));
        i = i + 1;
    }
    assert(b@.subrange(0, b@.len() as int) =~= b@);
    r
}

/// The manifest declares a digest to check: present and not empty.
pub open spec fn declares_digest(expected: Option<String>) -> bool {
    expected matches Some(e) && e@.len() > 0
}

/// Checks an archive's hex digest `actual` against the declared one,
/// ignoring case. Without a declared digest there is nothing to check.
pub fn verify_checksum(compiler_id: &str, expected: &Option<String>, actual: String) -> (r: Result<
    (),
    Error,
>)
    ensures
        match *expected {
            Some(e) if e@.len() > 0 && case_folded(e@) != case_folded(actual@) => r matches Err(
                Error::ChecksumMismatch { compiler_id: c, expected: x, actual: a },
            ) && c@ == compiler_id@ && x@ == e@ && a@ == actual@,
            _ => r is Ok,
        },
{
    match expected {
        Some(e) => {
            if e.as_str().unicode_len() == 0 {
                return Ok(());
            }
            let a = fold_case(actual.as_str());
            let x = fold_case(e.as_str());
            if a == x {
                Ok(())
            } else {
                Err(
                    Error::ChecksumMismatch {
                        compiler_id: String::from_str(compiler_id),
                        expected: e.clone(),
                        actual,
                    },
                )
            }
        },
        None => Ok(()),
    }
}

// ---------------------------------------------------------------------------
// Unpacking
/// The in-memory reader of archive bytes.
#[verifier::external_type_specification]
#[verifier::external_body]
#[verifier::reject_recursive_types(T)]
pub struct ExCursor<T>(Cursor<T>);

/// A zip archive being read, carried through opaquely.
#[verifier::external_type_specification]
#[verifier::external_body]
#[verifier::reject_recursive_types(R)]
pub struct ExZipArchive<R>(ZipArchive<R>);

/// What a zip archive's bytes hold, entry by entry in the archive's order:
/// the stored name, the recorded permission bits and the decompressed
/// contents. It depends on the bytes alone.
pub uninterp spec fn zip_entries_of(bytes: Seq<u8>) -> Seq<(Seq<char>, Option<u32>, Seq<u8>)>;

/// The entries of an opened archive, in the same form.
pub uninterp spec fn archive_entries(archive: ZipArchive<Cursor<Vec<u8>>>) -> Seq<
    (Seq<char>, Option<u32>, Seq<u8>),
>;

/// The bytes read as a zip archive: it opens, and every entry in it can be
/// read in full. It depends on the bytes alone.
pub uninterp spec fn zip_readable(bytes: Seq<u8>) -> bool;

/// An opened archive whose every entry can be read in full.
pub uninterp spec fn archive_readable(archive: ZipArchive<Cursor<Vec<u8>>>) -> bool;

/// Relies on `zip::ZipArchive::new`: reads the archive's central directory;
/// the archive then holds the entries that the bytes describe.
#[verifier::external_body]
fn open_archive(bytes: Vec<u8>) -> (r: Result<ZipArchive<Cursor<Vec<u8>>>, ZipError>)
    ensures
        zip_readable(bytes@) ==> r is Ok,
        r matches Ok(a) ==> archive_entries(a) == zip_entries_of(bytes@) && archive_readable(a)
            == zip_readable(bytes@),
{
    ZipArchive::new(Cursor::new(bytes))
}

/// Relies on `zip::ZipArchive::len`: the number of entries.
#[verifier::external_body]
fn archive_len(archive: &ZipArchive<Cursor<Vec<u8>>>) -> (r: usize)
    ensures
        r == archive_entries(*archive).len(),
{
    archive.len()
}

/// One archive entry, read into plain values.
pub struct ArchiveEntry {
    /// The name as stored in the archive.
    pub name: String,
    /// The name, where the reader judged it enclosed (see `read_entry`).
    pub enclosed_name: Option<String>,
    /// The recorded permission bits, if any.
    pub unix_mode: Option<u32>,
    /// The decompressed contents.
    pub contents: Vec<u8>,
}

/// Relies on `zip::ZipArchive::by_index` and, on the entry it gives,
/// `name`, `unix_mode`, `std::io::Read::read_to_end` for the decompressed
/// contents, and `enclosed_name`: the stored name itself, where it holds no
/// NUL, has no root or drive prefix and never climbs above its start (so
/// always where the name stays inside, on any platform).
#[verifier::external_body]
fn read_entry(archive: &mut ZipArchive<Cursor<Vec<u8>>>, index: usize) -> (r: Result<
    ArchiveEntry,
    ZipError,
>)
    ensures
        archive_entries(*final(archive)) == archive_entries(*old(archive)),
        archive_readable(*final(archive)) == archive_readable(*old(archive)),
        archive_readable(*old(archive)) && index < archive_entries(*old(archive)).len() ==> r is Ok,
        r matches Ok(e) ==> {
            &&& index < archive_entries(*old(archive)).len()
            &&& e.name@ == archive_entries(*old(archive))[index as int].0
            &&& e.unix_mode == archive_entries(*old(archive))[index as int].1
            &&& e.contents@ == archive_entries(*old(archive))[index as int].2
            &&& (e.enclosed_name matches Some(n) ==> n@ == e.name@)
            &&& (stays_inside(e.name@) ==> (e.enclosed_name matches Some(n) && n@ == e.name@))
        },
{
    let mut file = archive.by_index(index)?;
    let mut contents = Vec::new();
    file.read_to_end(&mut contents)?;
    Ok(ArchiveEntry {
        name: file.name().to_string(),
        enclosed_name: file.enclosed_name().map(|p| p.to_string_lossy().into_owned()),
        unix_mode: file.unix_mode(),
        contents,
    })
}

/// `..` stands as a whole path component at `i`.
pub open spec fn parent_at(n: Seq<char>, i: int) -> bool {
    &&& 0 <= i
    &&& i + 2 <= n.len()
    &&& n[i] == '.'
    &&& n[i + 1] == '.'
    &&& (i == 0 || is_separator(n[i - 1]))
    &&& (i + 2 == n.len() || is_separator(n[i + 2]))
}

/// Joined under a directory, the name `n` names something inside it: it is
/// not empty, does not start at a root, has no drive or stream prefix (`:`),
/// no NUL, and no `..` component.
pub open spec fn stays_inside(n: Seq<char>) -> bool {
    &&& n.len() > 0
    &&& !is_separator(n[0])
    &&& !n.contains(':')
    &&& !n.contains('\0')
    &&& forall|i: int| !#[trigger] parent_at(n, i)
}

/// A name that starts at a root, carries a drive or stream prefix, or
/// climbs with a `..` component is never unpacked.
pub proof fn lemma_escaping_names_refused(n: Seq<char>)
    requires
        (n.len() > 0 && is_separator(n[0])) || n.contains(':') || exists|i: int| parent_at(n, i),
    ensures
        !stays_inside(n),
{
}

/// Is `name` safe to unpack under the install directory?
pub fn is_safe_entry_name(name: &str) -> (r: bool)
    ensures
        r == stays_inside(name@),
{
    let c = chars_of(name);
    let n = c.len();
    if n == 0 || c[0] == '/' || c[0] == '\\' {
        return false;
    }
    let mut i: usize = 0;
    while i < n
        invariant
            n == c@.len(),
            c@ == name@,
            i <= n,
            forall|k: int| 0 <= k < i ==> c@[k] != ':' && c@[k] != '\0',
            forall|k: int| 0 <= k < i ==> !#[trigger] parent_at(c@, k),
        decreases n - i,
    {
        if c[i] == ':' || c[i] == '\0' {
            return false;
        }
        if n - i >= 2 && c[i] == '.' && c[i + 1] == '.' && (i == 0 || c[i - 1] == '/' || c[i - 1]
            == '\\') && (i + 2 == n || c[i + 2] == '/' || c[i + 2] == '\\') {
            assert(parent_at(c@, i as int));
            return false;
        }
        i = i + 1;
    }
    assert forall|k: int| !#[trigger] parent_at(c@, k) by {
        if 0 <= k < n {
        }
    }
    true
}

/// One thing to create under the install directory.
#[derive(Debug)]
pub enum ExtractStep {
    /// A directory, with the permission bits to give it (never zero).
    Directory { relative: String, mode: Option<u32> },
    /// A file and its contents, with the permission bits to give it (never zero).
    File { relative: String, contents: Vec<u8>, mode: Option<u32> },
}

impl ExtractStep {
    pub open spec fn relative_view(&self) -> Seq<char> {
        match self {
            ExtractStep::Directory { relative, .. } => relative@,
            ExtractStep::File { relative, .. } => relative@,
        }
    }

    pub open spec fn mode_view(&self) -> Option<u32> {
        match self {
            ExtractStep::Directory { mode, .. } => *mode,
            ExtractStep::File { mode, .. } => *mode,
        }
    }

    /// The path of this step, relative to the install directory.
    pub fn relative(&self) -> (r: &String)
        ensures
            r@ == self.relative_view(),
    {
        match self {
            ExtractStep::Directory { relative, .. } => relative,
            ExtractStep::File { relative, .. } => relative,
        }
    }
}

/// A step in the model.
pub enum StepView {
    Directory(Seq<char>, Option<u32>),
    File(Seq<char>, Seq<u8>, Option<u32>),
}

impl ExtractStep {
    pub open spec fn model(&self) -> StepView {
        match self {
            ExtractStep::Directory { relative, mode } => StepView::Directory(relative@, *mode),
            ExtractStep::File { relative, contents, mode } => StepView::File(
                relative@,
                contents@,
                *mode,
            ),
        }
    }
}

/// Permission bits worth setting: none for zero.
pub open spec fn nonzero_mode(m: Option<u32>) -> Option<u32> {
    match m {
        Some(x) => if x != 0 {
            Some(x)
        } else {
            None
        },
        None => None,
    }
}

/// A stored name ending in `/` marks a directory.
pub open spec fn names_directory(n: Seq<char>) -> bool {
    n.len() > 0 && n.last() == '/'
}

/// The step for one archive entry.
pub open spec fn entry_step(e: (Seq<char>, Option<u32>, Seq<u8>)) -> StepView {
    if names_directory(e.0) {
        StepView::Directory(e.0, nonzero_mode(e.1))
    } else {
        StepView::File(e.0, e.2, nonzero_mode(e.1))
    }
}

/// The steps for an archive's entries: one per entry whose name stays
/// inside, in order; the others are skipped.
pub open spec fn planned_steps(entries: Seq<(Seq<char>, Option<u32>, Seq<u8>)>) -> Seq<StepView>
    decreases entries.len(),
{
    if entries.len() == 0 {
        seq![]
    } else {
        let before = planned_steps(entries.drop_last());
        if stays_inside(entries.last().0) {
            before.push(entry_step(entries.last()))
        } else {
            before
        }
    }
}

/// A step that may be carried out under the install directory.
pub open spec fn step_is_guarded(s: ExtractStep) -> bool {
    &&& stays_inside(s.relative_view())
    &&& !(s.mode_view() matches Some(m) && m == 0)
}

/// Does the stored name mark a directory?
fn ends_with_slash(s: &str) -> (r: bool)
    ensures
        r == (s@.len() > 0 && s@.last() == '/'),
{
    let c = chars_of(s);
    c.len() > 0 && c[c.len() - 1] == '/'
}

/// Reads the archive and lists what to create, entry by entry: each entry
/// whose name stays inside becomes a directory (name ending in `/`) or a
/// file with its contents; the others are skipped. Permission bits of zero
/// are dropped.
pub fn plan_extraction(archive_bytes: Vec<u8>) -> (r: Result<Vec<ExtractStep>, Error>)
    ensures
        r matches Ok(steps) ==> steps@.map_values(|s: ExtractStep| s.model()) == planned_steps(
            zip_entries_of(archive_bytes@),
        ),
        r matches Ok(steps) ==> forall|k: int|
            0 <= k < steps@.len() ==> step_is_guarded(#[trigger] steps@[k]),
        r matches Err(e) ==> e is Zip && !zip_readable(archive_bytes@),
{
    let ghost bytes = archive_bytes@;
    let mut archive = match open_archive(archive_bytes) {
        Ok(a) => a,
        Err(e) => return Err(Error::Zip(e)),
    };
    let ghost ents = archive_entries(archive);
    let n = archive_len(&archive);
    let mut steps: Vec<ExtractStep> = Vec::new();
    let mut i: usize = 0;
    assert(ents.subrange(0, 0) =~= Seq::<(Seq<char>, Option<u32>, Seq<u8>)>::empty());
    assert(steps@.map_values(|s: ExtractStep| s.model()) =~= Seq::<StepView>::empty());
    while i < n
        invariant
            i <= n == ents.len(),
            ents == zip_entries_of(bytes),
            archive_entries(archive) == ents,
            archive_readable(archive) == zip_readable(bytes),
            bytes == archive_bytes@,
            steps@.map_values(|s: ExtractStep| s.model()) == planned_steps(ents.subrange(0, i as int)),
            forall|k: int| 0 <= k < steps@.len() ==> step_is_guarded(#[trigger] steps@[k]),
        decreases n - i,
    {
        let entry = match read_entry(&mut archive, i) {
            Ok(e) => e,
            Err(e) => return Err(Error::Zip(e)),
        };
        let ghost e = ents[i as int];
        proof {
            let pre = ents.subrange(0, i + 1);
            assert(pre.drop_last() =~= ents.subrange(0, i as int));
            assert(pre.last() == e);
        }
        i = i + 1;
        let ArchiveEntry { name, enclosed_name, unix_mode, contents } = entry;
        let relative = match enclosed_name {
            Some(p) => p,
            None => continue,
        };
        if !is_safe_entry_name(relative.as_str()) {
            continue;
        }
        let mode = match unix_mode {
            Some(m) if m != 0 => Some(m),
            _ => None,
        };
        let ghost before = steps@;
        let step = if ends_with_slash(name.as_str()) {
            ExtractStep::Directory { relative, mode }
        } else {
            ExtractStep::File { relative, contents, mode }
        };
        assert(step_is_guarded(step));
        assert(step.model() == entry_step(e));
        steps.push(step);
        assert(steps@.map_values(|s: ExtractStep| s.model()) =~= before.map_values(
            |s: ExtractStep| s.model(),
        ).push(step.model()));
    }
    assert(ents.subrange(0, n as int) =~= ents);
    Ok(steps)
}

/// Checks a downloaded archive against the manifest entry's declared
/// digest, then plans its unpacking. Nothing is written and the registry is
/// not touched: a mismatch is reported before anything else happens.
pub fn prepare_install(
    compiler_id: &str,
    entry: &ManifestCompilerEntry,
    archive_bytes: Vec<u8>,
) -> (r: Result<Vec<ExtractStep>, Error>)
    ensures
        ({
            let actual = hex_of(sha256_of(archive_bytes@));
            match entry.sha256 {
                Some(e) if e@.len() > 0 && case_folded(e@) != actual => r matches Err(
                    Error::ChecksumMismatch { compiler_id: c, expected: x, actual: a },
                ) && c@ == compiler_id@ && x@ == e@ && a@ == actual,
                _ => match r {
                    Ok(steps) => steps@.map_values(|s: ExtractStep| s.model()) == planned_steps(
                        zip_entries_of(archive_bytes@),
                    ) && forall|k: int|
                        0 <= k < steps@.len() ==> step_is_guarded(#[trigger] steps@[k]),
                    Err(e) => e is Zip && !zip_readable(archive_bytes@),
                },
            }
        }),
{
    let digest = sha256_digest(archive_bytes.as_slice());
    let actual = hex_lower(digest.as_slice());
    proof {
        lemma_hex_is_lower_ascii(digest@);
        lemma_lower_ascii_folds_to_itself(hex_of(digest@));
    }
    verify_checksum(compiler_id, &entry.sha256, actual)?;
    plan_extraction(archive_bytes)
}

/// Hex digits are lower-case ASCII.
pub proof fn lemma_hex_is_lower_ascii(b: Seq<u8>)
    ensures
        forall|i: int| 0 <= i < hex_of(b).len() ==> is_lower_ascii(#[trigger] hex_of(b)[i]),
    decreases b.len(),
{
    if b.len() > 0 {
        lemma_hex_is_lower_ascii(b.drop_last());
        let x = b.last();
        let pre = hex_of(b.drop_last());
        let h = hex_of(b);
        assert(h == pre + seq![hex_digit(x / 16), hex_digit(x % 16)]);
        assert forall|i: int| 0 <= i < h.len() implies is_lower_ascii(#[trigger] h[i]) by {
            if i < pre.len() {
                assert(h[i] == pre[i]);
            }
        }
    }
}

// ---------------------------------------------------------------------------
// Registry updates
/// The view of an optional list of names.
pub open spec fn names_view(o: Option<Vec<String>>) -> Option<Seq<Seq<char>>> {
    match o {
        Some(v) => Some(v.deep_view()),
        None => None,
    }
}

/// `info` records the installation of `entry` under `id`, in directory `id`.
pub open spec fn info_from_entry(info: CompilerInfo, id: Seq<char>, e: ManifestCompilerEntry) -> bool {
    &&& info.id@ == id
    &&& info.description@ == e.description@
    &&& info.version@ == e.version@
    &&& info.install_subdir@ == id
    &&& info.executable_name@ == e.executable_name@
    &&& info.requires_wine == e.requires_wine
    &&& names_view(info.supported_loggers) == names_view(e.supported_loggers)
}

fn copy_names(o: &Option<Vec<String>>) -> (r: Option<Vec<String>>)
    ensures
        names_view(r) == names_view(*o),
{
    broadcast use vstd::std_specs::vec::vec_clone_deep_view_proof;

    match o {
        Some(v) => Some(v.clone()),
        None => None,
    }
}

/// The settings other than the installed compilers are those of `b`.
pub open spec fn same_except_installed(a: Settings, b: Settings) -> bool {
    &&& a.compiler_repository_url == b.compiler_repository_url
    &&& a.compiler_storage_path == b.compiler_storage_path
    &&& a.file_associations == b.file_associations
    &&& a.wine_path == b.wine_path
}

/// Records that `entry` is installed as `compiler_id`, replacing any earlier record.
pub fn record_installation(settings: &mut Settings, compiler_id: &str, entry: &ManifestCompilerEntry)
    ensures
        ({
            let after = table_map(final(settings).installed_compilers@);
            &&& after.contains_key(compiler_id@)
            &&& info_from_entry(after[compiler_id@], compiler_id@, *entry)
            &&& after == table_map(old(settings).installed_compilers@).insert(
                compiler_id@,
                after[compiler_id@],
            )
            &&& same_except_installed(*final(settings), *old(settings))
        }),
{
    let info = CompilerInfo {
        id: String::from_str(compiler_id),
        description: entry.description.clone(),
        version: entry.version.clone(),
        install_subdir: String::from_str(compiler_id),
        executable_name: entry.executable_name.clone(),
        requires_wine: entry.requires_wine,
        supported_loggers: copy_names(&entry.supported_loggers),
    };
    let ghost recorded = info;
    table_insert(&mut settings.installed_compilers, String::from_str(compiler_id), info);
    assert(table_map(settings.installed_compilers@)[compiler_id@] == recorded);
}

/// A compiler id names one directory directly under the storage path: it
/// stays inside, holds no separator, and is not `.`.
pub open spec fn is_plain_component(n: Seq<char>) -> bool {
    &&& stays_inside(n)
    &&& forall|i: int| 0 <= i < n.len() ==> !is_separator(#[trigger] n[i])
    &&& n != seq!['.']
}

/// Does `id` name one directory directly under the storage path?
pub fn is_plain_component_exec(id: &str) -> (r: bool)
    ensures
        r == is_plain_component(id@),
{
    if !is_safe_entry_name(id) {
        return false;
    }
    let c = chars_of(id);
    let mut i: usize = 0;
    while i < c.len()
        invariant
            i <= c@.len(),
            c@ == id@,
            forall|k: int| 0 <= k < i ==> !is_separator(#[trigger] c@[k]),
        decreases c@.len() - i,
    {
        if c[i] == '/' || c[i] == '\\' {
            return false;
        }
        i = i + 1;
    }
    if c.len() == 1 && c[0] == '.' {
        assert(id@ =~= seq!['.']);
        return false;
    }
    true
}

/// The install directory of `compiler_id`: the directory of that name under
/// the storage path. An id that is not a plain directory name is refused.
pub fn compiler_install_dir(settings: &Settings, compiler_id: &str) -> (r: Result<String, Error>)
    ensures
        !is_plain_component(compiler_id@) ==> (r matches Err(Error::InvalidCompilerSource(x))
            && x@ == compiler_id@),
        r matches Ok(d) ==> d@.len() > 0 && !is_separator(d@.last()),
        is_plain_component(compiler_id@) ==> match settings.compiler_storage_path {
            Some(root) => r matches Ok(d) && d@ == joined(root@, compiler_id@),
            None => match r {
                Ok(d) => exists|root: Seq<char>| d@ == #[trigger] joined(root, compiler_id@),
                Err(e) => e is DirectoryResolutionFailed,
            },
        },
{
    if !is_plain_component_exec(compiler_id) {
        return Err(Error::InvalidCompilerSource(String::from_str(compiler_id)));
    }
    let root = get_compiler_storage_path(settings)?;
    let d = join_path(root.as_str(), compiler_id);
    assert(d@ == joined(root@, compiler_id@));
    assert(d@.last() == compiler_id@.last());
    Ok(d)
}

/// What removing `compiler_id` has to delete: nothing when it is not
/// installed, else its install directory.
pub fn plan_removal(settings: &Settings, compiler_id: &str) -> (r: Result<Option<String>, Error>)
    ensures
        !table_map(settings.installed_compilers@).contains_key(compiler_id@) ==> r matches Ok(None),
        table_map(settings.installed_compilers@).contains_key(compiler_id@) ==> match r {
            Ok(Some(d)) => is_plain_component(compiler_id@) && match settings.compiler_storage_path {
                Some(root) => d@ == joined(root@, compiler_id@),
                None => exists|root: Seq<char>| d@ == #[trigger] joined(root, compiler_id@),
            },
            Ok(None) => false,
            Err(e) => (!is_plain_component(compiler_id@) && e is InvalidCompilerSource) || (
            is_plain_component(compiler_id@) && settings.compiler_storage_path is None
                && e is DirectoryResolutionFailed),
        },
{
    if !crate::table::table_contains(&settings.installed_compilers, compiler_id) {
        return Ok(None);
    }
    let d = compiler_install_dir(settings, compiler_id)?;
    Ok(Some(d))
}

/// Drops the record of `compiler_id`.
pub fn forget_compiler(settings: &mut Settings, compiler_id: &str)
    ensures
        table_map(final(settings).installed_compilers@) == table_map(
            old(settings).installed_compilers@,
        ).remove(compiler_id@),
        !table_map(old(settings).installed_compilers@).contains_key(compiler_id@) ==> table_map(
            final(settings).installed_compilers@,
        ) == table_map(old(settings).installed_compilers@),
        same_except_installed(*final(settings), *old(settings)),
{
    table_remove(&mut settings.installed_compilers, compiler_id);
    assert(!table_map(old(settings).installed_compilers@).contains_key(compiler_id@) ==> table_map(
        old(settings).installed_compilers@,
    ).remove(compiler_id@) =~= table_map(old(settings).installed_compilers@));
}

} // verus!
