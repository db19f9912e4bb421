//! Reading a compiler's standard output: whether the run succeeded, failed
//! with a list of diagnostics, or said something this reader does not know.
use crate::text::{
    chars_of, contains, digits_value, find_exec, find_from, is_digit,
    lemma_skip_digits_bounds, lemma_skip_ws_bounds, skip_digits,
    skip_digits_exec, skip_ws, skip_ws_exec, starts_with, starts_with_exec, string_of, sub_vec,
    trim, trim_range, push_char, push_chars,
};
use crate::CompilationErrorDetail;
use vstd::prelude::*;

verus! {

/// A diagnostic in the model: its line number (if it fits) and its message.
pub type DiagModel = (Option<u32>, Seq<char>);

/// What the output of a compiler run says, in the model.
pub enum Verdict {
    Success,
    Failed { label: Seq<char>, diagnostics: Seq<DiagModel> },
    Unrecognized,
}

/// What the output of a compiler run says.
#[derive(Debug, Clone)]
pub enum ParsedOutput {
    /// The first non-empty line reports success.
    Success,
    /// The first non-empty line reports failure; the diagnostics that followed.
    Failed(Vec<CompilationErrorDetail>),
    /// Neither marker was found in the first non-empty line.
    Unrecognized,
}

pub open spec fn ok_marker() -> Seq<char> {
    "Compiled OK."@
}

pub open spec fn failed_marker() -> Seq<char> {
    "Compile Failed!"@
}

pub open spec fn label_delimiter() -> Seq<char> {
    seq![' ', '-', '-', ' ']
}

pub open spec fn line_word() -> Seq<char> {
    seq!['l', 'i', 'n', 'e']
}

pub open spec fn line_word_space() -> Seq<char> {
    seq!['l', 'i', 'n', 'e', ' ']
}

/// End of the line that starts at `p`: the next `\n` at or after `p`, or the end.
pub open spec fn line_end(s: Seq<char>, p: int) -> int
    decreases s.len() - p,
{
    if 0 <= p < s.len() && s[p] != '\n' {
        line_end(s, p + 1)
    } else {
        p
    }
}

pub proof fn lemma_line_end(s: Seq<char>, p: int)
    requires
        0 <= p <= s.len(),
    ensures
        p <= line_end(s, p) <= s.len(),
        line_end(s, p) < s.len() ==> s[line_end(s, p)] == '\n',
    decreases s.len() - p,
{
    if p < s.len() && s[p] != '\n' {
        lemma_line_end(s, p + 1);
    }
}

/// The lines of `s` from position `p` on, split at each `\n`.
pub open spec fn lines_from(s: Seq<char>, p: int) -> Seq<Seq<char>>
    decreases s.len() - p,
    via lines_from_decreases
{
    if 0 <= p <= s.len() {
        let q = line_end(s, p);
        if q < s.len() {
            seq![s.subrange(p, q)] + lines_from(s, q + 1)
        } else {
            seq![s.subrange(p, q)]
        }
    } else {
        seq![]
    }
}

#[via_fn]
proof fn lines_from_decreases(s: Seq<char>, p: int) {
    if 0 <= p <= s.len() {
        lemma_line_end(s, p);
    }
}

/// The lines after the one that ends at `q`.
pub open spec fn rest_lines(s: Seq<char>, q: int) -> Seq<Seq<char>> {
    if q < s.len() {
        lines_from(s, q + 1)
    } else {
        seq![]
    }
}

/// The lines of a compiler's output.
pub open spec fn output_lines(text: Seq<char>) -> Seq<Seq<char>> {
    lines_from(text, 0)
}

/// Where the digits of a `line N: message` line start.
pub open spec fn number_start(t: Seq<char>) -> int {
    skip_ws(t, 4)
}

pub open spec fn number_end(t: Seq<char>) -> int {
    skip_digits(t, number_start(t))
}

pub open spec fn message_start(t: Seq<char>) -> int {
    skip_ws(t, number_end(t) + 1)
}

/// Is the trimmed line `t` of the form: `line`, whitespace, decimal digits,
/// `:`, optional whitespace, and a non-empty message?
pub open spec fn is_diag_line(t: Seq<char>) -> bool {
    &&& starts_with(t, line_word())
    &&& number_start(t) > 4
    &&& number_end(t) > number_start(t)
    &&& number_end(t) < t.len()
    &&& t[number_end(t)] == ':'
    &&& message_start(t) < t.len()
}

/// The line number of a diagnostic line; none where it does not fit in a `u32`.
pub open spec fn diag_number(t: Seq<char>) -> Option<u32> {
    let v = digits_value(t.subrange(number_start(t), number_end(t)));
    if v <= u32::MAX {
        Some(v as u32)
    } else {
        None
    }
}

pub open spec fn diag_message(t: Seq<char>) -> Seq<char> {
    t.subrange(message_start(t), t.len() as int)
}

/// One line of the failure scan.
pub open spec fn scan_step(ds: Seq<DiagModel>, line: Seq<char>) -> Seq<DiagModel> {
    let t = trim(line);
    if t.len() == 0 {
        ds
    } else if is_diag_line(t) {
        ds.push((diag_number(t), diag_message(t)))
    } else if ds.len() > 0 && !starts_with(t, line_word_space()) {
        ds.update(ds.len() - 1, (ds.last().0, ds.last().1 + seq!['\n'] + t))
    } else {
        ds
    }
}

/// The failure scan over `lines`, starting from the diagnostics `ds`.
pub open spec fn scan(ds: Seq<DiagModel>, lines: Seq<Seq<char>>) -> Seq<DiagModel>
    decreases lines.len(),
{
    if lines.len() == 0 {
        ds
    } else {
        scan(scan_step(ds, lines[0]), lines.drop_first())
    }
}

/// The source label: what precedes ` -- ` in the header, trimmed; empty without one.
pub open spec fn source_label(h: Seq<char>) -> Seq<char> {
    match find_from(h, label_delimiter(), 0) {
        Some(i) => trim(h.subrange(0, i)),
        None => seq![],
    }
}

/// The verdict for header `h` followed by `rest`.
pub open spec fn judge(h: Seq<char>, rest: Seq<Seq<char>>) -> Verdict {
    if contains(h, ok_marker()) {
        Verdict::Success
    } else if contains(h, failed_marker()) {
        Verdict::Failed { label: source_label(h), diagnostics: scan(seq![], rest) }
    } else {
        Verdict::Unrecognized
    }
}

/// The header is the first line that is not blank.
pub open spec fn verdict_of(lines: Seq<Seq<char>>) -> Verdict
    decreases lines.len(),
{
    if lines.len() == 0 {
        Verdict::Unrecognized
    } else if trim(lines[0]).len() == 0 {
        verdict_of(lines.drop_first())
    } else {
        judge(trim(lines[0]), lines.drop_first())
    }
}

/// The verdict on a compiler's standard output.
pub open spec fn parse_output(text: Seq<char>) -> Verdict {
    verdict_of(output_lines(text))
}

/// `v` holds the diagnostics `m`, each labelled `label`.
pub open spec fn details_model(
    v: Seq<CompilationErrorDetail>,
    label: Seq<char>,
    m: Seq<DiagModel>,
) -> bool {
    &&& v.len() == m.len()
    &&& forall|k: int|
        0 <= k < v.len() ==> {
            &&& (#[trigger] v[k]).file_path_in_log@ == label
            &&& v[k].line == m[k].0
            &&& v[k].message@ == m[k].1
        }
}

/// `r` is the executable form of the verdict `v`.
pub open spec fn verdict_matches(r: ParsedOutput, v: Verdict) -> bool {
    match v {
        Verdict::Success => r is Success,
        Verdict::Failed { label, diagnostics } => match r {
            ParsedOutput::Failed(ds) => details_model(ds@, label, diagnostics),
            _ => false,
        },
        Verdict::Unrecognized => r is Unrecognized,
    }
}

fn line_end_exec(s: &Vec<char>, p: usize) -> (q: usize)
    requires
        p <= s@.len(),
    ensures
        q == line_end(s@, p as int),
{
    let mut q = p;
    while q < s.len() && s[q] != '\n'
        invariant
            p <= q <= s@.len(),
            line_end(s@, p as int) == line_end(s@, q as int),
        decreases s@.len() - q,
    {
        q = q + 1;
    }
    q
}

proof fn lemma_lines_from_unfold(s: Seq<char>, p: int)
    requires
        0 <= p <= s.len(),
    ensures
        p <= line_end(s, p) <= s.len(),
        lines_from(s, p).len() > 0,
        lines_from(s, p)[0] == s.subrange(p, line_end(s, p)),
        line_end(s, p) < s.len() ==> lines_from(s, p).drop_first() == lines_from(s, line_end(s, p) + 1),
        line_end(s, p) == s.len() ==> lines_from(s, p).drop_first() == Seq::<Seq<char>>::empty(),
{
    lemma_line_end(s, p);
    let q = line_end(s, p);
    if q < s.len() {
        assert((seq![s.subrange(p, q)] + lines_from(s, q + 1)).drop_first() =~= lines_from(s, q + 1));
    } else {
        assert(seq![s.subrange(p, q)].drop_first() =~= Seq::<Seq<char>>::empty());
    }
}

/// Value of the digits `t[a..d]`, if it fits in a `u32`.
fn decimal_value(t: &Vec<char>, a: usize, d: usize) -> (r: Option<u32>)
    requires
        a <= d <= t@.len(),
        forall|k: int| a <= k < d ==> is_digit(#[trigger] t@[k]),
    ensures
        r == (if digits_value(t@.subrange(a as int, d as int)) <= u32::MAX {
            Some(digits_value(t@.subrange(a as int, d as int)) as u32)
        } else {
            None::<u32>
        }),
{
    let mut v: u64 = 0;
    let mut over = false;
    let mut i = a;
    while i < d
        invariant
            a <= i <= d <= t@.len(),
            forall|k: int| a <= k < d ==> is_digit(#[trigger] t@[k]),
            !over ==> v == digits_value(t@.subrange(a as int, i as int)) && v <= u32::MAX,
            over ==> digits_value(t@.subrange(a as int, i as int)) > u32::MAX,
        decreases d - i,
    {
        let ghost prev = t@.subrange(a as int, i as int);
        assert(t@.subrange(a as int, i + 1).drop_last() =~= prev);
        let dig = (t[i] as u32 - '0' as u32) as u64;
        assert(is_digit(t@[i as int]));
        if !over {
            let w = v * 10 + dig;
            if w > u32::MAX as u64 {
                over = true;
            } else {
                v = w;
            }
        }
        i = i + 1;
    }
    if over {
        None
    } else {
        Some(v as u32)
    }
}

/// For a trimmed line: its line number and where its message starts, if it
/// is a diagnostic line.
fn match_diag_line(t: &Vec<char>) -> (r: Option<(Option<u32>, usize)>)
    ensures
        r is Some <==> is_diag_line(t@),
        r matches Some(p) ==> p.0 == diag_number(t@) && p.1 == message_start(t@),
{
    let word = vec!['l', 'i', 'n', 'e'];
    assert(word@ =~= line_word());
    if !starts_with_exec(t, &word) {
        return None;
    }
    let a = skip_ws_exec(t, 4);
    if a == 4 {
        return None;
    }
    proof {
        lemma_skip_ws_bounds(t@, 4);
        lemma_skip_digits_bounds(t@, a as int);
    }
    let d = skip_digits_exec(t, a);
    if d == a || d >= t.len() || t[d] != ':' {
        return None;
    }
    proof {
        lemma_skip_ws_bounds(t@, d + 1);
    }
    let m = skip_ws_exec(t, d + 1);
    if m >= t.len() {
        return None;
    }
    let n = decimal_value(t, a, d);
    Some((n, m))
}

/// One step of the failure scan on the line `s[p..q]`.
fn scan_step_exec(
    ds: Vec<CompilationErrorDetail>,
    s: &Vec<char>,
    p: usize,
    q: usize,
    label: &String,
    Ghost(m): Ghost<Seq<DiagModel>>,
) -> (r: Vec<CompilationErrorDetail>)
    requires
        p <= q <= s@.len(),
        details_model(ds@, label@, m),
    ensures
        details_model(r@, label@, scan_step(m, s@.subrange(p as int, q as int))),
{
    let t = trim_range(s, p, q);
    let ghost line = s@.subrange(p as int, q as int);
    if t.len() == 0 {
        return ds;
    }
    let mut ds = ds;
    match match_diag_line(&t) {
        Some((n, start)) => {
            let ghost before = ds@;
            let message = sub_vec(&t, start, t.len());
            let detail = CompilationErrorDetail {
                file_path_in_log: label.clone(),
                line: n,
                message: string_of(&message),
            };
            ds.push(detail);
            proof {
                let m2 = m.push((diag_number(t@), diag_message(t@)));
                assert forall|k: int| 0 <= k < ds@.len() implies {
                    &&& (#[trigger] ds@[k]).file_path_in_log@ == label@
                    &&& ds@[k].line == m2[k].0
                    &&& ds@[k].message@ == m2[k].1
                } by {
                    if k < m.len() {
                        assert(ds@[k] == before[k]);
                    }
                }
            }
            ds
        },
        None => {
            let prefix = vec!['l', 'i', 'n', 'e', ' '];
            assert(prefix@ =~= line_word_space());
            if ds.len() > 0 && !starts_with_exec(&t, &prefix) {
                let ghost before = ds@;
                let mut last = ds.pop().unwrap();
                push_char(&mut last.message, '\n');
                push_chars(&mut last.message, &t);
                ds.push(last);
                proof {
                    let m2 = m.update(m.len() - 1, (m.last().0, m.last().1 + seq!['\n'] + t@));
                    assert forall|k: int| 0 <= k < ds@.len() implies {
                        &&& (#[trigger] ds@[k]).file_path_in_log@ == label@
                        &&& ds@[k].line == m2[k].0
                        &&& ds@[k].message@ == m2[k].1
                    } by {
                        if k < m.len() - 1 {
                            assert(ds@[k] == before[k]);
                        } else {
                            assert(before[k] == before.last());
                        }
                    }
                }
            }
            ds
        },
    }
}

/// The failure scan over the lines that follow the header line ending at `q`.
fn scan_exec(s: &Vec<char>, q: usize, label: &String) -> (r: Vec<CompilationErrorDetail>)
    requires
        q <= s@.len(),
    ensures
        details_model(
            r@,
            label@,
            scan(Seq::empty(), rest_lines(s@, q as int)),
        ),
{
    let mut ds: Vec<CompilationErrorDetail> = Vec::new();
    if q >= s.len() {
        assert(scan(Seq::empty(), Seq::<Seq<char>>::empty()) =~= Seq::<DiagModel>::empty());
        return ds;
    }
    let ghost goal = scan(Seq::empty(), rest_lines(s@, q as int));
    let ghost mut m: Seq<DiagModel> = seq![];
    let mut p = q + 1;
    loop
        invariant
            p <= s@.len(),
            details_model(ds@, label@, m),
            goal == scan(m, lines_from(s@, p as int)),
            goal == scan(Seq::empty(), rest_lines(s@, q as int)),
        decreases s@.len() - p,
    {
        let e = line_end_exec(s, p);
        proof {
            lemma_lines_from_unfold(s@, p as int);
        }
        ds = scan_step_exec(ds, s, p, e, label, Ghost(m));
        proof {
            let lines = lines_from(s@, p as int);
            assert(scan(m, lines) == scan(scan_step(m, lines[0]), lines.drop_first()));
            m = scan_step(m, s@.subrange(p as int, e as int));
        }
        if e == s.len() {
            assert(scan(m, Seq::<Seq<char>>::empty()) == m);
            return ds;
        }
        p = e + 1;
    }
}

/// The verdict for the header `h` whose line ends at `q`.
fn judge_exec(s: &Vec<char>, h: &Vec<char>, q: usize) -> (r: ParsedOutput)
    requires
        q <= s@.len(),
    ensures
        verdict_matches(
            r,
            judge(h@, rest_lines(s@, q as int)),
        ),
{
    let ok = chars_of("Compiled OK.");
    if find_exec(h, &ok, 0).is_some() {
        return ParsedOutput::Success;
    }
    let failed = chars_of("Compile Failed!");
    if find_exec(h, &failed, 0).is_none() {
        return ParsedOutput::Unrecognized;
    }
    let delim = vec![' ', '-', '-', ' '];
    assert(delim@ =~= label_delimiter());
    let label_chars = match find_exec(h, &delim, 0) {
        Some(i) => {
            proof {
                lemma_find_from_bounds(h@, label_delimiter(), 0);
            }
            trim_range(h, 0, i)
        },
        None => Vec::new(),
    };
    assert(label_chars@ =~= source_label(h@));
    let label = string_of(&label_chars);
    ParsedOutput::Failed(scan_exec(s, q, &label))
}

proof fn lemma_find_from_bounds(s: Seq<char>, pat: Seq<char>, i: int)
    ensures
        find_from(s, pat, i) matches Some(j) ==> i <= j && j + pat.len() <= s.len(),
    decreases s.len() + 1 - i,
{
    if !(i < 0 || i + pat.len() > s.len()) && !crate::text::occurs_at(s, pat, i) {
        lemma_find_from_bounds(s, pat, i + 1);
    }
}

/// The verdict is decided by the first non-blank line and what follows it.
pub proof fn lemma_verdict_from_header(lines: Seq<Seq<char>>, k: int)
    requires
        0 <= k < lines.len(),
        forall|j: int| 0 <= j < k ==> trim(#[trigger] lines[j]).len() == 0,
        trim(lines[k]).len() > 0,
    ensures
        verdict_of(lines) == judge(trim(lines[k]), lines.subrange(k + 1, lines.len() as int)),
    decreases k,
{
    if k == 0 {
        assert(lines.drop_first() =~= lines.subrange(1, lines.len() as int));
    } else {
        assert(trim(lines[0]).len() == 0);
        let rest = lines.drop_first();
        assert forall|j: int| 0 <= j < k - 1 implies trim(#[trigger] rest[j]).len() == 0 by {
            assert(rest[j] == lines[j + 1]);
        }
        lemma_verdict_from_header(rest, k - 1);
        assert(rest.subrange(k, rest.len() as int) =~= lines.subrange(k + 1, lines.len() as int));
    }
}

/// Output whose first non-blank line contains `Compiled OK.` is a success,
/// with no diagnostics, whatever follows that line.
pub proof fn lemma_compiled_ok_header_is_success(text: Seq<char>, k: int)
    requires
        0 <= k < output_lines(text).len(),
        forall|j: int| 0 <= j < k ==> trim(#[trigger] output_lines(text)[j]).len() == 0,
        trim(output_lines(text)[k]).len() > 0,
        contains(trim(output_lines(text)[k]), ok_marker()),
    ensures
        parse_output(text) == Verdict::Success,
{
    lemma_verdict_from_header(output_lines(text), k);
}

/// Parses a compiler's captured standard output. The first non-blank line
/// is the header: `Compiled OK.` in it means success; `Compile Failed!`
/// means failure, with one diagnostic per later line of the form
/// `line N: message` and each other non-blank line that does not begin
/// with `line ` appended to the latest diagnostic's message; anything else
/// is unrecognized. Total: every input gives a verdict.
pub fn parse_compiler_output(output_content: &str) -> (r: ParsedOutput)
    ensures
        verdict_matches(r, parse_output(output_content@)),
{
    let s = chars_of(output_content);
    let mut p: usize = 0;
    loop
        invariant
            p <= s@.len(),
            s@ == output_content@,
            parse_output(output_content@) == verdict_of(lines_from(s@, p as int)),
        decreases s@.len() - p,
    {
        let e = line_end_exec(&s, p);
        proof {
            lemma_lines_from_unfold(s@, p as int);
        }
        let h = trim_range(&s, p, e);
        if h.len() > 0 {
            return judge_exec(&s, &h, e);
        }
        if e == s.len() {
            assert(verdict_of(Seq::<Seq<char>>::empty()) == Verdict::Unrecognized);
            return ParsedOutput::Unrecognized;
        }
        p = e + 1;
    }
}

} // verus!
