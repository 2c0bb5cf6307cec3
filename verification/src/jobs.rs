//! Batch conversion jobs: which inputs are read and how, what each job does
//! with its output, the hashes in the manifest, and the outcome of a run.

use vstd::prelude::*;
use crate::cli::{Cli, CliError, OutputPolicyArg};
use crate::error::Error;
use crate::result::{any_error, ConversionResult};
use crate::text::{
    char_vec, contains_exec, decimal, join, join_strings, eq_ignore_ascii_case, exec_eq_ignore_ascii_case, has_char,
    has_char_exec, push_str, str_eq, usize_to_string,
};

verus! {

/// One input and where its output goes.
pub struct Job {
    pub input_path: Option<String>,
    pub output_path: Option<String>,
    pub html: String,
    pub base_dir: Option<String>,
}

/// What happened to one job.
pub struct JobRecord {
    pub input_path: Option<String>,
    pub output_path: Option<String>,
    pub result: ConversionResult,
    pub input_hash: String,
    pub output_hash: String,
    pub skipped: bool,
    pub changed: Option<bool>,
}

/// Does an input name a glob pattern (`*`, `?` or `[`)?
pub fn is_glob(s: &str) -> (b: bool)
    ensures
        b == glob_input(s@),
{
    let v = char_vec(s);
    has_char_exec(&v, '*') || has_char_exec(&v, '?') || has_char_exec(&v, '[')
}

/// Is a file with this extension an HTML file (`html` or `htm`, any case)?
pub fn is_html(extension: Option<&str>) -> (b: bool)
    ensures
        b == match extension {
            Some(e) => eq_ignore_ascii_case(e@, "html"@) || eq_ignore_ascii_case(e@, "htm"@),
            None => false,
        },
{
    match extension {
        Some(e) => exec_eq_ignore_ascii_case(e, "html") || exec_eq_ignore_ascii_case(e, "htm"),
        None => false,
    }
}

/// Adds the job of an input file, with the directory its output path is
/// kept relative to under `--mirror`.
pub fn add_file_job(jobs: &mut Vec<Job>, path: String, html: String, base_dir: Option<String>)
    ensures
        final(jobs)@.len() == old(jobs)@.len() + 1,
        final(jobs)@.take(old(jobs)@.len() as int) == old(jobs)@,
        final(jobs)@.last().input_path == Some(path),
        final(jobs)@.last().output_path.is_none(),
        final(jobs)@.last().html == html,
        final(jobs)@.last().base_dir == base_dir,
{
    jobs.push(Job { input_path: Some(path), output_path: None, html, base_dir });
    assert(jobs@.take(old(jobs)@.len() as int) =~= old(jobs)@);
}

/// Is the input standard input: no inputs, or the single input `-`?
pub fn reads_stdin(inputs: &Vec<String>) -> (b: bool)
    ensures
        b == (inputs@.len() == 0 || (inputs@.len() == 1 && inputs@[0]@ == "-"@)),
{
    inputs.len() == 0 || (inputs.len() == 1 && str_eq(inputs[0].as_str(), "-"))
}

/// `-o` with several inputs needs `--output-dir`.
pub fn output_conflict(has_output: bool, has_output_dir: bool, input_count: usize) -> (b: bool)
    ensures
        b == (has_output && !has_output_dir && input_count > 1),
{
    has_output && !has_output_dir && input_count > 1
}

/// Is an input a glob pattern?
pub open spec fn glob_input(s: Seq<char>) -> bool {
    has_char(s, '*') || has_char(s, '?') || has_char(s, '[')
}

/// Inputs form a batch when there are several of them, or one is a glob or
/// a directory (`dirs[i]` tells whether input `i` is a directory).
pub fn is_batch(inputs: &Vec<String>, dirs: &Vec<bool>) -> (b: bool)
    requires
        dirs@.len() == inputs@.len(),
    ensures
        b == (inputs@.len() > 1 || exists|i: int|
            0 <= i < inputs@.len() && (glob_input((#[trigger] inputs@[i])@) || dirs@[i])),
{
    if inputs.len() > 1 {
        return true;
    }
    let mut i: usize = 0;
    while i < inputs.len()
        invariant
            i <= inputs@.len(),
            dirs@.len() == inputs@.len(),
            forall|j: int| 0 <= j < i ==> !glob_input((#[trigger] inputs@[j])@) && !dirs@[j],
        decreases inputs@.len() - i,
    {
        let g = is_glob(inputs[i].as_str());
        if g || dirs[i] {
            return true;
        }
        assert(!glob_input(inputs@[i as int]@) && !dirs@[i as int]);
        let ghost old_i = i;
        i += 1;
        assert forall|j: int| 0 <= j < i implies !glob_input((#[trigger] inputs@[j])@) && !dirs@[j] by {
            if j < old_i {
            } else {
                assert(j == old_i);
            }
        }
    }
    false
}

/// Where the outputs of the jobs go.
#[derive(Debug, Clone, PartialEq, Eq)]
pub enum OutputPlan {
    /// Standard input: standard output, or `-o`.
    AsGiven,
    /// One explicit file: standard output, or `-o` when given.
    SingleFile,
    /// Each job gets a `.md` file under this root.
    PerJob { root: String },
}

/// How the output paths are chosen. Standard input and one explicit file
/// write to standard output (or `-o`); a batch (a directory, a glob or
/// several inputs), or a file with `--output-dir`, writes one file per job
/// under the output directory, the current directory by default.
pub fn output_plan(stdin: bool, batch: bool, output_dir: Option<&str>) -> (p: OutputPlan)
    ensures
        stdin ==> p == OutputPlan::AsGiven,
        !stdin && !batch && output_dir is None ==> p == OutputPlan::SingleFile,
        !stdin && (batch || output_dir is Some) ==> (p matches OutputPlan::PerJob { root } && root@ == match output_dir {
            Some(d) => d@,
            None => "."@,
        }),
{
    if stdin {
        return OutputPlan::AsGiven;
    }
    match output_dir {
        Some(d) => OutputPlan::PerJob { root: d.to_owned() },
        None => if batch {
            OutputPlan::PerJob { root: ".".to_owned() }
        } else {
            OutputPlan::SingleFile
        },
    }
}

/// The first position at which a name repeats an earlier one.
pub open spec fn first_repeat(names: Seq<Seq<char>>) -> Option<nat>
    decreases names.len(),
{
    if names.len() == 0 {
        None
    } else {
        match first_repeat(names.drop_last()) {
            Some(i) => Some(i),
            None => if names.drop_last().contains(names.last()) {
                Some((names.len() - 1) as nat)
            } else {
                None
            },
        }
    }
}

proof fn lemma_first_repeat_prefix(s: Seq<Seq<char>>, n: int)
    requires
        0 <= n <= s.len(),
        first_repeat(s.take(n)) is Some,
    ensures
        first_repeat(s) == first_repeat(s.take(n)),
    decreases s.len() - n,
{
    if n < s.len() {
        assert(s.drop_last().take(n) == s.take(n));
        lemma_first_repeat_prefix(s.drop_last(), n);
    } else {
        assert(s.take(n) == s);
    }
}

/// The first output name of a flat batch that another job already uses.
pub fn first_duplicate(names: &Vec<String>) -> (r: Option<usize>)
    ensures
        match (r, first_repeat(names@.map_values(|s: String| s@))) {
            (Some(a), Some(b)) => a == b,
            (None, None) => true,
            _ => false,
        },
{
    let ghost nv = names@.map_values(|s: String| s@);
    let mut i: usize = 0;
    while i < names.len()
        invariant
            i <= names@.len(),
            nv == names@.map_values(|s: String| s@),
            first_repeat(nv.take(i as int)) is None,
        decreases names@.len() - i,
    {
        let mut j: usize = 0;
        let mut seen = false;
        while j < i
            invariant
                j <= i,
                i < names@.len(),
                nv == names@.map_values(|s: String| s@),
                seen <==> exists|k: int| 0 <= k < j && #[trigger] nv[k] == nv[i as int],
            decreases i - j,
        {
            if str_eq(names[j].as_str(), names[i].as_str()) {
                seen = true;
                assert(nv[j as int] == nv[i as int]);
            }
            j += 1;
        }
        let ghost t = nv.take(i + 1);
        assert(t.drop_last() == nv.take(i as int));
        assert(t.last() == nv[i as int]);
        assert(seen <==> t.drop_last().contains(t.last())) by {
            if seen {
                let k = choose|k: int| 0 <= k < i && #[trigger] nv[k] == nv[i as int];
                assert(t.drop_last()[k] == nv[k]);
            }
            if t.drop_last().contains(t.last()) {
                let k = choose|k: int| 0 <= k < t.drop_last().len() && t.drop_last()[k] == t.last();
                assert(nv[k] == t.drop_last()[k]);
            }
        }
        if seen {
            proof {
                lemma_first_repeat_prefix(nv, i + 1);
            }
            return Some(i);
        }
        i += 1;
    }
    assert(nv.take(names@.len() as int) == nv);
    None
}

/// The error of a flat batch in which two inputs map to one output file.
pub fn collision_error(name: &str) -> (r: CliError)
    ensures
        r matches CliError::Config(m) && m@ == "two inputs map to the output file "@ + name@
            + "; use --mirror to keep their relative paths"@,
{
    let mut m = String::new();
    push_str(&mut m, "two inputs map to the output file ");
    push_str(&mut m, name);
    push_str(&mut m, "; use --mirror to keep their relative paths");
    CliError::Config(m)
}

/// Is `c` a glob wildcard (`*`, `?` or `[`)?
pub open spec fn is_wildcard(c: char) -> bool {
    c == '*' || c == '?' || c == '['
}

/// The position of the first wildcard of `p`, or its length.
pub open spec fn wildcard_pos(p: Seq<char>) -> nat
    decreases p.len(),
{
    if p.len() == 0 {
        0
    } else if is_wildcard(p[0]) {
        0
    } else {
        1 + wildcard_pos(p.drop_first())
    }
}

/// The position of the last `/` in `s`, if any.
pub open spec fn last_slash(s: Seq<char>) -> Option<nat>
    decreases s.len(),
{
    if s.len() == 0 {
        None
    } else if s.last() == '/' {
        Some((s.len() - 1) as nat)
    } else {
        last_slash(s.drop_last())
    }
}

/// The directory a glob's matches are mirrored under: the pattern up to the
/// last `/` before its first wildcard (`/` itself at the root), else `.`.
pub open spec fn glob_base_of(p: Seq<char>) -> Seq<char> {
    match last_slash(p.take(wildcard_pos(p) as int)) {
        Some(k) => if k == 0 {
            "/"@
        } else {
            p.take(k as int)
        },
        None => "."@,
    }
}

proof fn lemma_wildcard_pos(p: Seq<char>)
    ensures
        wildcard_pos(p) <= p.len(),
        forall|i: int| 0 <= i < wildcard_pos(p) ==> !is_wildcard(#[trigger] p[i]),
        wildcard_pos(p) < p.len() ==> is_wildcard(p[wildcard_pos(p) as int]),
    decreases p.len(),
{
    if p.len() > 0 && !is_wildcard(p[0]) {
        lemma_wildcard_pos(p.drop_first());
        assert forall|i: int| 0 <= i < wildcard_pos(p) implies !is_wildcard(#[trigger] p[i]) by {
            if i > 0 {
                assert(p[i] == p.drop_first()[i - 1]);
            }
        }
    }
}

proof fn lemma_wildcard_pos_unique(p: Seq<char>, w: int)
    requires
        0 <= w <= p.len(),
        forall|i: int| 0 <= i < w ==> !is_wildcard(#[trigger] p[i]),
        w < p.len() ==> is_wildcard(p[w]),
    ensures
        wildcard_pos(p) == w,
    decreases p.len(),
{
    if w > 0 {
        assert(!is_wildcard(p[0]));
        assert forall|i: int| 0 <= i < w - 1 implies !is_wildcard(#[trigger] p.drop_first()[i]) by {
            assert(p.drop_first()[i] == p[i + 1]);
        }
        if w - 1 < p.drop_first().len() {
            assert(p.drop_first()[w - 1] == p[w]);
        }
        lemma_wildcard_pos_unique(p.drop_first(), w - 1);
    }
}

proof fn lemma_last_slash_unique(s: Seq<char>, k: Option<nat>)
    requires
        match k {
            Some(k) => k < s.len() && s[k as int] == '/' && forall|i: int| k < i < s.len() ==> #[trigger] s[i] != '/',
            None => forall|i: int| 0 <= i < s.len() ==> #[trigger] s[i] != '/',
        },
    ensures
        last_slash(s) == k,
    decreases s.len(),
{
    if s.len() > 0 {
        if s.last() != '/' {
            let d = s.drop_last();
            match k {
                Some(kk) => {
                    assert(kk < s.len() - 1);
                    assert forall|i: int| kk < i < d.len() implies #[trigger] d[i] != '/' by {
                        assert(d[i] == s[i]);
                    }
                    assert(d[kk as int] == s[kk as int]);
                },
                None => {
                    assert forall|i: int| 0 <= i < d.len() implies #[trigger] d[i] != '/' by {
                        assert(d[i] == s[i]);
                    }
                },
            }
            lemma_last_slash_unique(d, k);
        }
    }
}

/// The base directory of the matches of a glob pattern.
pub fn glob_base(pattern: &str) -> (r: String)
    ensures
        r@ == glob_base_of(pattern@),
{
    let v = char_vec(pattern);
    let mut w: usize = 0;
    while w < v.len() && !(v[w] == '*' || v[w] == '?' || v[w] == '[')
        invariant
            w <= v@.len(),
            v@ == pattern@,
            forall|i: int| 0 <= i < w ==> !is_wildcard(#[trigger] v@[i]),
        decreases v@.len() - w,
    {
        w += 1;
    }
    proof {
        lemma_wildcard_pos_unique(pattern@, w as int);
    }
    let ghost pre = pattern@.take(w as int);
    let mut k: usize = w;
    let mut found = false;
    while k > 0 && !found
        invariant
            k <= w,
            w <= v@.len(),
            v@ == pattern@,
            pre == pattern@.take(w as int),
            found ==> k < w && pre[k as int] == '/',
            forall|i: int| k < i < w ==> #[trigger] pre[i] != '/',
            !found ==> forall|i: int| k <= i < w ==> #[trigger] pre[i] != '/',
        decreases k + if found { 0int } else { 1int },
    {
        if v[k - 1] == '/' {
            k = k - 1;
            found = true;
        } else {
            k = k - 1;
        }
    }
    if found {
        proof {
            lemma_last_slash_unique(pre, Some(k as nat));
        }
        if k == 0 {
            "/".to_owned()
        } else {
            let r = crate::text::string_of_range(&v, 0, k);
            r
        }
    } else {
        proof {
            lemma_last_slash_unique(pre, None);
        }
        ".".to_owned()
    }
}

/// Where one job's file goes inside the output directory.
#[derive(Debug, Clone, PartialEq, Eq)]
pub enum JobPath {
    /// The input's path relative to `base` (or the input itself when it is
    /// not under `base`), with its extension replaced by `md`.
    Mirrored { base: String },
    /// A file of this name directly in the output directory.
    Flat { file_name: String },
}

/// The components kept of the pieces of a path from `i` on: no empty piece,
/// and no `.` but a leading one.
pub open spec fn kept_components(pieces: Seq<Seq<char>>, i: int) -> Seq<Seq<char>>
    decreases pieces.len() - i,
{
    if i < 0 || i >= pieces.len() {
        Seq::empty()
    } else if pieces[i].len() > 0 && (pieces[i] != "."@ || i == 0) {
        seq![pieces[i]] + kept_components(pieces, i + 1)
    } else {
        kept_components(pieces, i + 1)
    }
}

/// The components of a path, as `Path::components` gives them on Unix: `/`
/// first for an absolute path, then the pieces between slashes.
pub open spec fn path_components(p: Seq<char>) -> Seq<Seq<char>> {
    (if p.len() > 0 && p[0] == '/' {
        seq!["/"@]
    } else {
        Seq::empty()
    }) + kept_components(crate::elements::split_from(p, '/', 0), 0)
}

/// The path of `input` below `base` (`Path::strip_prefix`): its components
/// after those of `base`, joined by `/`; `input` itself where `base` has no
/// components or they do not begin `input`'s.
pub open spec fn relative_below(input: Seq<char>, base: Seq<char>) -> Seq<char> {
    let ci = path_components(input);
    let cb = path_components(base);
    if cb.len() > 0 && cb.len() <= ci.len() && ci.take(cb.len() as int) == cb {
        join(ci.skip(cb.len() as int), "/"@)
    } else {
        input
    }
}

/// The components of a path.
pub fn path_components_of(p: &str) -> (r: Vec<String>)
    ensures
        r@.map_values(|x: String| x@) == path_components(p@),
{
    let pieces = crate::cleanup::split_on_char(p, '/');
    let ghost pv = pieces@.map_values(|x: String| x@);
    let v = char_vec(p);
    let mut out: Vec<String> = Vec::new();
    if v.len() > 0 && v[0] == '/' {
        out.push("/".to_owned());
    }
    let ghost root = if p@.len() > 0 && p@[0] == '/' { seq!["/"@] } else { Seq::<Seq<char>>::empty() };
    assert(out@.map_values(|x: String| x@) =~= root);
    let mut i: usize = 0;
    while i < pieces.len()
        invariant
            i <= pieces@.len(),
            pv == pieces@.map_values(|x: String| x@),
            out@.map_values(|x: String| x@) + kept_components(pv, i as int) == root + kept_components(pv, 0),
        decreases pieces@.len() - i,
    {
        let piece = &pieces[i];
        assert(pv[i as int] == piece@);
        let ghost before = out@.map_values(|x: String| x@);
        if !piece.as_str().is_empty() && (!str_eq(piece.as_str(), ".") || i == 0) {
            out.push(piece.clone());
            assert(out@.map_values(|x: String| x@) =~= before.push(piece@));
            assert(before.push(piece@) + kept_components(pv, i + 1) =~= before + (seq![piece@] + kept_components(pv, i + 1)));
        }
        i += 1;
    }
    assert(out@.map_values(|x: String| x@) =~= root + kept_components(pv, 0));
    out
}

/// The path of `input` below `base`, as `Path::strip_prefix` gives it, or
/// `input` itself where it is not below `base`.
pub fn relative_below_base(input: &str, base: &str) -> (r: String)
    ensures
        r@ == relative_below(input@, base@),
{
    let ci = path_components_of(input);
    let cb = path_components_of(base);
    let ghost civ = ci@.map_values(|x: String| x@);
    let ghost cbv = cb@.map_values(|x: String| x@);
    if cb.len() == 0 || cb.len() > ci.len() {
        return input.to_owned();
    }
    let mut i: usize = 0;
    while i < cb.len()
        invariant
            i <= cb@.len() <= ci@.len(),
            civ == ci@.map_values(|x: String| x@),
            cbv == cb@.map_values(|x: String| x@),
            civ.take(i as int) == cbv.take(i as int),
            civ == path_components(input@),
            cbv == path_components(base@),
        decreases cb@.len() - i,
    {
        assert(civ[i as int] == ci@[i as int]@);
        assert(cbv[i as int] == cb@[i as int]@);
        if !str_eq(ci[i].as_str(), cb[i].as_str()) {
            assert(civ.take(cbv.len() as int)[i as int] != cbv[i as int]);
            assert(civ.take(cbv.len() as int) != cbv);
            return input.to_owned();
        }
        assert(civ.take(i + 1) =~= civ.take(i as int).push(civ[i as int]));
        assert(cbv.take(i + 1) =~= cbv.take(i as int).push(cbv[i as int]));
        i += 1;
    }
    assert(cbv.take(cbv.len() as int) =~= cbv);
    let mut rest: Vec<String> = Vec::new();
    let mut k = cb.len();
    while k < ci.len()
        invariant
            cb@.len() <= k <= ci@.len(),
            civ == ci@.map_values(|x: String| x@),
            rest@.map_values(|x: String| x@) == civ.subrange(cb@.len() as int, k as int),
        decreases ci@.len() - k,
    {
        assert(civ[k as int] == ci@[k as int]@);
        let ghost before = rest@.map_values(|x: String| x@);
        rest.push(ci[k].clone());
        assert(rest@.map_values(|x: String| x@) =~= before.push(civ[k as int]));
        k += 1;
        assert(rest@.map_values(|x: String| x@) =~= civ.subrange(cb@.len() as int, k as int));
    }
    assert(civ.subrange(cb@.len() as int, ci@.len() as int) =~= civ.skip(cb@.len() as int));
    join_strings(&rest, "/")
}

/// Plans a job's output file: under `--mirror` the tree below the job's base
/// directory (`.` when it has none) is kept; otherwise the file is named
/// after the input's stem (`output` when it has none) with `.md` added.
pub fn job_path(mirror: bool, base_dir: Option<&str>, stem: Option<&str>) -> (p: JobPath)
    ensures
        mirror ==> (p matches JobPath::Mirrored { base } && base@ == match base_dir {
            Some(b) => b@,
            None => "."@,
        }),
        !mirror ==> (p matches JobPath::Flat { file_name } && file_name@ == match stem {
            Some(s) => s@,
            None => "output"@,
        } + ".md"@),
{
    if mirror {
        let base = match base_dir {
            Some(b) => b.to_owned(),
            None => ".".to_owned(),
        };
        JobPath::Mirrored { base }
    } else {
        let mut file_name = match stem {
            Some(s) => s.to_owned(),
            None => "output".to_owned(),
        };
        push_str(&mut file_name, ".md");
        JobPath::Flat { file_name }
    }
}

/// `--dry-run` and `--check` cannot be combined.
pub fn mode_conflict(dry_run: bool, check: bool) -> (r: Option<CliError>)
    ensures
        dry_run && check ==> (r matches Some(CliError::Config(m)) && m@ == "--dry-run and --check are mutually exclusive"@),
        !(dry_run && check) ==> r is None,
{
    if dry_run && check {
        Some(CliError::Config("--dry-run and --check are mutually exclusive".to_owned()))
    } else {
        None
    }
}

/// The progress line of a job from a file, unless quiet or checking: that
/// it was skipped, or converted into an output file.
pub open spec fn progress(quiet: bool, check: bool, input: Option<Seq<char>>, skipped: bool, has_output: bool) -> Option<Seq<char>> {
    if quiet || check {
        None
    } else {
        match input {
            Some(path) => if skipped {
                Some("htmlmd: skipped "@ + path + " (output exists)"@)
            } else if has_output {
                Some("htmlmd: converted "@ + path)
            } else {
                None
            },
            None => None,
        }
    }
}

/// The line a finished job reports on standard error, if any.
pub fn progress_line(quiet: bool, check: bool, input: Option<&str>, skipped: bool, has_output: bool) -> (r: Option<String>)
    ensures
        match (r, progress(quiet, check, match input {
            Some(p) => Some(p@),
            None => None,
        }, skipped, has_output)) {
            (Some(a), Some(b)) => a@ == b,
            (None, None) => true,
            _ => false,
        },
{
    if quiet || check {
        return None;
    }
    match input {
        Some(path) => {
            if skipped {
                let mut m = String::new();
                push_str(&mut m, "htmlmd: skipped ");
                push_str(&mut m, path);
                push_str(&mut m, " (output exists)");
                Some(m)
            } else if has_output {
                let mut m = String::new();
                push_str(&mut m, "htmlmd: converted ");
                push_str(&mut m, path);
                Some(m)
            } else {
                None
            }
        },
        None => None,
    }
}

// ---------------------------------------------------------------------------
// What a job does with its output
// ---------------------------------------------------------------------------

/// The step a job takes once converted.
#[derive(Debug, Clone, Copy, PartialEq, Eq, Structural)]
pub enum JobAction {
    /// Write the Markdown to standard output.
    PrintToStdout,
    /// Nothing to write (dry run or check without an output file).
    Nothing,
    /// Compare with the existing output file.
    CompareExisting,
    /// The output exists and is kept.
    Skip,
    /// The output exists and the policy forbids overwriting it.
    FailExisting,
    /// Write the output file (and copy the input's timestamps when asked).
    Write { preserve_timestamps: bool },
    /// A dry run: leave the output file alone.
    DryRun,
}

/// Decides what a job does with its output from the flags and whether the
/// output file exists.
pub fn job_action(
    has_output: bool,
    check: bool,
    dry_run: bool,
    policy: OutputPolicyArg,
    output_exists: bool,
    preserve_timestamps: bool,
) -> (a: JobAction)
    ensures
        a == if !has_output {
            if !dry_run && !check {
                JobAction::PrintToStdout
            } else {
                JobAction::Nothing
            }
        } else if check {
            JobAction::CompareExisting
        } else if policy == OutputPolicyArg::SkipExisting && output_exists {
            JobAction::Skip
        } else if policy == OutputPolicyArg::FailIfExists && output_exists {
            JobAction::FailExisting
        } else if dry_run {
            JobAction::DryRun
        } else {
            JobAction::Write { preserve_timestamps }
        },
{
    if !has_output {
        if !dry_run && !check {
            return JobAction::PrintToStdout;
        }
        return JobAction::Nothing;
    }
    if check {
        return JobAction::CompareExisting;
    }
    match policy {
        OutputPolicyArg::SkipExisting => {
            if output_exists {
                return JobAction::Skip;
            }
        },
        OutputPolicyArg::FailIfExists => {
            if output_exists {
                return JobAction::FailExisting;
            }
        },
        _ => {},
    }
    if dry_run {
        JobAction::DryRun
    } else {
        JobAction::Write { preserve_timestamps }
    }
}

/// The error of an existing output under the fail-if-exists policy.
pub fn exists_error(path: &str) -> (r: CliError)
    ensures
        r matches CliError::Config(m) && m@ == "output file already exists (fail-if-exists): "@ + path@,
{
    let mut m = String::new();
    push_str(&mut m, "output file already exists (fail-if-exists): ");
    push_str(&mut m, path);
    CliError::Config(m)
}

// ---------------------------------------------------------------------------
// Hashes
// ---------------------------------------------------------------------------

/// The lower-case hexadecimal SHA-256 digest of `bytes` (`sha2::Sha256`).
pub uninterp spec fn sha256_hex_result(bytes: Seq<u8>) -> Seq<char>;

pub open spec fn is_lower_hex(c: char) -> bool {
    ('0' <= c && c <= '9') || ('a' <= c && c <= 'f')
}

/// `Sha256::digest` formatted with `{:x}`: 64 lower-case hex digits.
#[verifier::external_body]
pub fn hash_bytes(bytes: &[u8]) -> (r: String)
    ensures
        r@ == sha256_hex_result(bytes@),
        r@.len() == 64,
        forall|i: int| 0 <= i < 64 ==> is_lower_hex(#[trigger] r@[i]),
{
    let mut hasher = <sha2::Sha256 as sha2::Digest>::new();
    sha2::Digest::update(&mut hasher, bytes);
    format!("{:x}", sha2::Digest::finalize(hasher))
}

// ---------------------------------------------------------------------------
// Decoding input
// ---------------------------------------------------------------------------

/// `encoding_rs::Encoding::for_label(label)` then `decode(bytes)`: the text,
/// the name of the encoding used (a BOM can switch it), and whether
/// malformed sequences were replaced; `None` for an unknown label.
pub uninterp spec fn decode_label_result(label: Seq<char>, bytes: Seq<u8>) -> Option<(Seq<char>, Seq<char>, bool)>;

/// Decodes `bytes` with the encoding named by `label`.
#[verifier::external_body]
fn decode_with_label(label: &str, bytes: &[u8]) -> (r: Option<(String, String, bool)>)
    ensures
        match (r, decode_label_result(label@, bytes@)) {
            (Some(a), Some(b)) => a.0@ == b.0 && a.1@ == b.1 && a.2 == b.2,
            (None, None) => true,
            _ => false,
        },
{
    match encoding_rs::Encoding::for_label(label.as_bytes()) {
        Some(enc) => {
            let (text, used, had_errors) = enc.decode(bytes);
            Some((text.into_owned(), used.name().to_owned(), had_errors))
        },
        None => None,
    }
}

/// The encoding an input is read with: the one asked for, else what its
/// byte-order mark says, else UTF-8.
pub open spec fn encoding_label(bytes: Seq<u8>, requested: Option<Seq<char>>) -> Seq<char> {
    match requested {
        Some(l) => l,
        None => if bytes.len() >= 3 && bytes[0] == 0xef && bytes[1] == 0xbb && bytes[2] == 0xbf {
            "utf-8"@
        } else if bytes.len() >= 2 && bytes[0] == 0xff && bytes[1] == 0xfe {
            "utf-16le"@
        } else if bytes.len() >= 2 && bytes[0] == 0xfe && bytes[1] == 0xff {
            "utf-16be"@
        } else {
            "utf-8"@
        },
    }
}

/// Decodes an input file's bytes: an unknown encoding and malformed input
/// are configuration errors.
pub fn decode_html(bytes: &[u8], requested: Option<&str>, path: &str) -> (r: Result<String, CliError>)
    ensures
        ({
            let label = encoding_label(bytes@, match requested { Some(l) => Some(l@), None => None });
            match decode_label_result(label, bytes@) {
                None => r matches Err(CliError::Config(m)) && m@ == "unknown encoding: "@ + label,
                Some((text, name, bad)) => if bad {
                    r matches Err(CliError::Config(m)) && m@ == "could not decode "@ + path@ + " as "@ + name + " (invalid byte sequence)"@
                } else {
                    r matches Ok(t) && t@ == text
                },
            }
        }),
{
    let label: &str = match requested {
        Some(l) => l,
        None => if bytes.len() >= 3 && bytes[0] == 0xef && bytes[1] == 0xbb && bytes[2] == 0xbf {
            "utf-8"
        } else if bytes.len() >= 2 && bytes[0] == 0xff && bytes[1] == 0xfe {
            "utf-16le"
        } else if bytes.len() >= 2 && bytes[0] == 0xfe && bytes[1] == 0xff {
            "utf-16be"
        } else {
            "utf-8"
        },
    };
    match decode_with_label(label, bytes) {
        None => {
            let mut m = String::new();
            push_str(&mut m, "unknown encoding: ");
            push_str(&mut m, label);
            Err(CliError::Config(m))
        },
        Some((text, name, bad)) => {
            if bad {
                let mut m = String::new();
                push_str(&mut m, "could not decode ");
                push_str(&mut m, path);
                push_str(&mut m, " as ");
                push_str(&mut m, name.as_str());
                push_str(&mut m, " (invalid byte sequence)");
                Err(CliError::Config(m))
            } else {
                Ok(text)
            }
        },
    }
}

// ---------------------------------------------------------------------------
// The outcome of a run
// ---------------------------------------------------------------------------

/// What came of one job: its record's error flag and change flag, or the
/// kind of error it failed with.
#[derive(Debug, Clone, Copy, PartialEq, Eq, Structural)]
pub enum JobOutcome {
    Done { has_errors: bool, changed: Option<bool> },
    ConfigFailure,
    OtherFailure,
}

/// The kind of outcome a job's result has.
pub fn job_outcome(r: &Result<JobRecord, CliError>) -> (o: JobOutcome)
    ensures
        o == match r {
            Ok(rec) => JobOutcome::Done { has_errors: any_error(rec.result.diagnostics@), changed: rec.changed },
            Err(CliError::Config(_)) | Err(CliError::OutputRequired) => JobOutcome::ConfigFailure,
            Err(_) => JobOutcome::OtherFailure,
        },
{
    match r {
        Ok(rec) => JobOutcome::Done { has_errors: rec.result.has_errors(), changed: rec.changed },
        Err(CliError::Config(_)) | Err(CliError::OutputRequired) => JobOutcome::ConfigFailure,
        Err(_) => JobOutcome::OtherFailure,
    }
}

/// The tallies of a run: conversions with errors (or failed), failed
/// configuration or output steps, changed outputs.
pub open spec fn tallies(os: Seq<JobOutcome>) -> (nat, nat, nat)
    decreases os.len(),
{
    if os.len() == 0 {
        (0, 0, 0)
    } else {
        let t = tallies(os.drop_last());
        match os.last() {
            JobOutcome::Done { has_errors, changed } => (
                t.0 + if has_errors { 1nat } else { 0nat },
                t.1,
                t.2 + if changed == Some(true) { 1nat } else { 0nat },
            ),
            JobOutcome::ConfigFailure => (t.0, t.1 + 1, t.2),
            JobOutcome::OtherFailure => (t.0 + 1, t.1, t.2),
        }
    }
}

proof fn lemma_tallies_bound(os: Seq<JobOutcome>)
    ensures
        tallies(os).0 <= os.len(),
        tallies(os).1 <= os.len(),
        tallies(os).2 <= os.len(),
    decreases os.len(),
{
    if os.len() > 0 {
        lemma_tallies_bound(os.drop_last());
    }
}

/// How a run ends: a check that found changes, then failed configuration
/// or output steps, then failed conversions, are errors, in that order.
pub open spec fn run_end(check: bool, t: (nat, nat, nat), r: Result<(), CliError>) -> bool {
    if check && t.2 > 0 {
        r matches Err(CliError::Config(m)) && m@ == "--check failed: "@ + decimal(t.2) + " output(s) changed"@
    } else if t.1 > 0 {
        r matches Err(CliError::Config(m)) && m@ == decimal(t.1) + " config/output error(s) occurred"@
    } else if t.0 > 0 {
        r matches Err(CliError::Conversion(Error::Other(m))) && m@ == decimal(t.0) + " conversion(s) failed"@
    } else {
        r is Ok
    }
}

/// Ends a run from the outcomes of its jobs.
pub fn run_result(outcomes: &Vec<JobOutcome>, check: bool) -> (r: Result<(), CliError>)
    ensures
        run_end(check, tallies(outcomes@), r),
{
    let mut conversion_errors: usize = 0;
    let mut config_errors: usize = 0;
    let mut changed: usize = 0;
    let mut i: usize = 0;
    while i < outcomes.len()
        invariant
            i <= outcomes@.len(),
            (conversion_errors as nat, config_errors as nat, changed as nat) == tallies(outcomes@.take(i as int)),
        decreases outcomes@.len() - i,
    {
        proof {
            assert(outcomes@.take(i + 1).drop_last() == outcomes@.take(i as int));
            lemma_tallies_bound(outcomes@.take(i as int));
        }
        match outcomes[i] {
            JobOutcome::Done { has_errors, changed: c } => {
                if has_errors {
                    conversion_errors += 1;
                }
                if c == Some(true) {
                    changed += 1;
                }
            },
            JobOutcome::ConfigFailure => {
                config_errors += 1;
            },
            JobOutcome::OtherFailure => {
                conversion_errors += 1;
            },
        }
        i += 1;
    }
    assert(outcomes@.take(outcomes@.len() as int) == outcomes@);
    if check && changed > 0 {
        let mut m = String::new();
        push_str(&mut m, "--check failed: ");
        let n = usize_to_string(changed);
        push_str(&mut m, n.as_str());
        push_str(&mut m, " output(s) changed");
        return Err(CliError::Config(m));
    }
    if config_errors > 0 {
        let mut m = usize_to_string(config_errors);
        push_str(&mut m, " config/output error(s) occurred");
        return Err(CliError::Config(m));
    }
    if conversion_errors > 0 {
        let mut m = usize_to_string(conversion_errors);
        push_str(&mut m, " conversion(s) failed");
        return Err(CliError::Conversion(Error::Other(m)));
    }
    Ok(())
}

/// The manifest's counts: changed outputs, skipped outputs, results with
/// errors.
pub open spec fn manifest_counts(rs: Seq<JobRecord>) -> (nat, nat, nat)
    decreases rs.len(),
{
    if rs.len() == 0 {
        (0, 0, 0)
    } else {
        let t = manifest_counts(rs.drop_last());
        let r = rs.last();
        (
            t.0 + if r.changed == Some(true) { 1nat } else { 0nat },
            t.1 + if r.skipped { 1nat } else { 0nat },
            t.2 + if any_error(r.result.diagnostics@) { 1nat } else { 0nat },
        )
    }
}

proof fn lemma_manifest_counts_bound(rs: Seq<JobRecord>)
    ensures
        manifest_counts(rs).0 <= rs.len(),
        manifest_counts(rs).1 <= rs.len(),
        manifest_counts(rs).2 <= rs.len(),
    decreases rs.len(),
{
    if rs.len() > 0 {
        lemma_manifest_counts_bound(rs.drop_last());
    }
}

/// Counts the changed, skipped and failed records of a run.
pub fn count_records(records: &Vec<JobRecord>) -> (r: (usize, usize, usize))
    ensures
        (r.0 as nat, r.1 as nat, r.2 as nat) == manifest_counts(records@),
{
    let mut changed: usize = 0;
    let mut skipped: usize = 0;
    let mut errors: usize = 0;
    let mut i: usize = 0;
    while i < records.len()
        invariant
            i <= records@.len(),
            (changed as nat, skipped as nat, errors as nat) == manifest_counts(records@.take(i as int)),
        decreases records@.len() - i,
    {
        proof {
            assert(records@.take(i + 1).drop_last() == records@.take(i as int));
            lemma_manifest_counts_bound(records@.take(i as int));
        }
        let r = &records[i];
        if r.changed == Some(true) {
            changed += 1;
        }
        if r.skipped {
            skipped += 1;
        }
        if r.result.has_errors() {
            errors += 1;
        }
        i += 1;
    }
    assert(records@.take(records@.len() as int) == records@);
    (changed, skipped, errors)
}

} // verus!
