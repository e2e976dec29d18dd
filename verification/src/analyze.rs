//! The analysis after a run: which runner does it, and how the analyzer is found and
//! started.

use crate::names::texts;
use crate::text::{
    decimal_i64, decimal_int, name_less, name_lt, name_lt_irreflexive, name_lt_total,
    name_lt_transitive, same,
};
use vstd::prelude::*;

verus! {

/// How many folders are looked at on the way up from the runner's binary.
pub const REPO_WALKUP_LIMIT: usize = 8;

// ---------------------------------------------------------------------
// Who analyzes
// ---------------------------------------------------------------------

/// The name that stands before all others.
pub open spec fn is_lowest(name: Seq<char>, names: Seq<Seq<char>>) -> bool {
    names.contains(name) && (forall|i: int| 0 <= i < names.len() ==> !name_lt(#[trigger] names[i], name))
}

fn lowest(names: &[String]) -> (r: Option<usize>)
    ensures
        match r {
            Some(k) => k < names.len() && is_lowest(names@[k as int]@, texts(names@)),
            None => names@.len() == 0,
        },
{
    if names.len() == 0 {
        return None;
    }
    let ghost t = texts(names@);
    let mut best: usize = 0;
    proof {
        name_lt_irreflexive(t[0]);
    }
    for i in 1..names.len()
        invariant
            t == texts(names@),
            1 <= i,
            best < i,
            i <= names@.len(),
            forall|j: int| 0 <= j < i ==> !name_lt(#[trigger] t[j], t[best as int]),
    {
        assert(t[i as int] == names@[i as int]@ && t[best as int] == names@[best as int]@);
        if name_less(names[i].as_str(), names[best].as_str()) {
            proof {
                let old_best = t[best as int];
                let new_best = t[i as int];
                assert forall|j: int| 0 <= j < i + 1 implies !name_lt(#[trigger] t[j], new_best) by {
                    if name_lt(t[j], new_best) {
                        name_lt_transitive(t[j], new_best, old_best);
                        if j == i {
                            name_lt_irreflexive(new_best);
                        }
                    }
                }
            }
            best = i;
        }
    }
    assert(t[best as int] == names@[best as int]@);
    assert(t.contains(t[best as int]));
    Some(best)
}

/// No two runners do the analysis.
pub proof fn one_runner_analyzes(names: Seq<Seq<char>>, a: Seq<char>, b: Seq<char>)
    requires
        is_lowest(a, names),
        is_lowest(b, names),
    ensures
        a == b,
{
    let i = choose|i: int| 0 <= i < names.len() && names[i] == a;
    let j = choose|j: int| 0 <= j < names.len() && names[j] == b;
    name_lt_total(a, b);
    assert(!name_lt(names[i], b));
    assert(!name_lt(names[j], a));
}

/// Whether this runner does the analysis: the one whose name stands before all others.
pub fn should_run_analysis(this_runner: &str, all_runners: &[String]) -> (r: bool)
    ensures
        r == is_lowest(this_runner@, texts(all_runners@)),
{
    match lowest(all_runners) {
        None => false,
        Some(k) => {
            let r = same(all_runners[k].as_str(), this_runner);
            proof {
                if is_lowest(this_runner@, texts(all_runners@)) {
                    one_runner_analyzes(texts(all_runners@), this_runner@, all_runners@[k as int]@);
                }
            }
            r
        },
    }
}

/// Where there are runners, one of them does the analysis.
pub proof fn some_runner_analyzes(names: Seq<Seq<char>>)
    requires
        names.len() > 0,
    ensures
        exists|a: Seq<char>| is_lowest(a, names),
    decreases names.len(),
{
    let t = names.drop_last();
    let x = names.last();
    if t.len() == 0 {
        name_lt_irreflexive(x);
        assert(names[0] == x);
        assert(is_lowest(x, names));
    } else {
        some_runner_analyzes(t);
        let a = choose|a: Seq<char>| is_lowest(a, t);
        let k = choose|k: int| 0 <= k < t.len() && t[k] == a;
        assert(names[k] == a);
        assert(names[names.len() - 1] == x);
        if name_lt(x, a) {
            name_lt_irreflexive(x);
            assert forall|i: int| 0 <= i < names.len() implies !name_lt(#[trigger] names[i], x) by {
                if i < t.len() {
                    assert(t[i] == names[i]);
                    if name_lt(names[i], x) {
                        name_lt_transitive(names[i], x, a);
                    }
                }
            }
            assert(is_lowest(x, names));
        } else {
            assert forall|i: int| 0 <= i < names.len() implies !name_lt(#[trigger] names[i], a) by {
                if i < t.len() {
                    assert(t[i] == names[i]);
                }
            }
            assert(is_lowest(a, names));
        }
    }
}

// ---------------------------------------------------------------------
// Finding the analyzer
// ---------------------------------------------------------------------

/// A folder on the way up, and whether `analysis/analyze.py` stands in it.
#[derive(Debug, Clone, PartialEq, Eq)]
pub struct DirProbe {
    pub dir: String,
    pub has_script: bool,
}

/// The folder is the first on the way up that holds the analyzer, among the first eight;
/// none where none of those does.
pub open spec fn is_repo_root(way_up: Seq<DirProbe>, dir: Option<Seq<char>>) -> bool {
    match dir {
        Some(d) => exists|i: int|
            {
                &&& 0 <= i < way_up.len()
                &&& i < REPO_WALKUP_LIMIT
                &&& (#[trigger] way_up[i]).has_script
                &&& way_up[i].dir@ == d
                &&& forall|j: int| 0 <= j < i ==> !(#[trigger] way_up[j]).has_script
            },
        None => forall|i: int|
            0 <= i < way_up.len() && i < REPO_WALKUP_LIMIT ==> !(#[trigger] way_up[i]).has_script,
    }
}

/// The first folder on the way up that holds the analyzer, among the first eight.
pub fn find_repo_root(way_up: &[DirProbe]) -> (r: Option<&str>)
    ensures
        is_repo_root(
            way_up@,
            match r {
                Some(dir) => Some(dir@),
                None => None,
            },
        ),
{
    let mut i: usize = 0;
    while i < way_up.len() && i < REPO_WALKUP_LIMIT
        invariant
            i <= way_up@.len(),
            i <= REPO_WALKUP_LIMIT,
            forall|j: int| 0 <= j < i ==> !(#[trigger] way_up@[j]).has_script,
        decreases way_up@.len() - i,
    {
        if way_up[i].has_script {
            return Some(way_up[i].dir.as_str());
        }
        i = i + 1;
    }
    None
}

/// The text of the error where there is no interpreter.
pub open spec fn no_python_text() -> Seq<char> {
    "neither 'python3' nor 'python' resolved on PATH (cannot run --analyze-full); install Python 3.10+ or remove --analyze-full"@
}

/// The interpreter to use: `python3` where there is one, else `python`.
pub fn resolve_python(python3_starts: bool, python_starts: bool) -> (r: Result<&'static str, String>)
    ensures
        match r {
            Ok(p) => (python3_starts && p@ == "python3"@) || (!python3_starts && python_starts && p@
                == "python"@),
            Err(e) => !python3_starts && !python_starts && e@ == no_python_text(),
        },
{
    if python3_starts {
        Ok("python3")
    } else if python_starts {
        Ok("python")
    } else {
        Err(
            "neither 'python3' nor 'python' resolved on PATH (cannot run --analyze-full); install Python 3.10+ or remove --analyze-full".to_owned(),
        )
    }
}

// ---------------------------------------------------------------------
// What the analyzer needs
// ---------------------------------------------------------------------

/// The names, separated by commas.
pub open spec fn comma_list(names: Seq<Seq<char>>) -> Seq<char>
    decreases names.len(),
{
    if names.len() == 0 {
        Seq::empty()
    } else if names.len() == 1 {
        names[0]
    } else {
        comma_list(names.drop_last()) + ", "@ + names.last()
    }
}

/// The statement that imports the modules.
pub fn import_statement(modules: &[String]) -> (r: String)
    ensures
        r@ == "import "@ + comma_list(texts(modules@)),
{
    let ghost t = texts(modules@);
    let mut s = "import ".to_owned();
    assert(s@ =~= "import "@ + comma_list(t.take(0)));
    for i in 0..modules.len()
        invariant
            t == texts(modules@),
            s@ == "import "@ + comma_list(t.take(i as int)),
    {
        if i > 0 {
            s.append(", ");
        }
        s.append(modules[i].as_str());
        proof {
            let next = t.take(i + 1);
            assert(next.drop_last() =~= t.take(i as int));
            assert(next.last() == modules@[i as int]@);
            assert(s@ =~= "import "@ + comma_list(next));
        }
    }
    assert(t.take(t.len() as int) =~= t);
    s
}

/// What trying the imports came to.
#[derive(Debug, Clone, PartialEq, Eq)]
pub enum ImportTrial {
    /// The interpreter did not start.
    NotStarted { error: String },
    /// The interpreter ended; `stderr` is what it wrote there, without blanks around it.
    Ended { success: bool, code: Option<i32>, stderr: String },
}

/// An optional number as it is shown for debugging.
pub open spec fn code_text(code: Option<i32>) -> Seq<char> {
    match code {
        Some(c) => "Some("@ + decimal_int(c as int) + ")"@,
        None => "None"@,
    }
}

fn show_code(code: Option<i32>) -> (r: String)
    ensures
        r@ == code_text(code),
{
    match code {
        Some(c) => {
            let mut s = "Some(".to_owned();
            s.append(decimal_i64(c as i64).as_str());
            s.append(")");
            s
        },
        None => "None".to_owned(),
    }
}

/// The text of the error where the imports could not be tried.
pub open spec fn not_started_text(python: Seq<char>, statement: Seq<char>, error: Seq<char>) -> Seq<char> {
    "failed to spawn '"@ + python + " -c \""@ + statement + "\"' for --analyze-full prereq check: "@ + error
        + "; install the analyzer prerequisites with: pip install -r analysis\\requirements.txt"@
}

/// The text of the error where the imports failed.
pub open spec fn imports_failed_text(
    python: Seq<char>,
    statement: Seq<char>,
    code: Option<i32>,
    stderr: Seq<char>,
) -> Seq<char> {
    "--analyze-full prereq check failed: '"@ + python + " -c \""@ + statement + "\"' returned "@ + code_text(
        code,
    ) + ".\nPython stderr:\n"@ + stderr
        + "\nInstall the analyzer prerequisites with: pip install -r analysis\\requirements.txt (forward slashes work too). The runner aborts now so a long benchmark does not run only to have the trailing analysis fail."@
}

/// What trying the imports says: nothing where they succeeded, else the text of the error.
pub fn check_python_imports(python: &str, modules: &[String], trial: &ImportTrial) -> (r: Result<(), String>)
    ensures
        ({
            let statement = "import "@ + comma_list(texts(modules@));
            match *trial {
                ImportTrial::NotStarted { error } => r is Err && r->Err_0@ == not_started_text(
                    python@,
                    statement,
                    error@,
                ),
                ImportTrial::Ended { success, code, stderr } => if success {
                    r is Ok
                } else {
                    r is Err && r->Err_0@ == imports_failed_text(python@, statement, code, stderr@)
                },
            }
        }),
{
    let statement = import_statement(modules);
    match trial {
        ImportTrial::NotStarted { error } => {
            let mut s = "failed to spawn '".to_owned();
            s.append(python);
            s.append(" -c \"");
            s.append(statement.as_str());
            s.append("\"' for --analyze-full prereq check: ");
            s.append(error.as_str());
            s.append(
                "; install the analyzer prerequisites with: pip install -r analysis\\requirements.txt",
            );
            Err(s)
        },
        ImportTrial::Ended { success, code, stderr } => {
            if *success {
                return Ok(());
            }
            let mut s = "--analyze-full prereq check failed: '".to_owned();
            s.append(python);
            s.append(" -c \"");
            s.append(statement.as_str());
            s.append("\"' returned ");
            s.append(show_code(*code).as_str());
            s.append(".\nPython stderr:\n");
            s.append(stderr.as_str());
            s.append(
                "\nInstall the analyzer prerequisites with: pip install -r analysis\\requirements.txt (forward slashes work too). The runner aborts now so a long benchmark does not run only to have the trailing analysis fail.",
            );
            Err(s)
        },
    }
}

/// The modules that the analyzer imports.
pub open spec fn analysis_modules() -> Seq<Seq<char>> {
    seq!["polars"@, "matplotlib"@, "psutil"@]
}

/// The modules that the analyzer imports.
pub fn prereq_modules() -> (r: Vec<String>)
    ensures
        texts(r@) == analysis_modules(),
{
    let mut r: Vec<String> = Vec::new();
    r.push("polars".to_owned());
    r.push("matplotlib".to_owned());
    r.push("psutil".to_owned());
    assert(texts(r@) =~= analysis_modules());
    r
}

/// Checks that the analyzer can run: that there is an interpreter, and that it has the
/// modules. `trial` is what trying their imports came to.
pub fn check_analysis_prereqs(python: Result<&'static str, String>, trial: &ImportTrial) -> (r: Result<
    (),
    String,
>)
    ensures
        match python {
            Err(e) => r is Err && r->Err_0@ == e@,
            Ok(p) => {
                let statement = "import "@ + comma_list(analysis_modules());
                match *trial {
                    ImportTrial::NotStarted { error } => r is Err && r->Err_0@ == not_started_text(
                        p@,
                        statement,
                        error@,
                    ),
                    ImportTrial::Ended { success, code, stderr } => if success {
                        r is Ok
                    } else {
                        r is Err && r->Err_0@ == imports_failed_text(p@, statement, code, stderr@)
                    },
                }
            },
        },
{
    match python {
        Err(e) => Err(e),
        Ok(p) => {
            let modules = prereq_modules();
            check_python_imports(p, modules.as_slice(), trial)
        },
    }
}

// ---------------------------------------------------------------------
// Running the analyzer
// ---------------------------------------------------------------------

/// Where things are, as texts.
#[derive(Debug, Clone, Copy)]
pub struct AnalysisPaths<'a> {
    /// The analyzer.
    pub script: &'a str,
    /// The folder of the analyzer.
    pub analysis_dir: &'a str,
    /// The folder of the logs.
    pub log_dir: &'a str,
    /// The folder that the results go into.
    pub output_dir: &'a str,
}

/// What to do about the analysis.
#[derive(Debug, Clone, PartialEq, Eq)]
pub enum AnalysisPlan {
    /// Another runner does it.
    NotHere { line: String },
    /// It cannot be done, which is no reason to fail.
    Skip { line: String },
    /// Start the analyzer.
    Run { program: String, args: Vec<String>, cwd: String, line: String },
}

/// How every line of a runner begins.
pub open spec fn runner_prefix(name: Seq<char>) -> Seq<char> {
    "[runner:"@ + name + "] "@
}

/// Begins a line of a runner.
pub fn runner_line(name: &str) -> (r: String)
    ensures
        r@ == runner_prefix(name@),
{
    let mut s = "[runner:".to_owned();
    s.append(name);
    s.append("] ");
    s
}

/// The arguments of the analyzer.
pub open spec fn analyzer_args(paths: AnalysisPaths<'_>) -> Seq<Seq<char>> {
    seq![
        paths.script@,
        paths.log_dir@,
        "--summary"@,
        "--dump"@,
        "--diagrams"@,
        "--output"@,
        paths.output_dir@,
    ]
}

/// The name that stands before all others, or a word where there is none.
pub open spec fn lowest_shown(names: Seq<Seq<char>>, shown: Seq<char>) -> bool {
    if names.len() == 0 {
        shown == "<none>"@
    } else {
        is_lowest(shown, names)
    }
}

/// What to do about the analysis: only the runner whose name stands first does it, and
/// only where the analyzer was found on the way up from `exe_parent` and there is an
/// interpreter.
pub fn run_post_matrix_analysis(
    this_runner: &str,
    all_runners: &[String],
    exe_parent: &str,
    paths: Option<AnalysisPaths<'_>>,
    python: Result<&'static str, String>,
) -> (r: AnalysisPlan)
    ensures
        if !is_lowest(this_runner@, texts(all_runners@)) {
            r is NotHere && exists|low: Seq<char>|
                {
                    &&& #[trigger] lowest_shown(texts(all_runners@), low)
                    &&& r->NotHere_line@ == runner_prefix(this_runner@)
                        + "--analyze-full set, but this runner is not the lowest-sorted name ('"@ + low
                        + "'); skipping analysis"@
                }
        } else {
            match (paths, python) {
                (None, _) => r is Skip && r->Skip_line@ == runner_prefix(this_runner@)
                    + "WARN: --analyze-full set, but could not find analysis/analyze.py walking up from "@
                    + exe_parent@ + "; skipping analysis"@,
                (Some(_), Err(e)) => r is Skip && r->Skip_line@ == runner_prefix(this_runner@) + "WARN: "@
                    + e@ + "; skipping analysis"@,
                (Some(p), Ok(program)) => {
                    &&& r is Run
                    &&& r->Run_program@ == program@
                    &&& texts(r->Run_args@) == analyzer_args(p)
                    &&& r->Run_cwd@ == p.analysis_dir@
                    &&& r->Run_line@ == runner_prefix(this_runner@) + "running analysis: "@ + program@ + " "@
                        + p.script@ + " "@ + p.log_dir@ + " --summary --dump --diagrams --output "@
                        + p.output_dir@
                },
            }
        },
{
    let mut s = runner_line(this_runner);
    if !should_run_analysis(this_runner, all_runners) {
        let low: &str = match lowest(all_runners) {
            Some(k) => all_runners[k].as_str(),
            None => "<none>",
        };
        assert(lowest_shown(texts(all_runners@), low@));
        s.append("--analyze-full set, but this runner is not the lowest-sorted name ('");
        s.append(low);
        s.append("'); skipping analysis");
        return AnalysisPlan::NotHere { line: s };
    }
    let p = match paths {
        Some(p) => p,
        None => {
            s.append("WARN: --analyze-full set, but could not find analysis/analyze.py walking up from ");
            s.append(exe_parent);
            s.append("; skipping analysis");
            return AnalysisPlan::Skip { line: s };
        },
    };
    let program = match python {
        Ok(program) => program,
        Err(e) => {
            s.append("WARN: ");
            s.append(e.as_str());
            s.append("; skipping analysis");
            return AnalysisPlan::Skip { line: s };
        },
    };
    s.append("running analysis: ");
    s.append(program);
    s.append(" ");
    s.append(p.script);
    s.append(" ");
    s.append(p.log_dir);
    s.append(" --summary --dump --diagrams --output ");
    s.append(p.output_dir);
    let mut args: Vec<String> = Vec::new();
    args.push(p.script.to_owned());
    args.push(p.log_dir.to_owned());
    args.push("--summary".to_owned());
    args.push("--dump".to_owned());
    args.push("--diagrams".to_owned());
    args.push("--output".to_owned());
    args.push(p.output_dir.to_owned());
    assert(texts(args@) =~= analyzer_args(p));
    AnalysisPlan::Run { program: program.to_owned(), args, cwd: p.analysis_dir.to_owned(), line: s }
}

/// What the analyzer came to.
#[derive(Debug, Clone, PartialEq, Eq)]
pub enum AnalysisOutcome {
    Success,
    Exited(Option<i32>),
    NotStarted { error: String },
}

/// The line about what the analyzer came to. A failure of the analyzer is none of the
/// benchmark.
pub fn analysis_outcome_line(this_runner: &str, outcome: &AnalysisOutcome, output_dir: &str) -> (r: String)
    ensures
        r@ == runner_prefix(this_runner@) + (match *outcome {
            AnalysisOutcome::Success => "analysis complete: output in "@ + output_dir@,
            AnalysisOutcome::Exited(code) => "WARN: analysis exited "@ + code_text(code)
                + " (non-fatal; benchmark itself succeeded)"@,
            AnalysisOutcome::NotStarted { error } => "WARN: failed to spawn analyzer: "@ + error@
                + " (non-fatal)"@,
        }),
{
    let mut s = runner_line(this_runner);
    let ghost start = s@;
    match outcome {
        AnalysisOutcome::Success => {
            s.append("analysis complete: output in ");
            s.append(output_dir);
            assert(s@ =~= start + ("analysis complete: output in "@ + output_dir@));
        },
        AnalysisOutcome::Exited(code) => {
            s.append("WARN: analysis exited ");
            s.append(show_code(*code).as_str());
            s.append(" (non-fatal; benchmark itself succeeded)");
            assert(s@ =~= start + ("WARN: analysis exited "@ + code_text(*code)
                + " (non-fatal; benchmark itself succeeded)"@));
        },
        AnalysisOutcome::NotStarted { error } => {
            s.append("WARN: failed to spawn analyzer: ");
            s.append(error.as_str());
            s.append(" (non-fatal)");
            assert(s@ =~= start + ("WARN: failed to spawn analyzer: "@ + error@ + " (non-fatal)"@));
        },
    }
    s
}

/// The analysis is done by the runner whose name stands before those of all others.
pub proof fn lowest_name_analyzes(name: Seq<char>, names: Seq<Seq<char>>)
    ensures
        is_lowest(name, names) <==> names.contains(name) && (forall|other: Seq<char>|
            #[trigger] names.contains(other) ==> other == name || name_lt(name, other)),
{
    if is_lowest(name, names) {
        assert forall|other: Seq<char>| #[trigger] names.contains(other) implies other == name || name_lt(
            name,
            other,
        ) by {
            let i = choose|i: int| 0 <= i < names.len() && names[i] == other;
            assert(!name_lt(names[i], name));
            name_lt_total(name, other);
        }
    }
    if names.contains(name) && (forall|other: Seq<char>|
        #[trigger] names.contains(other) ==> other == name || name_lt(name, other)) {
        assert forall|i: int| 0 <= i < names.len() implies !name_lt(#[trigger] names[i], name) by {
            assert(names.contains(names[i]));
            if names[i] == name {
                crate::text::name_lt_irreflexive(name);
            } else {
                crate::text::name_lt_asymmetric(name, names[i]);
            }
        }
    }
}

/// What is done about the analysis: another runner does it just where this one's name does
/// not stand before all others; else the analyzer is started just where it was found and
/// there is an interpreter, in its own folder, on the folder of the logs and into the folder
/// of the results.
pub proof fn analysis_in_full(
    this_runner: &str,
    all_runners: &[String],
    exe_parent: &str,
    paths: Option<AnalysisPaths<'_>>,
    python: Result<&'static str, String>,
    r: AnalysisPlan,
)
    requires
        call_ensures(
            run_post_matrix_analysis,
            (this_runner, all_runners, exe_parent, paths, python),
            r,
        ),
    ensures
        r is NotHere <==> !is_lowest(this_runner@, texts(all_runners@)),
        r is Run <==> is_lowest(this_runner@, texts(all_runners@)) && paths is Some && python is Ok,
        r is Run ==> {
            let p = paths->0;
            let args = r->Run_args@;
            &&& r->Run_program@ == python->Ok_0@ && r->Run_cwd@ == p.analysis_dir@
            &&& args.len() == 7
            &&& args[0]@ == p.script@ && args[1]@ == p.log_dir@
            &&& args[2]@ == "--summary"@ && args[3]@ == "--dump"@ && args[4]@ == "--diagrams"@
            &&& args[5]@ == "--output"@ && args[6]@ == p.output_dir@
        },
{
    if r is Run {
        let t = texts(r->Run_args@);
        assert(t == analyzer_args(paths->0));
        assert(t.len() == 7);
        assert(t[0] == r->Run_args@[0]@ && t[1] == r->Run_args@[1]@ && t[2] == r->Run_args@[2]@ && t[3]
            == r->Run_args@[3]@ && t[4] == r->Run_args@[4]@ && t[5] == r->Run_args@[5]@ && t[6]
            == r->Run_args@[6]@);
    }
}

/// The analyzer is looked for in eight folders on the way up, and the first that holds it is
/// taken.
pub proof fn analyzer_is_looked_for_on_the_way_up(way_up: Seq<DirProbe>, dir: Option<Seq<char>>)
    requires
        is_repo_root(way_up, dir),
    ensures
        dir is Some <==> (exists|i: int| 0 <= i < way_up.len() && i < 8 && (#[trigger] way_up[i]).has_script),
        dir is Some ==> (exists|i: int|
            {
                &&& 0 <= i < way_up.len()
                &&& (#[trigger] way_up[i]).has_script
                &&& way_up[i].dir@ == dir->0
                &&& forall|j: int| 0 <= j < i ==> !(#[trigger] way_up[j]).has_script
            }),
{
}

/// Of two interpreters that start the one of version 3 is taken.
pub proof fn interpreter_of_version_three_comes_first(a: bool, b: bool, r: Result<&'static str, String>)
    requires
        call_ensures(resolve_python, (a, b), r),
    ensures
        r is Ok <==> a || b,
        a ==> r->Ok_0@ == "python3"@,
        !a && b ==> r->Ok_0@ == "python"@,
{
}

/// Names are listed one after the other: one is itself, and lists are put side by side with a
/// comma and a blank.
pub proof fn listed_names_are_put_side_by_side(a: Seq<Seq<char>>, b: Seq<Seq<char>>, name: Seq<char>)
    ensures
        comma_list(seq![name]) == name,
        a.len() > 0 && b.len() > 0 ==> comma_list(a + b) == comma_list(a) + ", "@ + comma_list(b),
    decreases b.len(),
{
    if a.len() > 0 && b.len() > 0 {
        let t = b.drop_last();
        assert((a + b).drop_last() =~= a + t);
        assert((a + b).last() == b.last());
        if t.len() > 0 {
            listed_names_are_put_side_by_side(a, t, name);
            assert(comma_list(a) + ", "@ + comma_list(t) + ", "@ + b.last() =~= comma_list(a) + ", "@ + (
            comma_list(t) + ", "@ + b.last()));
        } else {
            assert(a + t =~= a);
            assert(b[0] == b.last());
        }
    }
}

/// The runner that analyzes is the one of the list whose name stands before all others.
pub proof fn analysis_is_done_by_the_first_name(name: &str, runners: &[String], r: bool)
    requires
        call_ensures(should_run_analysis, (name, runners), r),
    ensures
        r <==> texts(runners@).contains(name@) && (forall|other: Seq<char>|
            #[trigger] texts(runners@).contains(other) ==> other == name@ || name_lt(name@, other)),
{
    lowest_name_analyzes(name@, texts(runners@));
}

/// The analyzer needs three modules, which are imported together; it can be run just where an
/// interpreter was found and has imported them.
pub proof fn analysis_needs_its_modules(
    modules: Vec<String>,
    listed: &[String],
    statement: String,
    python: Result<&'static str, String>,
    trial: &ImportTrial,
    r: Result<(), String>,
)
    requires
        call_ensures(prereq_modules, (), modules),
        listed@ == modules@,
        call_ensures(import_statement, (listed,), statement),
        call_ensures(check_analysis_prereqs, (python, trial), r),
    ensures
        modules@.len() == 3,
        modules@[0]@ == "polars"@ && modules@[1]@ == "matplotlib"@ && modules@[2]@ == "psutil"@,
        statement@ == "import "@ + "polars"@ + ", "@ + "matplotlib"@ + ", "@ + "psutil"@,
        r is Ok <==> python is Ok && *trial is Ended && trial->success,
        python is Err ==> r is Err && r->Err_0@ == python->Err_0@,
{
    let t = texts(modules@);
    assert(t.len() == 3);
    assert(modules@[0]@ == t[0] && modules@[1]@ == t[1] && modules@[2]@ == t[2]);
    listed_names_are_put_side_by_side(seq![t[0]], seq![t[1]], t[0]);
    listed_names_are_put_side_by_side(seq![t[0], t[1]], seq![t[2]], t[2]);
    listed_names_are_put_side_by_side(seq![t[0]], seq![t[1]], t[1]);
    assert(seq![t[0]] + seq![t[1]] =~= seq![t[0], t[1]]);
    assert(seq![t[0], t[1]] + seq![t[2]] =~= t);
    assert(statement@ =~= "import "@ + "polars"@ + ", "@ + "matplotlib"@ + ", "@ + "psutil"@);
}

/// Modules that could not be imported are reported with the interpreter and the statement, and
/// with what the interpreter said.
pub proof fn failed_imports_are_told(
    python: &str,
    modules: &[String],
    trial: &ImportTrial,
    r: Result<(), String>,
)
    requires
        call_ensures(check_python_imports, (python, modules, trial), r),
    ensures
        r is Ok <==> *trial is Ended && trial->success,
        *trial is NotStarted ==> r is Err && r->Err_0@ == "failed to spawn '"@ + python@ + " -c \""@ + (
        "import "@ + comma_list(texts(modules@))) + "\"' for --analyze-full prereq check: "@
            + trial->NotStarted_error@
            + "; install the analyzer prerequisites with: pip install -r analysis\\requirements.txt"@,
        *trial is Ended && !trial->success ==> r is Err && r->Err_0@
            == "--analyze-full prereq check failed: '"@ + python@ + " -c \""@ + ("import "@ + comma_list(
            texts(modules@),
        )) + "\"' returned "@ + (if trial->code is Some {
            "Some("@ + decimal_int(trial->code->0 as int) + ")"@
        } else {
            "None"@
        }) + ".\nPython stderr:\n"@ + trial->stderr@
            + "\nInstall the analyzer prerequisites with: pip install -r analysis\\requirements.txt (forward slashes work too). The runner aborts now so a long benchmark does not run only to have the trailing analysis fail."@,
{
}

/// What is said at the end of an analysis: where its output is, or how it ended, or why it did
/// not start.
pub proof fn outcome_of_an_analysis_is_told(
    runner: &str,
    outcome: &AnalysisOutcome,
    output_dir: &str,
    r: String,
)
    requires
        call_ensures(analysis_outcome_line, (runner, outcome, output_dir), r),
    ensures
        ({
            let start = "[runner:"@ + runner@ + "] "@;
            match *outcome {
                AnalysisOutcome::Success => r@ == start + ("analysis complete: output in "@ + output_dir@),
                AnalysisOutcome::Exited(Some(code)) => r@ == start + ("WARN: analysis exited "@ + ("Some("@
                    + decimal_int(code as int) + ")"@) + " (non-fatal; benchmark itself succeeded)"@),
                AnalysisOutcome::Exited(None) => r@ == start + ("WARN: analysis exited "@ + "None"@
                    + " (non-fatal; benchmark itself succeeded)"@),
                AnalysisOutcome::NotStarted { error } => r@ == start + ("WARN: failed to spawn analyzer: "@
                    + error@ + " (non-fatal)"@),
            }
        }),
{
}

} // verus!
