//! The doctor: a read-only consistency report over the launcher environment,
//! the runtime root and every running context.

use vstd::prelude::*;
use crate::resolve::RunningApp;
use crate::runtime::{push_decimal, format_duration_ago};

verus! {

/// How a report line is to be read.
pub enum Level {
    Pass,
    Warn,
    Fail,
    Info,
}

/// A line of the doctor's report.
pub enum ReportLine {
    /// The heading of a part of the report.
    Section(String),
    /// The heading of one context's checks.
    Context(String),
    /// One finding.
    Item(Level, String),
}

/// A recorded path and whether it exists on disk.
pub struct PathCheck {
    pub path: String,
    pub exists: bool,
}

/// What a context's environment snapshot tells of its compat-data path.
pub enum EnvCheck {
    /// The snapshot file is missing or unreadable.
    Unreadable,
    /// The snapshot holds no compat-data path.
    NoCompatData,
    /// The snapshot's compat-data path.
    CompatData(PathCheck),
}

/// What was read from disk for one context.
pub struct ContextCheck {
    pub app: RunningApp,
    /// The recorded executable path, where the `exe` file could be read.
    pub exe: Option<PathCheck>,
    /// The recorded prefix path, where the `pfx` file could be read.
    pub pfx: Option<PathCheck>,
    pub env: EnvCheck,
}

/// The report's lines and its counts of warnings and errors.
pub struct DoctorReport {
    pub lines: Vec<ReportLine>,
    pub warnings: usize,
    pub errors: usize,
}

/// The number of warning lines.
pub open spec fn warn_count(lines: Seq<ReportLine>) -> nat
    decreases lines.len(),
{
    if lines.len() == 0 {
        0
    } else {
        warn_count(lines.drop_last()) + if lines.last() matches ReportLine::Item(Level::Warn, _) { 1nat } else { 0nat }
    }
}

/// The number of error lines.
pub open spec fn err_count(lines: Seq<ReportLine>) -> nat
    decreases lines.len(),
{
    if lines.len() == 0 {
        0
    } else {
        err_count(lines.drop_last()) + if lines.last() matches ReportLine::Item(Level::Fail, _) { 1nat } else { 0nat }
    }
}

/// The counts are those of the report's warning and error lines.
pub open spec fn consistent(r: DoctorReport) -> bool {
    r.warnings == warn_count(r.lines@) && r.errors == err_count(r.lines@)
}

/// 1 for a path that is missing or could not be read, else 0.
pub open spec fn path_flag(p: Option<PathCheck>) -> nat {
    match p {
        Some(pc) => if pc.exists { 0 } else { 1 },
        None => 1,
    }
}

/// The errors that one context gives: a missing executable, an unreadable snapshot.
pub open spec fn context_errors(c: ContextCheck) -> nat {
    path_flag(c.exe) + if c.env is Unreadable { 1nat } else { 0nat }
}

/// The warnings that one context gives: a missing prefix, a missing or
/// dangling compat-data path, a missing start time.
pub open spec fn context_warnings(c: ContextCheck) -> nat {
    path_flag(c.pfx) + match c.env {
        EnvCheck::Unreadable => 0nat,
        EnvCheck::NoCompatData => 1nat,
        EnvCheck::CompatData(pc) => if pc.exists { 0nat } else { 1nat },
    } + if c.app.started_at is None { 1nat } else { 0nat }
}

pub open spec fn sum_errors(cs: Seq<ContextCheck>) -> nat
    decreases cs.len(),
{
    if cs.len() == 0 { 0 } else { sum_errors(cs.drop_last()) + context_errors(cs.last()) }
}

pub open spec fn sum_warnings(cs: Seq<ContextCheck>) -> nat
    decreases cs.len(),
{
    if cs.len() == 0 { 0 } else { sum_warnings(cs.drop_last()) + context_warnings(cs.last()) }
}

/// The heading of a context's checks: its appid, and its name in
/// parentheses where known.
pub open spec fn context_title(app: RunningApp) -> Seq<char> {
    match app.name {
        Some(n) => app.appid@ + seq![' ', '('] + n@ + seq![')'],
        None => app.appid@,
    }
}

/// `a` followed by `b`.
fn cat(a: &str, b: &str) -> (r: String)
    ensures
        r@ == a@ + b@,
{
    let mut r = String::from_str(a);
    r.append(b);
    r
}

fn add_item(report: &mut DoctorReport, level: Level, text: String)
    requires
        consistent(*old(report)),
        level is Warn ==> old(report).warnings < usize::MAX,
        level is Fail ==> old(report).errors < usize::MAX,
    ensures
        consistent(*final(report)),
        final(report).lines@.len() == old(report).lines@.len() + 1,
        forall|i: int| 0 <= i < old(report).lines@.len() ==> final(report).lines@[i] == old(report).lines@[i],
        final(report).warnings == old(report).warnings + if level is Warn { 1int } else { 0int },
        final(report).errors == old(report).errors + if level is Fail { 1int } else { 0int },
{
    let is_warn = match level { Level::Warn => true, _ => false };
    let is_err = match level { Level::Fail => true, _ => false };
    report.lines.push(ReportLine::Item(level, text));
    if is_warn {
        report.warnings = report.warnings + 1;
    }
    if is_err {
        report.errors = report.errors + 1;
    }
    assert(final(report).lines@.drop_last() =~= old(report).lines@);
}

fn add_heading(report: &mut DoctorReport, line: ReportLine)
    requires
        consistent(*old(report)),
        !(line is Item),
    ensures
        consistent(*final(report)),
        final(report).lines@ == old(report).lines@.push(line),
        final(report).warnings == old(report).warnings,
        final(report).errors == old(report).errors,
{
    report.lines.push(line);
    assert(final(report).lines@.drop_last() =~= old(report).lines@);
}

/// Checks one context: its executable (an error if missing), its prefix (a
/// warning if missing), its environment snapshot (an error if unreadable, a
/// warning if its compat-data path is missing or dangling) and its start
/// time (a warning if missing).
pub fn inspect_context(c: &ContextCheck, report: &mut DoctorReport)
    requires
        consistent(*old(report)),
        old(report).warnings + 3 <= usize::MAX,
        old(report).errors + 2 <= usize::MAX,
    ensures
        consistent(*final(report)),
        final(report).warnings == old(report).warnings + context_warnings(*c),
        final(report).errors == old(report).errors + context_errors(*c),
        final(report).lines@.len() > old(report).lines@.len(),
        forall|i: int| 0 <= i < old(report).lines@.len() ==> final(report).lines@[i] == old(report).lines@[i],
        final(report).lines@[old(report).lines@.len() as int] matches ReportLine::Context(t) && t@ == context_title(c.app),
{
    let title = match &c.app.name {
        Some(name) => {
            let mut t = cat(c.app.appid.as_str(), " (");
            t.append(name.as_str());
            t.append(")");
            proof { reveal_strlit(" ("); reveal_strlit(")"); }
            assert(t@ =~= context_title(c.app));
            t
        },
        None => c.app.appid.clone(),
    };
    add_heading(report, ReportLine::Context(title));
    match &c.exe {
        Some(pc) => if pc.exists {
            add_item(report, Level::Pass, cat("exe: ", pc.path.as_str()));
        } else {
            add_item(report, Level::Fail, cat("exe path does not exist: ", pc.path.as_str()));
        },
        None => add_item(report, Level::Fail, String::from_str("exe file is missing or unreadable")),
    }
    match &c.pfx {
        Some(pc) => if pc.exists {
            add_item(report, Level::Pass, cat("pfx: ", pc.path.as_str()));
        } else {
            add_item(report, Level::Warn, cat("pfx path does not exist: ", pc.path.as_str()));
        },
        None => add_item(report, Level::Warn, String::from_str("pfx file is missing or unreadable")),
    }
    match &c.env {
        EnvCheck::Unreadable => {
            add_item(report, Level::Fail, String::from_str("env file is missing or unreadable"));
        },
        EnvCheck::NoCompatData => {
            add_item(report, Level::Pass, String::from_str("env: environment file read"));
            add_item(report, Level::Warn, String::from_str("env: STEAM_COMPAT_DATA_PATH is missing"));
        },
        EnvCheck::CompatData(pc) => {
            add_item(report, Level::Pass, String::from_str("env: environment file read"));
            if pc.exists {
                add_item(report, Level::Pass, cat("env.STEAM_COMPAT_DATA_PATH: ", pc.path.as_str()));
            } else {
                add_item(
                    report,
                    Level::Warn,
                    cat("env.STEAM_COMPAT_DATA_PATH points to a missing path: ", pc.path.as_str()),
                );
            }
        },
    }
    match c.app.started_at {
        Some(t) => {
            let mut text = String::from_str("started_at: ");
            push_decimal(&mut text, t);
            text.append(" (");
            let ago = format_duration_ago(t);
            text.append(ago.as_str());
            text.append(")");
            add_item(report, Level::Pass, text);
        },
        None => add_item(report, Level::Warn, String::from_str("started_at is missing or corrupt")),
    }
}

/// The whole report. Warnings: a compat-data path that is set but missing, a
/// missing runtime root, no context at all, and each context's own; errors:
/// each context's own. With no context there is no error and at least one
/// warning.
pub fn doctor_report(
    steam_app_id: Option<String>,
    compat_data: Option<PathCheck>,
    root: &str,
    root_exists: bool,
    contexts: &Vec<ContextCheck>,
) -> (r: DoctorReport)
    requires
        contexts@.len() < usize::MAX / 4,
    ensures
        consistent(r),
        r.warnings == (if compat_data matches Some(pc) && !pc.exists { 1int } else { 0int })
            + (if root_exists { 0int } else { 1int })
            + (if contexts@.len() == 0 { 1int } else { 0int })
            + sum_warnings(contexts@),
        r.errors == sum_errors(contexts@),
        contexts@.len() == 0 ==> r.errors == 0 && r.warnings >= 1,
{
    let mut report = DoctorReport { lines: Vec::new(), warnings: 0, errors: 0 };
    add_heading(&mut report, ReportLine::Section(String::from_str("Environment")));
    match steam_app_id {
        Some(id) => add_item(&mut report, Level::Pass, cat("SteamAppId=", id.as_str())),
        None => add_item(
            &mut report,
            Level::Info,
            String::from_str("SteamAppId is not set (normal outside a launch by Steam)"),
        ),
    }
    let compat_warn: usize = match &compat_data {
        Some(pc) => if pc.exists {
            add_item(&mut report, Level::Pass, cat("STEAM_COMPAT_DATA_PATH=", pc.path.as_str()));
            0
        } else {
            add_item(
                &mut report,
                Level::Warn,
                cat("STEAM_COMPAT_DATA_PATH is set, but the path does not exist: ", pc.path.as_str()),
            );
            1
        },
        None => {
            add_item(
                &mut report,
                Level::Info,
                String::from_str("STEAM_COMPAT_DATA_PATH is not set (normal outside a running game)"),
            );
            0
        },
    };
    add_heading(&mut report, ReportLine::Section(String::from_str("Runtime")));
    if root_exists {
        add_item(&mut report, Level::Pass, cat("runtime root: ", root));
    } else {
        let mut text = cat("runtime root is missing: ", root);
        text.append(" (no context has been active yet)");
        add_item(&mut report, Level::Warn, text);
    }
    add_heading(&mut report, ReportLine::Section(String::from_str("Contexts")));
    if contexts.len() == 0 {
        add_item(&mut report, Level::Warn, String::from_str("no active contexts found"));
    }
    let ghost base: int = report.warnings as int;
    assert(base == compat_warn + (if root_exists { 0int } else { 1int }) + (if contexts@.len() == 0 { 1int } else { 0int }));
    let mut i: usize = 0;
    while i < contexts.len()
        invariant
            contexts@.len() < usize::MAX / 4,
            i <= contexts@.len(),
            base <= 3,
            consistent(report),
            report.warnings == base + sum_warnings(contexts@.take(i as int)),
            report.errors == sum_errors(contexts@.take(i as int)),
            sum_warnings(contexts@.take(i as int)) <= 3 * i,
            sum_errors(contexts@.take(i as int)) <= 2 * i,
        decreases contexts@.len() - i,
    {
        assert(contexts@.take(i + 1).drop_last() =~= contexts@.take(i as int));
        inspect_context(&contexts[i], &mut report);
        i = i + 1;
    }
    assert(contexts@.take(i as int) =~= contexts@);
    report
}

} // verus!
