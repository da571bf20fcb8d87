//! Recovering the real command from what the launcher hands to `init`.
//!
//! The launcher may pass the command as one shell-quoted string, possibly
//! prefixed with `VAR=VALUE` assignments; the real program follows them, and
//! the compatibility tool's executable is the first argument naming `/proton`.

use vstd::prelude::*;
use crate::text::{texts, has_ws, has_char, has_sub, to_chars, contains_whitespace, contains_sub, find_char, string_of_range};
use crate::shell::{is_assignment, is_env_assignment};

verus! {

/// What shell-style word splitting makes of `s`: its words, or `None` where
/// a quote is left open.
pub uninterp spec fn shell_split_of(s: Seq<char>) -> Option<Seq<Seq<char>>>;

/// Relies on `shell_words::split`: POSIX-shell word splitting, which fails
/// exactly where a quote is not closed.
#[verifier::external_body]
fn shell_split(s: &str) -> (r: Result<Vec<String>, String>)
    ensures
        r is Ok <==> shell_split_of(s@) is Some,
        r matches Ok(words) ==> shell_split_of(s@) == Some(texts(words@)),
{
    shell_words::split(s).map_err(|e| e.to_string())
}

/// Why no command could be recovered.
pub enum ClassifyError {
    /// The single command string could not be split (a quote is left open).
    Malformed(String),
    /// Only `VAR=VALUE` assignments were given, no program.
    NoCommand,
    /// No argument of the real command names `/proton`.
    NoExecutable,
}

/// The command that `init` runs and records.
pub struct RealCommand {
    /// The leading assignments, each split at its first `=`.
    pub assignments: Vec<(String, String)>,
    /// The program and its arguments, after the assignments.
    pub argv: Vec<String>,
    /// The first argument of `argv` that names `/proton`.
    pub executable: String,
}

/// `t` is `name=value` with no `=` in `name`.
pub open spec fn splits_at_first_eq(t: Seq<char>, name: Seq<char>, value: Seq<char>) -> bool {
    t == name + seq!['='] + value && !has_char(name, '=')
}

/// Whether the launcher's command arrived as one string to be re-split.
pub open spec fn needs_resplit(cmd: Seq<Seq<char>>) -> bool {
    cmd.len() == 1 && has_ws(cmd[0])
}

/// `k` is where the assignments of `ts` end and the real command begins.
pub open spec fn is_command_start(ts: Seq<Seq<char>>, k: int) -> bool {
    0 <= k < ts.len() && !is_assignment(ts[k]) && forall|j: int|
        0 <= j < k ==> is_assignment(#[trigger] ts[j])
}

/// The text `/proton`.
pub open spec fn proton_marker() -> Seq<char> {
    seq!['/', 'p', 'r', 'o', 't', 'o', 'n']
}

/// `m` is the first position of `argv` whose text names `/proton`.
pub open spec fn is_first_proton(argv: Seq<Seq<char>>, m: int) -> bool {
    0 <= m < argv.len() && has_sub(argv[m], proton_marker()) && forall|j: int|
        0 <= j < m ==> !has_sub(#[trigger] argv[j], proton_marker())
}

/// `r` is what classifying the tokens `ts` gives: `NoCommand` where every
/// token is an assignment; `NoExecutable` where no argument after them names
/// `/proton`; otherwise the split assignments, the rest as the real argv, and
/// the first `/proton` argument as the executable.
pub open spec fn classified(ts: Seq<Seq<char>>, r: Result<RealCommand, ClassifyError>) -> bool {
    &&& (r matches Err(ClassifyError::NoCommand) <==> forall|j: int| 0 <= j < ts.len() ==> is_assignment(#[trigger] ts[j]))
    &&& (r matches Err(ClassifyError::NoExecutable) <==> exists|k: int| is_command_start(ts, k) && forall|j: int|
            k <= j < ts.len() ==> !has_sub(#[trigger] ts[j], proton_marker()))
    &&& (r matches Err(e) ==> !(e is Malformed))
    &&& (r matches Ok(c) ==> exists|k: int| {
            &&& is_command_start(ts, k)
            &&& c.assignments@.len() == k
            &&& forall|j: int| 0 <= j < k ==> splits_at_first_eq(#[trigger] ts[j], c.assignments@[j].0@, c.assignments@[j].1@)
            &&& texts(c.argv@) == ts.skip(k)
            &&& exists|m: int| is_first_proton(texts(c.argv@), m) && c.executable@ == texts(c.argv@)[m]
        })
}

/// Splits `t` at its first `=`, where it has one.
pub fn split_at_first_eq(t: &str) -> (r: Option<(String, String)>)
    ensures
        r is None <==> !has_char(t@, '='),
        r matches Some((name, value)) ==> splits_at_first_eq(t@, name@, value@),
{
    let v = to_chars(t);
    let n = v.len();
    match find_char(&v, '=') {
        None => None,
        Some(k) => {
            let name = string_of_range(&v, 0, k);
            let value = string_of_range(&v, k + 1, n);
            assert(t@ =~= name@ + seq!['='] + value@);
            assert(name@ =~= v@.take(k as int));
            Some((name, value))
        },
    }
}

/// The tokens to classify: a single token holding whitespace is re-split the
/// way a shell splits words; any other command is taken as it is.
pub fn split_command(cmd: Vec<String>) -> (r: Result<Vec<String>, ClassifyError>)
    ensures
        needs_resplit(texts(cmd@)) ==> (r is Ok <==> shell_split_of(cmd@[0]@) is Some),
        needs_resplit(texts(cmd@)) ==> (r matches Ok(ts) ==> shell_split_of(cmd@[0]@) == Some(texts(ts@))),
        needs_resplit(texts(cmd@)) ==> (r is Err ==> r matches Err(ClassifyError::Malformed(_))),
        !needs_resplit(texts(cmd@)) ==> (r matches Ok(ts) && ts@ == cmd@),
{
    if cmd.len() == 1 {
        let first = to_chars(cmd[0].as_str());
        if contains_whitespace(&first) {
            return match shell_split(cmd[0].as_str()) {
                Ok(ts) => Ok(ts),
                Err(msg) => Err(ClassifyError::Malformed(msg)),
            };
        }
    }
    Ok(cmd)
}

/// Where the real command starts: the first token that is not a `VAR=VALUE`
/// assignment.
pub fn command_start(tokens: &Vec<String>) -> (r: Option<usize>)
    ensures
        r is None <==> forall|j: int| 0 <= j < tokens@.len() ==> is_assignment(#[trigger] tokens@[j]@),
        r matches Some(k) ==> is_command_start(texts(tokens@), k as int),
        r matches Some(k) ==> forall|j: int| 0 <= j < k ==> is_assignment(#[trigger] tokens@[j]@),
{
    let mut i: usize = 0;
    while i < tokens.len()
        invariant
            i <= tokens@.len(),
            forall|j: int| 0 <= j < i ==> is_assignment(#[trigger] tokens@[j]@),
        decreases tokens@.len() - i,
    {
        if !is_env_assignment(tokens[i].as_str()) {
            return Some(i);
        }
        i = i + 1;
    }
    None
}

/// The first argument, from `start` on, that names `/proton`.
pub fn find_proton(tokens: &Vec<String>, start: usize) -> (r: Option<usize>)
    requires
        start <= tokens@.len(),
    ensures
        r is None <==> forall|j: int| start <= j < tokens@.len() ==> !has_sub(#[trigger] tokens@[j]@, proton_marker()),
        r matches Some(m) ==> start <= m && is_first_proton(texts(tokens@).skip(start as int), m - start),
{
    let marker = to_chars("/proton");
    proof {
        reveal_strlit("/proton");
        assert(marker@ =~= proton_marker());
    }
    let mut i: usize = start;
    while i < tokens.len()
        invariant
            start <= i <= tokens@.len(),
            marker@ == proton_marker(),
            forall|j: int| start <= j < i ==> !has_sub(#[trigger] tokens@[j]@, proton_marker()),
        decreases tokens@.len() - i,
    {
        if contains_sub(&to_chars(tokens[i].as_str()), &marker) {
            proof {
                let argv = texts(tokens@).skip(start as int);
                assert forall|j: int| 0 <= j < i - start implies !has_sub(#[trigger] argv[j], proton_marker()) by {
                    assert(argv[j] == tokens@[start + j]@);
                }
            }
            return Some(i);
        }
        i = i + 1;
    }
    None
}

/// Splits each of `tokens[..k]` at its first `=`.
fn split_assignments(tokens: &Vec<String>, k: usize) -> (r: Vec<(String, String)>)
    requires
        k <= tokens@.len(),
        forall|j: int| 0 <= j < k ==> is_assignment(#[trigger] tokens@[j]@),
    ensures
        r@.len() == k,
        forall|j: int| 0 <= j < k ==> splits_at_first_eq(#[trigger] tokens@[j]@, r@[j].0@, r@[j].1@),
{
    let mut r: Vec<(String, String)> = Vec::new();
    let mut i: usize = 0;
    while i < k
        invariant
            k <= tokens@.len(),
            forall|j: int| 0 <= j < k ==> is_assignment(#[trigger] tokens@[j]@),
            i <= k,
            r@.len() == i,
            forall|j: int| 0 <= j < i ==> splits_at_first_eq(#[trigger] tokens@[j]@, r@[j].0@, r@[j].1@),
        decreases k - i,
    {
        let t = tokens[i].as_str();
        proof {
            let w = choose|w: int| 0 <= w < t@.len() && t@[w] == '=' && #[trigger] crate::shell::is_identifier(t@.take(w));
            assert(has_char(t@, '=')) by { assert(t@[w] == '='); }
        }
        match split_at_first_eq(t) {
            Some(pair) => {
                r.push(pair);
            },
            None => {},
        }
        i = i + 1;
    }
    r
}

/// Recovers the real command from already split tokens: the leading
/// assignments, the program with its arguments, and the `/proton` executable
/// among them.
pub fn classify_tokens(tokens: &Vec<String>) -> (r: Result<RealCommand, ClassifyError>)
    ensures
        classified(texts(tokens@), r),
{
    let ghost ts = texts(tokens@);
    assert(ts.len() == tokens@.len());
    assert(forall|j: int| 0 <= j < ts.len() ==> #[trigger] ts[j] == tokens@[j]@);
    match command_start(tokens) {
        None => {
            assert(forall|k: int| !is_command_start(ts, k));
            Err(ClassifyError::NoCommand)
        },
        Some(k) => {
            match find_proton(tokens, k) {
                None => {
                    proof {
                        assert forall|k2: int| is_command_start(texts(tokens@), k2) implies k2 == k by {
                            if k2 < k { assert(is_assignment(texts(tokens@)[k2])); }
                            if k2 > k { assert(is_assignment(texts(tokens@)[k as int])); }
                        }
                    }
                    assert(!is_assignment(ts[k as int]));
                    assert(is_command_start(ts, k as int));
                    Err(ClassifyError::NoExecutable)
                },
                Some(m) => {
                    let assignments = split_assignments(tokens, k);
                    let mut argv: Vec<String> = Vec::new();
                    let mut i: usize = k;
                    while i < tokens.len()
                        invariant
                            k <= i <= tokens@.len(),
                            argv@ == tokens@.subrange(k as int, i as int),
                        decreases tokens@.len() - i,
                    {
                        argv.push(tokens[i].clone());
                        i = i + 1;
                        assert(argv@ =~= tokens@.subrange(k as int, i as int));
                    }
                    let executable = tokens[m].clone();
                    proof {
                        assert(argv@ =~= tokens@.skip(k as int));
                        assert(texts(argv@) =~= texts(tokens@).skip(k as int));
                        assert forall|k2: int| is_command_start(texts(tokens@), k2) implies k2 == k by {
                            if k2 < k { assert(is_assignment(texts(tokens@)[k2])); }
                            if k2 > k { assert(is_assignment(texts(tokens@)[k as int])); }
                        }
                        assert(!is_assignment(ts[k as int]));
                        assert(is_first_proton(texts(argv@), m - k));
                        assert(executable@ == texts(argv@)[m - k]);
                    }
                    Ok(RealCommand { assignments, argv, executable })
                },
            }
        },
    }
}

/// Recovers the real command from the arguments the launcher passed to `init`.
pub fn classify(cmd: Vec<String>) -> (r: Result<RealCommand, ClassifyError>)
    ensures
        needs_resplit(texts(cmd@)) ==> match shell_split_of(cmd@[0]@) {
            None => r matches Err(ClassifyError::Malformed(_)),
            Some(ts) => classified(ts, r),
        },
        !needs_resplit(texts(cmd@)) ==> classified(texts(cmd@), r),
{
    let tokens = split_command(cmd)?;
    classify_tokens(&tokens)
}

} // verus!
