//! Selector resolution: which running context a `latest`, an appid or a
//! fragment of a game's name designates.

use vstd::prelude::*;
use crate::text::{opt_text, has_sub, to_chars, contains_sub};
use crate::path::{path_join, join_path};

verus! {

/// One running context as listed from the runtime root.
pub struct RunningApp {
    /// The context's directory name.
    pub appid: String,
    /// The context's directory.
    pub path: String,
    /// The game's name, where its manifest was found.
    pub name: Option<String>,
    /// The game's install directory, where its manifest was found.
    pub install_path: Option<String>,
    /// When the context was created, in Unix seconds, where recorded.
    pub started_at: Option<u64>,
}

/// The context a selector resolved to.
pub struct TargetApp {
    pub appid: String,
    pub app_dir: String,
}

/// Why a selector designates no single context.
pub enum ResolveError {
    /// No context is running at all.
    NoneRunning,
    /// No context has the selector as appid or within its name.
    NotFound,
    /// Several contexts fit; each candidate's appid and name.
    Ambiguous(Vec<(String, Option<String>)>),
}

/// A lower-case form of `s`, as `str::to_lowercase` gives it.
pub uninterp spec fn lower_of(s: Seq<char>) -> Seq<char>;

/// Relies on `str::to_lowercase`: the result depends on the characters alone.
#[verifier::external_body]
fn lowercase(s: &str) -> (r: String)
    ensures
        r@ == lower_of(s@),
{
    s.to_lowercase()
}

/// Whether the already lower-cased `query` occurs in the already lower-cased `text`.
pub fn contains_folded(text: &str, query: &str) -> (r: bool)
    ensures
        r == has_sub(text@, query@),
{
    contains_sub(&to_chars(text), &to_chars(query))
}

/// Whether `query` occurs in `text`, letter case aside.
pub fn contains_case_insensitive(text: &str, query: &str) -> (r: bool)
    ensures
        r == has_sub(lower_of(text@), lower_of(query@)),
{
    let t = lowercase(text);
    let q = lowercase(query);
    contains_folded(t.as_str(), q.as_str())
}

/// The code of `c` with ASCII letters folded to lower case.
pub open spec fn ascii_lower(c: char) -> u32 {
    if 'A' <= c && c <= 'Z' { ((c as u32) + 32) as u32 } else { c as u32 }
}

/// Equal up to the case of ASCII letters, as `str::eq_ignore_ascii_case` decides.
pub open spec fn eq_ascii_nocase(a: Seq<char>, b: Seq<char>) -> bool {
    a.len() == b.len() && forall|i: int| 0 <= i < a.len() ==> ascii_lower(#[trigger] a[i]) == ascii_lower(b[i])
}

fn lower_ascii_char(c: char) -> (r: u32)
    ensures
        r == ascii_lower(c),
{
    if 'A' <= c && c <= 'Z' {
        (c as u32) + 32
    } else {
        c as u32
    }
}

/// Whether `a` and `b` are equal up to the case of ASCII letters.
pub fn eq_ignore_ascii_case(a: &str, b: &str) -> (r: bool)
    ensures
        r == eq_ascii_nocase(a@, b@),
{
    let av = to_chars(a);
    let bv = to_chars(b);
    if av.len() != bv.len() {
        return false;
    }
    let mut i: usize = 0;
    while i < av.len()
        invariant
            av@ == a@,
            bv@ == b@,
            av@.len() == bv@.len(),
            i <= av@.len(),
            forall|j: int| 0 <= j < i ==> ascii_lower(#[trigger] av@[j]) == ascii_lower(bv@[j]),
        decreases av@.len() - i,
    {
        if lower_ascii_char(av[i]) != lower_ascii_char(bv[i]) {
            return false;
        }
        i = i + 1;
    }
    true
}

/// `apps[i]` is the latest context: its start time is the largest recorded,
/// and no earlier context in the list has that time.
pub open spec fn is_latest(apps: Seq<RunningApp>, i: int) -> bool {
    &&& 0 <= i < apps.len()
    &&& apps[i].started_at is Some
    &&& forall|j: int| 0 <= j < apps.len() && (#[trigger] apps[j].started_at) is Some
            ==> apps[j].started_at->0 <= apps[i].started_at->0
    &&& forall|j: int| 0 <= j < i && (#[trigger] apps[j].started_at) is Some
            ==> apps[j].started_at->0 < apps[i].started_at->0
}

/// Some context has a recorded start time.
pub open spec fn any_started(apps: Seq<RunningApp>) -> bool {
    exists|j: int| 0 <= j < apps.len() && (#[trigger] apps[j].started_at) is Some
}

/// `t` designates the context `app`.
pub open spec fn targets(t: TargetApp, app: RunningApp) -> bool {
    t.appid@ == app.appid@ && t.app_dir@ == app.path@
}

/// Each candidate is the appid and name of the matching context at the same place.
pub open spec fn lists(cands: Seq<(String, Option<String>)>, apps: Seq<RunningApp>, idx: Seq<int>) -> bool {
    cands.len() == idx.len() && forall|k: int| 0 <= k < idx.len() ==> {
        &&& 0 <= #[trigger] idx[k] < apps.len()
        &&& cands[k].0@ == apps[idx[k]].appid@
        &&& opt_text(cands[k].1) == opt_text(apps[idx[k]].name)
    }
}

/// The candidates are the appid and name of each of `apps`, in order.
pub open spec fn lists_all(cands: Seq<(String, Option<String>)>, apps: Seq<RunningApp>) -> bool {
    cands.len() == apps.len() && forall|k: int| 0 <= k < apps.len() ==> {
        &&& (#[trigger] cands[k]).0@ == apps[k].appid@
        &&& opt_text(cands[k].1) == opt_text(apps[k].name)
    }
}

fn target_of(app: &RunningApp) -> (r: TargetApp)
    ensures
        targets(r, *app),
{
    TargetApp { appid: app.appid.clone(), app_dir: app.path.clone() }
}

fn candidate_of(app: &RunningApp) -> (r: (String, Option<String>))
    ensures
        r.0@ == app.appid@,
        opt_text(r.1) == opt_text(app.name),
{
    let name = match &app.name {
        Some(n) => Some(n.clone()),
        None => None,
    };
    (app.appid.clone(), name)
}

/// Resolves `latest`: the context with the largest start time (the first in
/// list order among equals); failing that, the only context; `NoneRunning`
/// when there is none, and `Ambiguous` listing all of them otherwise.
pub fn resolve_latest_app(apps: &Vec<RunningApp>) -> (r: Result<TargetApp, ResolveError>)
    ensures
        apps@.len() == 0 <==> r matches Err(ResolveError::NoneRunning),
        any_started(apps@) ==> exists|i: int| is_latest(apps@, i) && (r matches Ok(t) && targets(t, apps@[i])),
        !any_started(apps@) && apps@.len() == 1 ==> (r matches Ok(t) && targets(t, apps@[0])),
        !any_started(apps@) && apps@.len() > 1 ==> (r matches Err(ResolveError::Ambiguous(c))
            && lists_all(c@, apps@)),
{
    if apps.len() == 0 {
        return Err(ResolveError::NoneRunning);
    }
    let mut best: Option<usize> = None;
    let mut i: usize = 0;
    while i < apps.len()
        invariant
            i <= apps@.len(),
            best matches Some(b) ==> b < i && apps@[b as int].started_at is Some,
            best matches Some(b) ==> forall|j: int| 0 <= j < i && (#[trigger] apps@[j].started_at) is Some
                ==> apps@[j].started_at->0 <= apps@[b as int].started_at->0,
            best matches Some(b) ==> forall|j: int| 0 <= j < b && (#[trigger] apps@[j].started_at) is Some
                ==> apps@[j].started_at->0 < apps@[b as int].started_at->0,
            best is None ==> forall|j: int| 0 <= j < i ==> (#[trigger] apps@[j].started_at) is None,
        decreases apps@.len() - i,
    {
        match apps[i].started_at {
            Some(s) => {
                match best {
                    Some(b) => {
                        if s > apps[b].started_at.unwrap() {
                            best = Some(i);
                        }
                    },
                    None => {
                        best = Some(i);
                    },
                }
            },
            None => {},
        }
        i = i + 1;
    }
    match best {
        Some(b) => {
            assert(is_latest(apps@, b as int));
            Ok(target_of(&apps[b]))
        },
        None => {
            if apps.len() == 1 {
                Ok(target_of(&apps[0]))
            } else {
                let mut cands: Vec<(String, Option<String>)> = Vec::new();
                let mut k: usize = 0;
                while k < apps.len()
                    invariant
                        k <= apps@.len(),
                        lists_all(cands@, apps@.take(k as int)),
                    decreases apps@.len() - k,
                {
                    cands.push(candidate_of(&apps[k]));
                    k = k + 1;
                    assert(lists_all(cands@, apps@.take(k as int)));
                }
                assert(apps@.take(k as int) =~= apps@);
                Err(ResolveError::Ambiguous(cands))
            }
        },
    }
}

/// The context's game name holds `query`, letter case aside.
pub open spec fn name_matches(app: RunningApp, query: Seq<char>) -> bool {
    match app.name {
        Some(n) => has_sub(lower_of(n@), lower_of(query)),
        None => false,
    }
}

/// The positions, in order, of the contexts whose name holds `query`.
pub open spec fn matching(apps: Seq<RunningApp>, query: Seq<char>) -> Seq<int>
    decreases apps.len(),
{
    if apps.len() == 0 {
        Seq::empty()
    } else if name_matches(apps.last(), query) {
        matching(apps.drop_last(), query).push(apps.len() - 1)
    } else {
        matching(apps.drop_last(), query)
    }
}

/// What resolving `latest` over `apps` gives.
pub open spec fn latest_result(apps: Seq<RunningApp>, r: Result<TargetApp, ResolveError>) -> bool {
    &&& (apps.len() == 0 <==> r matches Err(ResolveError::NoneRunning))
    &&& (any_started(apps) ==> exists|i: int| is_latest(apps, i) && (r matches Ok(t) && targets(t, apps[i])))
    &&& (!any_started(apps) && apps.len() == 1 ==> (r matches Ok(t) && targets(t, apps[0])))
    &&& (!any_started(apps) && apps.len() > 1 ==> (r matches Err(ResolveError::Ambiguous(c)) && lists_all(c@, apps)))
}

/// What resolving a name fragment over `apps` gives: the one match, or
/// `NotFound`, or `Ambiguous` listing every match.
pub open spec fn by_name_result(apps: Seq<RunningApp>, query: Seq<char>, r: Result<TargetApp, ResolveError>) -> bool {
    let m = matching(apps, query);
    &&& (m.len() == 0 <==> r matches Err(ResolveError::NotFound))
    &&& (m.len() == 1 ==> (r matches Ok(t) && targets(t, apps[m[0]])))
    &&& (m.len() > 1 ==> (r matches Err(ResolveError::Ambiguous(c)) && lists(c@, apps, m)))
}

proof fn lemma_matching_bounds(apps: Seq<RunningApp>, query: Seq<char>)
    ensures
        forall|k: int| 0 <= k < matching(apps, query).len() ==> 0 <= #[trigger] matching(apps, query)[k] < apps.len(),
    decreases apps.len(),
{
    if apps.len() > 0 {
        let prev = apps.drop_last();
        lemma_matching_bounds(prev, query);
        let m = matching(apps, query);
        let pm = matching(prev, query);
        assert forall|k: int| 0 <= k < m.len() implies 0 <= #[trigger] m[k] < apps.len() by {
            if k < pm.len() {
                assert(m[k] == pm[k]);
                assert(0 <= pm[k] < prev.len());
            }
        }
    }
}

/// Resolves a fragment of a game's name: the only context whose name holds
/// it, letter case aside.
pub fn resolve_app_by_name(apps: &Vec<RunningApp>, query: &str) -> (r: Result<TargetApp, ResolveError>)
    ensures
        by_name_result(apps@, query@, r),
{
    let mut idx: Vec<usize> = Vec::new();
    let mut i: usize = 0;
    while i < apps.len()
        invariant
            i <= apps@.len(),
            idx@.map_values(|x: usize| x as int) == matching(apps@.take(i as int), query@),
        decreases apps@.len() - i,
    {
        assert(apps@.take(i + 1).drop_last() =~= apps@.take(i as int));
        let hit = match &apps[i].name {
            Some(n) => contains_case_insensitive(n.as_str(), query),
            None => false,
        };
        if hit {
            idx.push(i);
        }
        i = i + 1;
        assert(idx@.map_values(|x: usize| x as int) =~= matching(apps@.take(i as int), query@));
    }
    assert(apps@.take(i as int) =~= apps@);
    let ghost m = matching(apps@, query@);
    proof { lemma_matching_bounds(apps@, query@); }
    assert(forall|k: int| 0 <= k < idx@.len() ==> #[trigger] idx@[k] as int == m[k]);
    if idx.len() == 0 {
        Err(ResolveError::NotFound)
    } else if idx.len() == 1 {
        Ok(target_of(&apps[idx[0]]))
    } else {
        let mut cands: Vec<(String, Option<String>)> = Vec::new();
        let mut k: usize = 0;
        while k < idx.len()
            invariant
                k <= idx@.len(),
                idx@.len() == m.len(),
                forall|j: int| 0 <= j < idx@.len() ==> #[trigger] idx@[j] as int == m[j],
                forall|j: int| 0 <= j < m.len() ==> 0 <= #[trigger] m[j] < apps@.len(),
                lists(cands@, apps@, m.take(k as int)),
            decreases idx@.len() - k,
        {
            cands.push(candidate_of(&apps[idx[k]]));
            k = k + 1;
            assert(lists(cands@, apps@, m.take(k as int)));
        }
        assert(m.take(k as int) =~= m);
        Err(ResolveError::Ambiguous(cands))
    }
}

/// The word that selects the most recently started context.
pub open spec fn latest_word() -> Seq<char> {
    seq!['l', 'a', 't', 'e', 's', 't']
}

/// Resolves a selector against the contexts under `root`: `latest` (any
/// letter case) picks the most recently started one; a selector naming a
/// context directory picks that context; anything else is matched against
/// the games' names.
pub fn resolve_target_app(
    root: &str,
    selector: &str,
    selector_is_dir: bool,
    apps: &Vec<RunningApp>,
) -> (r: Result<TargetApp, ResolveError>)
    ensures
        eq_ascii_nocase(selector@, latest_word()) ==> latest_result(apps@, r),
        !eq_ascii_nocase(selector@, latest_word()) && selector_is_dir ==> (r matches Ok(t)
            && t.appid@ == selector@ && t.app_dir@ == path_join(root@, selector@)),
        !eq_ascii_nocase(selector@, latest_word()) && !selector_is_dir ==> by_name_result(apps@, selector@, r),
{
    proof { reveal_strlit("latest"); }
    assert("latest"@ =~= latest_word());
    if eq_ignore_ascii_case(selector, "latest") {
        return resolve_latest_app(apps);
    }
    if selector_is_dir {
        return Ok(TargetApp { appid: String::from_str(selector), app_dir: join_path(root, selector) });
    }
    resolve_app_by_name(apps, selector)
}

} // verus!
