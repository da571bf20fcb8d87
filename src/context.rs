//! What the context store records and replays: the prefix path, the
//! environment to restore, and the listing order of contexts.

use vstd::prelude::*;
use vstd::multiset::Multiset;
use crate::env_store::{pair_texts, env_entries, env_file, env_file_content, lines, load_environment};
use crate::runtime::{decimal, push_decimal};
use crate::resolve::{RunningApp, TargetApp};
use crate::text::to_chars;

verus! {

/// `/pfx`
pub open spec fn pfx_suffix() -> Seq<char> {
    seq!['/', 'p', 'f', 'x']
}

/// The prefix directory recorded for a compat-data directory: `<compat>/pfx`.
pub fn pfx_path(compat_data: &str) -> (r: String)
    ensures
        r@ == compat_data@ + pfx_suffix(),
{
    proof { reveal_strlit("/pfx"); }
    assert("/pfx"@ =~= pfx_suffix());
    let mut r = String::from_str(compat_data);
    r.append("/pfx");
    r
}

/// The four files of a context, as `create` writes them.
pub struct ContextRecord {
    /// `started_at`: the start time in decimal Unix seconds.
    pub started_at: String,
    /// `exe`: the compatibility tool's executable, verbatim.
    pub exe: String,
    /// `pfx`: the prefix directory, verbatim.
    pub pfx: String,
    /// `env`: the environment snapshot.
    pub env: String,
}

/// What `create` records for a context started at `now` with the given
/// executable, compat-data directory and process environment.
pub fn context_record(
    now: u64,
    executable: &str,
    compat_data: &str,
    vars: &Vec<(String, String)>,
) -> (r: ContextRecord)
    ensures
        r.started_at@ == decimal(now as nat),
        r.exe@ == executable@,
        r.pfx@ == compat_data@ + pfx_suffix(),
        r.env@ == env_file(pair_texts(vars@)),
{
    let mut started_at = String::new();
    push_decimal(&mut started_at, now);
    ContextRecord {
        started_at,
        exe: String::from_str(executable),
        pfx: pfx_path(compat_data),
        env: env_file_content(vars),
    }
}

/// `/drive_c/windows/system32/cmd.exe`
pub open spec fn cmd_exe_suffix() -> Seq<char> {
    seq!['/', 'd', 'r', 'i', 'v', 'e', '_', 'c', '/', 'w', 'i', 'n', 'd', 'o', 'w', 's', '/', 's', 'y', 's',
        't', 'e', 'm', '3', '2', '/', 'c', 'm', 'd', '.', 'e', 'x', 'e']
}

/// The console program inside a prefix.
pub fn cmd_exe_path(pfx: &str) -> (r: String)
    ensures
        r@ == pfx@ + cmd_exe_suffix(),
{
    proof { reveal_strlit("/drive_c/windows/system32/cmd.exe"); }
    assert("/drive_c/windows/system32/cmd.exe"@ =~= cmd_exe_suffix());
    let mut r = String::from_str(pfx);
    r.append("/drive_c/windows/system32/cmd.exe");
    r
}

/// Adds to `env`, in file order, the variables that an environment snapshot
/// holds; set in that order, a later one overrides an earlier one.
pub fn apply_env_content(env: &mut Vec<(String, String)>, env_content: &str)
    ensures
        pair_texts(final(env)@) == pair_texts(old(env)@) + env_entries(lines(env_content@)),
{
    let mut loaded = load_environment(env_content);
    let ghost added = loaded@;
    env.append(&mut loaded);
    assert(pair_texts(env@) =~= pair_texts(old(env)@) + pair_texts(added));
}

/// `SteamAppId`
pub open spec fn app_id_key() -> Seq<char> {
    seq!['S', 't', 'e', 'a', 'm', 'A', 'p', 'p', 'I', 'd']
}

/// The variables to set before acting inside a context: its appid as
/// `SteamAppId`, then everything its snapshot holds.
pub fn prepare_context(target: &TargetApp, env_content: &str) -> (r: Vec<(String, String)>)
    ensures
        pair_texts(r@) == seq![(app_id_key(), target.appid@)] + env_entries(lines(env_content@)),
{
    proof { reveal_strlit("SteamAppId"); }
    assert("SteamAppId"@ =~= app_id_key());
    let mut env: Vec<(String, String)> = Vec::new();
    env.push((String::from_str("SteamAppId"), target.appid.clone()));
    assert(pair_texts(env@) =~= seq![(app_id_key(), target.appid@)]);
    apply_env_content(&mut env, env_content);
    env
}

/// `a` comes before `b` or equals it, comparing characters in order, as
/// `String`'s ordering does.
pub open spec fn text_le(a: Seq<char>, b: Seq<char>) -> bool
    decreases a.len(),
{
    if a.len() == 0 {
        true
    } else if b.len() == 0 {
        false
    } else if a[0] != b[0] {
        a[0] < b[0]
    } else {
        text_le(a.drop_first(), b.drop_first())
    }
}

proof fn lemma_text_le_total(a: Seq<char>, b: Seq<char>)
    ensures
        text_le(a, b) || text_le(b, a),
    decreases a.len(),
{
    if a.len() > 0 && b.len() > 0 && a[0] == b[0] {
        lemma_text_le_total(a.drop_first(), b.drop_first());
    }
}

proof fn lemma_text_le_trans(a: Seq<char>, b: Seq<char>, c: Seq<char>)
    requires
        text_le(a, b),
        text_le(b, c),
    ensures
        text_le(a, c),
    decreases a.len(),
{
    if a.len() > 0 && b.len() > 0 && c.len() > 0 && a[0] == b[0] && b[0] == c[0] {
        lemma_text_le_trans(a.drop_first(), b.drop_first(), c.drop_first());
    }
}

/// Whether `a` comes before `b` or equals it.
fn str_le(a: &str, b: &str) -> (r: bool)
    ensures
        r == text_le(a@, b@),
{
    let av = to_chars(a);
    let bv = to_chars(b);
    let mut i: usize = 0;
    assert(av@.skip(0) =~= av@);
    assert(bv@.skip(0) =~= bv@);
    while i < av.len() && i < bv.len()
        invariant
            av@ == a@,
            bv@ == b@,
            i <= av@.len(),
            i <= bv@.len(),
            text_le(av@.skip(i as int), bv@.skip(i as int)) == text_le(a@, b@),
        decreases av@.len() - i,
    {
        assert(av@.skip(i as int).drop_first() =~= av@.skip(i + 1));
        assert(bv@.skip(i as int).drop_first() =~= bv@.skip(i + 1));
        if av[i] != bv[i] {
            return av[i] < bv[i];
        }
        i = i + 1;
    }
    i == av.len()
}

/// The contexts are in ascending order of appid.
pub open spec fn sorted_by_appid(apps: Seq<RunningApp>) -> bool {
    forall|i: int, j: int| 0 <= i < j < apps.len() ==> text_le(#[trigger] apps[i].appid@, #[trigger] apps[j].appid@)
}

/// The contexts in ascending order of appid.
pub fn sort_by_appid(apps: Vec<RunningApp>) -> (r: Vec<RunningApp>)
    ensures
        r@.to_multiset() == apps@.to_multiset(),
        sorted_by_appid(r@),
{
    broadcast use vstd::seq_lib::to_multiset_build, vstd::seq_lib::to_multiset_insert,
        vstd::seq_lib::to_multiset_len, vstd::multiset::lemma_multiset_empty_len;
    let mut rest = apps;
    let mut sorted: Vec<RunningApp> = Vec::new();
    assert(sorted@.to_multiset().len() == 0);
    assert(sorted@.to_multiset().add(rest@.to_multiset()) =~= apps@.to_multiset());
    while rest.len() > 0
        invariant
            sorted@.to_multiset().add(rest@.to_multiset()) == apps@.to_multiset(),
            sorted_by_appid(sorted@),
        decreases rest@.len(),
    {
        let ghost before = rest@;
        let app = rest.pop().unwrap();
        assert(before =~= rest@.push(app));
        let mut p: usize = 0;
        while p < sorted.len() && str_le(sorted[p].appid.as_str(), app.appid.as_str())
            invariant
                p <= sorted@.len(),
                forall|k: int| 0 <= k < p ==> text_le(#[trigger] sorted@[k].appid@, app.appid@),
            decreases sorted@.len() - p,
        {
            p = p + 1;
        }
        proof {
            if p < sorted@.len() {
                lemma_text_le_total(sorted@[p as int].appid@, app.appid@);
                assert forall|k: int| p <= k < sorted@.len() implies text_le(app.appid@, #[trigger] sorted@[k].appid@) by {
                    if k > p {
                        lemma_text_le_trans(app.appid@, sorted@[p as int].appid@, sorted@[k].appid@);
                    }
                }
            }
        }
        let ghost old_sorted = sorted@;
        sorted.insert(p, app);
        assert(sorted@ == old_sorted.insert(p as int, app));
        proof {
            vstd::seq_lib::to_multiset_insert(old_sorted, p as int, app);
            vstd::seq_lib::to_multiset_build(rest@, app);
            assert(sorted@.to_multiset() == old_sorted.to_multiset().insert(app));
            assert(before.to_multiset() == rest@.to_multiset().insert(app));
            assert(old_sorted.to_multiset().insert(app).add(rest@.to_multiset())
                =~= old_sorted.to_multiset().add(rest@.to_multiset().insert(app)));
        }
        assert forall|i: int, j: int| 0 <= i < j < sorted@.len() implies text_le(
            #[trigger] sorted@[i].appid@,
            #[trigger] sorted@[j].appid@,
        ) by {
            if i < p && j == p {
            } else if i == p {
                assert(sorted@[j] == old_sorted[j - 1]);
            } else if j < p {
                assert(text_le(old_sorted[i].appid@, old_sorted[j].appid@));
            } else if i < p {
                assert(sorted@[j] == old_sorted[j - 1]);
                assert(text_le(old_sorted[i].appid@, old_sorted[j - 1].appid@));
            } else {
                assert(sorted@[i] == old_sorted[i - 1]);
                assert(sorted@[j] == old_sorted[j - 1]);
                assert(text_le(old_sorted[i - 1].appid@, old_sorted[j - 1].appid@));
            }
        }
    }
    assert(rest@.to_multiset().len() == 0);
    assert(rest@.to_multiset() =~= Multiset::empty());
    assert(sorted@.to_multiset().add(Multiset::empty()) =~= sorted@.to_multiset());
    sorted
}

} // verus!
