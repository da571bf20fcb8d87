//! Game metadata from the launcher's library: the app manifest's `name` and
//! `installdir`, found next to the compat-data directory.

use vstd::prelude::*;
use crate::text::{texts, opt_text, has_char, first_index, lemma_first_index, trim, to_chars, find_char_in, trim_bounds, string_of_range};
use crate::path::{path_parent_of, path_parent, path_join, join_path};
use crate::env_store::{lines, split_lines, get_env_var, lookup, env_entries};

verus! {

/// What is known of a running game: its name and install directory.
pub struct AppMeta {
    pub name: Option<String>,
    pub install_path: Option<String>,
}

/// The two fields of an app manifest that the tool reads.
pub struct ManifestInfo {
    pub name: Option<String>,
    pub installdir: Option<String>,
}

/// `t`, as a one-element sequence, where it is not empty.
pub open spec fn keep_nonempty(t: Seq<char>) -> Seq<Seq<char>> {
    if t.len() == 0 { Seq::empty() } else { seq![t] }
}

/// The pieces of `s` between double quotes, each trimmed, empty ones dropped.
#[verifier::opaque]
pub open spec fn quote_fields(s: Seq<char>) -> Seq<Seq<char>>
    decreases s.len(),
{
    if !has_char(s, '"') {
        keep_nonempty(trim(s))
    } else {
        let k = first_index(s, '"');
        if 0 <= k < s.len() {
            keep_nonempty(trim(s.take(k))) + quote_fields(s.skip(k + 1))
        } else {
            Seq::empty()
        }
    }
}

proof fn lemma_quote_fields_step(s: Seq<char>, k: int)
    requires
        0 <= k < s.len(),
        s[k] == '"',
        !has_char(s.take(k), '"'),
    ensures
        quote_fields(s) == keep_nonempty(trim(s.take(k))) + quote_fields(s.skip(k + 1)),
{
    lemma_first_index(s, '"', k);
    reveal(quote_fields);
}

proof fn lemma_quote_fields_last(s: Seq<char>)
    requires
        !has_char(s, '"'),
    ensures
        quote_fields(s) == keep_nonempty(trim(s)),
{
    reveal(quote_fields);
}

/// The key and value of a manifest line `"key"  "value"`: its first two fields.
pub open spec fn acf_entry(line: Seq<char>) -> Option<(Seq<char>, Seq<char>)> {
    let f = quote_fields(trim(line));
    if f.len() >= 2 { Some((f[0], f[1])) } else { None }
}

pub open spec fn name_key() -> Seq<char> {
    seq!['n', 'a', 'm', 'e']
}

pub open spec fn installdir_key() -> Seq<char> {
    seq!['i', 'n', 's', 't', 'a', 'l', 'l', 'd', 'i', 'r']
}

/// Reads the manifest lines `ls` into `(name, installdir)`, starting from
/// what was found so far: a later line overrides an earlier one, and reading
/// stops once both are known.
pub open spec fn manifest_scan(
    ls: Seq<Seq<char>>,
    name: Option<Seq<char>>,
    dir: Option<Seq<char>>,
) -> (Option<Seq<char>>, Option<Seq<char>>)
    decreases ls.len(),
{
    if ls.len() == 0 || (name is Some && dir is Some) {
        (name, dir)
    } else {
        match acf_entry(ls[0]) {
            Some((k, v)) => if k == name_key() {
                manifest_scan(ls.drop_first(), Some(v), dir)
            } else if k == installdir_key() {
                manifest_scan(ls.drop_first(), name, Some(v))
            } else {
                manifest_scan(ls.drop_first(), name, dir)
            },
            None => manifest_scan(ls.drop_first(), name, dir),
        }
    }
}

/// The trimmed, non-empty double-quote-separated fields of `v[lo..hi]`.
fn quote_fields_of(v: &Vec<char>, lo: usize, hi: usize) -> (r: Vec<String>)
    requires
        lo <= hi <= v@.len(),
    ensures
        texts(r@) == quote_fields(v@.subrange(lo as int, hi as int)),
{
    let mut r: Vec<String> = Vec::new();
    let mut ps = lo;
    loop
        invariant
            lo <= ps <= hi <= v@.len(),
            texts(r@) + quote_fields(v@.subrange(ps as int, hi as int)) == quote_fields(v@.subrange(lo as int, hi as int)),
        decreases hi - ps,
    {
        let ghost s = v@.subrange(ps as int, hi as int);
        match find_char_in(v, '"', ps, hi) {
            None => {
                let (a, b) = trim_bounds(v, ps, hi);
                proof { lemma_quote_fields_last(s); }
                let ghost before = texts(r@);
                if a < b {
                    r.push(string_of_range(v, a, b));
                }
                assert(texts(r@) =~= before + keep_nonempty(trim(s)));
                return r;
            },
            Some(k) => {
                proof {
                    assert(s.take(k - ps) =~= v@.subrange(ps as int, k as int));
                    assert(s[k - ps] == '"');
                    lemma_quote_fields_step(s, k - ps);
                    assert(s.skip(k - ps + 1) =~= v@.subrange(k + 1, hi as int));
                }
                let (a, b) = trim_bounds(v, ps, k);
                let ghost before = texts(r@);
                if a < b {
                    r.push(string_of_range(v, a, b));
                }
                assert(texts(r@) =~= before + keep_nonempty(trim(s.take(k - ps))));
                ps = k + 1;
                assert(texts(r@) + quote_fields(v@.subrange(ps as int, hi as int)) =~= quote_fields(v@.subrange(lo as int, hi as int)));
            },
        }
    }
}

/// The key and value of a manifest line `"key"  "value"`.
pub fn parse_acf_line(line: &str) -> (r: Option<(String, String)>)
    ensures
        r is None <==> acf_entry(line@) is None,
        r matches Some((k, v)) ==> acf_entry(line@) == Some((k@, v@)),
{
    let v = to_chars(line);
    let n = v.len();
    let (a, b) = trim_bounds(&v, 0, n);
    assert(v@.subrange(0, n as int) =~= line@);
    let fields = quote_fields_of(&v, a, b);
    if fields.len() >= 2 {
        Some((fields[0].clone(), fields[1].clone()))
    } else {
        None
    }
}

/// The `name` and `installdir` of an app manifest.
pub fn parse_manifest_info(content: &str) -> (r: ManifestInfo)
    ensures
        (opt_text(r.name), opt_text(r.installdir)) == manifest_scan(lines(content@), None, None),
{
    let ls = split_lines(content);
    let ghost lv = texts(ls@);
    let name_k = String::from_str("name");
    let dir_k = String::from_str("installdir");
    proof {
        reveal_strlit("name");
        reveal_strlit("installdir");
        assert(name_k@ =~= name_key());
        assert(dir_k@ =~= installdir_key());
    }
    let mut info = ManifestInfo { name: None, installdir: None };
    let mut i: usize = 0;
    assert(lv.skip(0) =~= lv);
    while i < ls.len()
        invariant
            lv == texts(ls@),
            lv == lines(content@),
            name_k@ == name_key(),
            dir_k@ == installdir_key(),
            i <= ls@.len(),
            !(info.name is Some && info.installdir is Some),
            manifest_scan(lv.skip(i as int), opt_text(info.name), opt_text(info.installdir))
                == manifest_scan(lv, None, None),
        decreases ls@.len() - i,
    {
        let ghost tail = lv.skip(i as int);
        let ghost n0 = opt_text(info.name);
        let ghost d0 = opt_text(info.installdir);
        assert(tail.drop_first() =~= lv.skip(i + 1));
        assert(tail[0] == ls@[i as int]@);
        match parse_acf_line(ls[i].as_str()) {
            Some((key, value)) => {
                if key == name_k {
                    info.name = Some(value);
                } else if key == dir_k {
                    info.installdir = Some(value);
                }
            },
            None => {},
        }
        assert(manifest_scan(tail, n0, d0) == manifest_scan(tail.drop_first(), opt_text(info.name), opt_text(info.installdir)));
        i = i + 1;
        if info.name.is_some() && info.installdir.is_some() {
            return info;
        }
    }
    assert(lv.skip(i as int) =~= Seq::<Seq<char>>::empty());
    info
}

/// The launcher's variable that points at a game's compat-data directory.
pub open spec fn compat_data_key() -> Seq<char> {
    seq!['S', 'T', 'E', 'A', 'M', '_', 'C', 'O', 'M', 'P', 'A', 'T', '_', 'D', 'A', 'T', 'A', '_', 'P', 'A', 'T', 'H']
}

/// The library directory two levels above a compat-data directory.
pub open spec fn steamapps_of(compat: Seq<char>) -> Option<Seq<char>> {
    match path_parent_of(compat) {
        Some(c) => path_parent_of(c),
        None => None,
    }
}

/// The library directory (`steamapps`) that holds a compat-data directory.
pub fn steamapps_path_from_compat(compat_data: &str) -> (r: Option<String>)
    ensures
        opt_text(r) == steamapps_of(compat_data@),
{
    match path_parent(compat_data) {
        Some(c) => path_parent(c.as_str()),
        None => None,
    }
}

/// `appmanifest_<appid>.acf`
pub open spec fn manifest_file_name(appid: Seq<char>) -> Seq<char> {
    seq!['a', 'p', 'p', 'm', 'a', 'n', 'i', 'f', 'e', 's', 't', '_'] + appid + seq!['.', 'a', 'c', 'f']
}

/// Where the manifest of `appid` lies, given the context's environment
/// snapshot: the library directory and the manifest's path in it.
pub open spec fn manifest_place(env_content: Seq<char>, appid: Seq<char>) -> Option<(Seq<char>, Seq<char>)> {
    match lookup(env_entries(lines(env_content)), compat_data_key()) {
        Some(compat) => match steamapps_of(compat) {
            Some(lib) => Some((lib, path_join(lib, manifest_file_name(appid)))),
            None => None,
        },
        None => None,
    }
}

/// The library directory and the manifest path for `appid`, found through
/// the compat-data path of its environment snapshot.
pub fn manifest_location(env_content: &str, appid: &str) -> (r: Option<(String, String)>)
    ensures
        r is None <==> manifest_place(env_content@, appid@) is None,
        r matches Some((lib, path)) ==> manifest_place(env_content@, appid@) == Some((lib@, path@)),
{
    proof {
        reveal_strlit("STEAM_COMPAT_DATA_PATH");
        reveal_strlit("appmanifest_");
        reveal_strlit(".acf");
    }
    assert("STEAM_COMPAT_DATA_PATH"@ =~= compat_data_key());
    let compat = match get_env_var(env_content, "STEAM_COMPAT_DATA_PATH") {
        Some(c) => c,
        None => return None,
    };
    let lib = match steamapps_path_from_compat(compat.as_str()) {
        Some(l) => l,
        None => return None,
    };
    let mut file = String::from_str("appmanifest_");
    file.append(appid);
    file.append(".acf");
    assert(file@ =~= manifest_file_name(appid@));
    let path = join_path(lib.as_str(), file.as_str());
    Some((lib, path))
}

/// What the manifest's install directory makes of the game's install path.
pub open spec fn install_path_of(lib: Seq<char>, dir: Option<Seq<char>>) -> Option<Seq<char>> {
    match dir {
        Some(d) => Some(path_join(path_join(lib, seq!['c', 'o', 'm', 'm', 'o', 'n']), d)),
        None => None,
    }
}

/// The name and install path of a game, from its manifest's text and the
/// library directory that holds it.
pub fn app_meta_from_manifest(steamapps: &str, manifest_content: &str) -> (r: AppMeta)
    ensures
        opt_text(r.name) == manifest_scan(lines(manifest_content@), None, None).0,
        opt_text(r.install_path) == install_path_of(steamapps@, manifest_scan(lines(manifest_content@), None, None).1),
{
    let info = parse_manifest_info(manifest_content);
    let install_path = match info.installdir {
        Some(dir) => {
            proof { reveal_strlit("common"); }
            assert("common"@ =~= seq!['c', 'o', 'm', 'm', 'o', 'n']);
            let common = join_path(steamapps, "common");
            Some(join_path(common.as_str(), dir.as_str()))
        },
        None => None,
    };
    AppMeta { name: info.name, install_path }
}

} // verus!
