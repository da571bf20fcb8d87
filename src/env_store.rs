//! The environment snapshot of a context: one `declare -x NAME=VALUE` line
//! per variable, values escaped by the shell codec.

use vstd::prelude::*;
use crate::text::{texts, 
    is_ws, has_char, first_index, lemma_first_index, trim, lemma_trim_unchanged, to_chars,
    find_char_in, trim_bounds, matches_at, string_of_range,
};
use crate::shell::{escape, unescape, escape_body, is_escapable, needs_quoting, forces_quoting, shell_escape, un_shell_escape, lemma_escape_round_trip};

verus! {

/// The length of the first line of `s`: the position of its first `\n`, or
/// its length where it has none.
pub open spec fn line_end(s: Seq<char>) -> nat
    decreases s.len(),
{
    if s.len() == 0 || s[0] == '\n' {
        0
    } else {
        1 + line_end(s.drop_first())
    }
}

/// The lines of `s` as `str::lines` gives them: split at `\n`, a `\r` before
/// the `\n` dropped, and no empty line after a final `\n`.
pub open spec fn lines(s: Seq<char>) -> Seq<Seq<char>>
    decreases s.len(),
{
    if s.len() == 0 {
        Seq::empty()
    } else {
        let e = line_end(s) as int;
        if e < s.len() {
            let l = s.take(e);
            let l = if l.len() > 0 && l.last() == '\r' { l.drop_last() } else { l };
            seq![l] + lines(s.skip(e + 1))
        } else {
            seq![s]
        }
    }
}

proof fn lemma_line_end(s: Seq<char>, e: int)
    requires
        0 <= e <= s.len(),
        forall|j: int| 0 <= j < e ==> s[j] != '\n',
        e == s.len() || s[e] == '\n',
    ensures
        line_end(s) == e,
    decreases e,
{
    if e > 0 {
        lemma_line_end(s.drop_first(), e - 1);
    }
}

/// The text `declare -x `.
pub open spec fn declare_prefix() -> Seq<char> {
    seq!['d', 'e', 'c', 'l', 'a', 'r', 'e', ' ', '-', 'x', ' ']
}

/// The name and the raw (still escaped) value of a `declare -x NAME=VALUE`
/// line, each trimmed; `None` for any other line.
pub open spec fn parse_export(line: Seq<char>) -> Option<(Seq<char>, Seq<char>)> {
    let t = trim(line);
    let p = declare_prefix();
    if t.len() >= p.len() && t.take(p.len() as int) == p && has_char(t.skip(p.len() as int), '=') {
        let rest = t.skip(p.len() as int);
        let k = first_index(rest, '=');
        Some((trim(rest.take(k)), trim(rest.skip(k + 1))))
    } else {
        None
    }
}

/// The variables that the lines `ls` hold, in order, values unescaped.
pub open spec fn env_entries(ls: Seq<Seq<char>>) -> Seq<(Seq<char>, Seq<char>)>
    decreases ls.len(),
{
    if ls.len() == 0 {
        Seq::empty()
    } else {
        match parse_export(ls[0]) {
            Some((n, v)) => seq![(n, unescape(v))] + env_entries(ls.drop_first()),
            None => env_entries(ls.drop_first()),
        }
    }
}

/// The value of the first entry named `key`.
pub open spec fn lookup(es: Seq<(Seq<char>, Seq<char>)>, key: Seq<char>) -> Option<Seq<char>>
    decreases es.len(),
{
    if es.len() == 0 {
        None
    } else if es[0].0 == key {
        Some(es[0].1)
    } else {
        lookup(es.drop_first(), key)
    }
}

/// The texts of a sequence of string pairs.
pub open spec fn pair_texts(v: Seq<(String, String)>) -> Seq<(Seq<char>, Seq<char>)> {
    v.map_values(|p: (String, String)| (p.0@, p.1@))
}

/// The line that records one variable.
pub open spec fn env_line(name: Seq<char>, value: Seq<char>) -> Seq<char> {
    declare_prefix() + name + seq!['='] + escape(value) + seq!['\n']
}

/// The whole snapshot file for `vars`, one line each, in order.
pub open spec fn env_file(vars: Seq<(Seq<char>, Seq<char>)>) -> Seq<char>
    decreases vars.len(),
{
    if vars.len() == 0 {
        Seq::empty()
    } else {
        env_line(vars[0].0, vars[0].1) + env_file(vars.drop_first())
    }
}

/// The lines of `content`, as `str::lines` splits them.
pub fn split_lines(content: &str) -> (r: Vec<String>)
    ensures
        texts(r@) == lines(content@),
{
    let v = to_chars(content);
    let n = v.len();
    let mut r: Vec<String> = Vec::new();
    let mut pos: usize = 0;
    assert(v@.skip(0) =~= v@);
    while pos < n
        invariant
            n == v@.len(),
            v@ == content@,
            pos <= n,
            texts(r@) + lines(v@.skip(pos as int)) == lines(v@),
        decreases n - pos,
    {
        let ghost s = v@.skip(pos as int);
        let mut e = pos;
        while e < n && v[e] != '\n'
            invariant
                n == v@.len(),
                pos <= e <= n,
                forall|j: int| pos <= j < e ==> v@[j] != '\n',
            decreases n - e,
        {
            e = e + 1;
        }
        proof {
            lemma_line_end(s, e - pos);
        }
        if e < n {
            let end = if e > pos && v[e - 1] == '\r' { e - 1 } else { e };
            let line = string_of_range(&v, pos, end);
            proof {
                assert(s.take(e - pos) =~= v@.subrange(pos as int, e as int));
                if e > pos && v@[e - 1] == '\r' {
                    assert(s.take(e - pos).drop_last() =~= line@);
                }
                assert(s.skip(e - pos + 1) =~= v@.skip(e + 1));
            }
            r.push(line);
            pos = e + 1;
        } else {
            let line = string_of_range(&v, pos, n);
            assert(s =~= line@);
            r.push(line);
            pos = n;
            assert(v@.skip(pos as int) =~= Seq::<char>::empty());
        }
        assert(texts(r@) + lines(v@.skip(pos as int)) =~= lines(v@));
    }
    assert(v@.skip(pos as int) =~= Seq::<char>::empty());
    assert(texts(r@) =~= lines(v@));
    r
}

/// The name and raw value of a `declare -x NAME=VALUE` line.
pub fn parse_export_line(line: &str) -> (r: Option<(String, String)>)
    ensures
        r is None <==> parse_export(line@) is None,
        r matches Some((n, v)) ==> parse_export(line@) == Some((n@, v@)),
{
    let v = to_chars(line);
    let n = v.len();
    let prefix = to_chars("declare -x ");
    proof {
        reveal_strlit("declare -x ");
        assert(prefix@ =~= declare_prefix());
    }
    let (a, b) = trim_bounds(&v, 0, n);
    let ghost t = v@.subrange(a as int, b as int);
    assert(v@.subrange(0, n as int) =~= v@);
    if b - a < prefix.len() || !matches_at(&v, &prefix, a) {
        proof {
            if t.len() >= 11 && t.take(11) == declare_prefix() {
                assert(v@.subrange(a as int, a + 11) =~= t.take(11));
            }
        }
        return None;
    }
    let start = a + prefix.len();
    assert(t.take(11) =~= v@.subrange(a as int, a + 11));
    assert(t.skip(11) =~= v@.subrange(start as int, b as int));
    match find_char_in(&v, '=', start, b) {
        None => None,
        Some(k) => {
            let ghost rest = t.skip(11);
            proof {
                assert(rest.take(k - start) =~= v@.subrange(start as int, k as int));
                assert(rest[k - start] == '=');
                lemma_first_index(rest, '=', k - start);
                assert(rest.skip(k - start + 1) =~= v@.subrange(k + 1, b as int));
            }
            let (na, nb) = trim_bounds(&v, start, k);
            let (va, vb) = trim_bounds(&v, k + 1, b);
            Some((string_of_range(&v, na, nb), string_of_range(&v, va, vb)))
        },
    }
}

/// The variables that an environment snapshot holds, in file order, values
/// unescaped; lines of any other shape are skipped.
pub fn load_environment(content: &str) -> (r: Vec<(String, String)>)
    ensures
        pair_texts(r@) == env_entries(lines(content@)),
{
    let ls = split_lines(content);
    let ghost lsv = texts(ls@);
    let mut r: Vec<(String, String)> = Vec::new();
    let mut i: usize = 0;
    assert(lsv.skip(0) =~= lsv);
    while i < ls.len()
        invariant
            lsv == texts(ls@),
            lsv == lines(content@),
            i <= ls@.len(),
            pair_texts(r@) + env_entries(lsv.skip(i as int)) == env_entries(lsv),
        decreases ls@.len() - i,
    {
        assert(lsv.skip(i as int).drop_first() =~= lsv.skip(i + 1));
        assert(lsv.skip(i as int)[0] == ls@[i as int]@);
        match parse_export_line(ls[i].as_str()) {
            Some((name, raw)) => {
                let value = un_shell_escape(raw.as_str());
                r.push((name, value));
            },
            None => {},
        }
        i = i + 1;
        assert(pair_texts(r@) + env_entries(lsv.skip(i as int)) =~= env_entries(lsv));
    }
    assert(lsv.skip(i as int) =~= Seq::<(Seq<char>)>::empty());
    assert(pair_texts(r@) =~= env_entries(lsv));
    r
}

/// The value of the first variable named `key` in an environment snapshot.
pub fn get_env_var(env_content: &str, key: &str) -> (r: Option<String>)
    ensures
        r is None <==> lookup(env_entries(lines(env_content@)), key@) is None,
        r matches Some(v) ==> lookup(env_entries(lines(env_content@)), key@) == Some(v@),
{
    let entries = load_environment(env_content);
    let wanted = String::from_str(key);
    let ghost es = pair_texts(entries@);
    let mut i: usize = 0;
    assert(es.skip(0) =~= es);
    while i < entries.len()
        invariant
            es == pair_texts(entries@),
            es == env_entries(lines(env_content@)),
            wanted@ == key@,
            i <= entries@.len(),
            lookup(es.skip(i as int), key@) == lookup(es, key@),
        decreases entries@.len() - i,
    {
        let ghost tail = es.skip(i as int);
        assert(tail.drop_first() =~= es.skip(i + 1));
        assert(tail[0] == (entries@[i as int].0@, entries@[i as int].1@));
        if entries[i].0 == wanted {
            assert(lookup(tail, key@) == Some(tail[0].1));
            return Some(entries[i].1.clone());
        }
        assert(lookup(tail, key@) == lookup(tail.drop_first(), key@));
        i = i + 1;
    }
    None
}

/// The snapshot file that records `vars`: one `declare -x NAME=VALUE` line
/// each, in order, values escaped.
pub fn env_file_content(vars: &Vec<(String, String)>) -> (r: String)
    ensures
        r@ == env_file(pair_texts(vars@)),
{
    let ghost ps = pair_texts(vars@);
    let mut r = String::new();
    let mut i: usize = 0;
    assert(ps.skip(0) =~= ps);
    while i < vars.len()
        invariant
            ps == pair_texts(vars@),
            i <= vars@.len(),
            r@ + env_file(ps.skip(i as int)) == env_file(ps),
        decreases vars@.len() - i,
    {
        assert(ps.skip(i as int).drop_first() =~= ps.skip(i + 1));
        let ghost before = r@;
        assert(ps[i as int] == (vars@[i as int].0@, vars@[i as int].1@));
        proof {
            reveal_strlit("declare -x ");
            reveal_strlit("=");
            reveal_strlit("\n");
        }
        assert("declare -x "@ =~= declare_prefix());
        assert("="@ =~= seq!['=']);
        assert("\n"@ =~= seq!['\n']);
        r.append("declare -x ");
        r.append(vars[i].0.as_str());
        r.append("=");
        let escaped = shell_escape(vars[i].1.as_str());
        r.append(escaped.as_str());
        r.append("\n");
        assert(r@ =~= before + env_line(ps[i as int].0, ps[i as int].1));
        i = i + 1;
        assert(r@ + env_file(ps.skip(i as int)) =~= env_file(ps));
    }
    assert(ps.skip(i as int) =~= Seq::<(Seq<char>, Seq<char>)>::empty());
    assert(r@ =~= env_file(ps));
    r
}

proof fn lemma_has_char_concat(a: Seq<char>, b: Seq<char>, c: char)
    ensures
        has_char(a + b, c) <==> has_char(a, c) || has_char(b, c),
{
    let s = a + b;
    if has_char(s, c) {
        let i = choose|i: int| 0 <= i < s.len() && s[i] == c;
        if i < a.len() {
            assert(a[i] == c);
        } else {
            assert(b[i - a.len()] == c);
        }
    }
    if has_char(a, c) {
        let i = choose|i: int| 0 <= i < a.len() && a[i] == c;
        assert(s[i] == c);
    }
    if has_char(b, c) {
        let i = choose|i: int| 0 <= i < b.len() && b[i] == c;
        assert(s[a.len() + i] == c);
    }
}

proof fn lemma_escape_body_lacks(v: Seq<char>, c: char)
    requires
        c != '\\',
        !has_char(v, c),
    ensures
        !has_char(escape_body(v), c),
    decreases v.len(),
{
    if v.len() > 0 {
        assert(!has_char(v.drop_first(), c)) by {
            if has_char(v.drop_first(), c) {
                let i = choose|i: int| 0 <= i < v.len() - 1 && v.drop_first()[i] == c;
                assert(v[i + 1] == c);
            }
        }
        lemma_escape_body_lacks(v.drop_first(), c);
        assert(v[0] != c);
        if is_escapable(v[0]) {
            lemma_has_char_concat(seq!['\\', v[0]], escape_body(v.drop_first()), c);
            assert(!has_char(seq!['\\', v[0]], c));
        } else {
            lemma_has_char_concat(seq![v[0]], escape_body(v.drop_first()), c);
            assert(!has_char(seq![v[0]], c));
        }
    }
}

proof fn lemma_lines_cons(l: Seq<char>, rest: Seq<char>)
    requires
        !has_char(l, '\n'),
        l.len() > 0 ==> l.last() != '\r',
    ensures
        lines(l + seq!['\n'] + rest) == seq![l] + lines(rest),
{
    let s = l + seq!['\n'] + rest;
    assert forall|j: int| 0 <= j < l.len() implies s[j] != '\n' by {
        assert(s[j] == l[j]);
    }
    lemma_line_end(s, l.len() as int);
    assert(s.take(l.len() as int) =~= l);
    assert(s.skip(l.len() as int + 1) =~= rest);
}

/// A variable whose line reads back as written: the name holds no `=` and no
/// line break and has no whitespace at either end; the value holds no line break.
pub open spec fn storable(name: Seq<char>, value: Seq<char>) -> bool {
    &&& !has_char(name, '=')
    &&& !has_char(name, '\n')
    &&& (name.len() > 0 ==> !is_ws(name[0]) && !is_ws(name.last()))
    &&& !has_char(value, '\n')
}

proof fn lemma_line_reads_back(name: Seq<char>, value: Seq<char>)
    requires
        storable(name, value),
    ensures
        ({
            let body = declare_prefix() + name + seq!['='] + escape(value);
            &&& env_line(name, value) == body + seq!['\n']
            &&& !has_char(body, '\n')
            &&& body.last() != '\r'
            &&& parse_export(body) == Some((name, escape(value)))
        }),
{
    let esc = escape(value);
    let p = declare_prefix();
    let body = p + name + seq!['='] + esc;
    assert(env_line(name, value) =~= body + seq!['\n']);
    // no line break in the escaped value
    if needs_quoting(value) {
        lemma_escape_body_lacks(value, '\n');
        lemma_has_char_concat(seq!['"'], escape_body(value), '\n');
        lemma_has_char_concat(seq!['"'] + escape_body(value), seq!['"'], '\n');
        assert(!has_char(seq!['"'], '\n'));
    }
    assert(!has_char(p, '\n')) by {
        if has_char(p, '\n') {
            let i = choose|i: int| 0 <= i < p.len() && p[i] == '\n';
        }
    }
    assert(!has_char(seq!['='], '\n'));
    lemma_has_char_concat(p, name, '\n');
    lemma_has_char_concat(p + name, seq!['='], '\n');
    lemma_has_char_concat(p + name + seq!['='], esc, '\n');
    // the escaped value neither starts nor ends with whitespace
    assert(esc.len() > 0 ==> !is_ws(esc[0]) && !is_ws(esc.last())) by {
        if !needs_quoting(value) && value.len() > 0 {
            assert(!forces_quoting(value[0]));
            assert(!forces_quoting(value[value.len() - 1]));
        }
    }
    assert(body.last() != '\r');
    lemma_trim_unchanged(body);
    assert(body.take(11) =~= p);
    let rest = body.skip(11);
    assert(rest =~= name + seq!['='] + esc);
    assert(rest[name.len() as int] == '=');
    assert(rest.take(name.len() as int) =~= name);
    lemma_first_index(rest, '=', name.len() as int);
    assert(rest.skip(name.len() as int + 1) =~= esc);
    lemma_trim_unchanged(name);
    lemma_trim_unchanged(esc);
}

/// Reading back the snapshot file of `vars` gives every variable with its
/// value, in order, wherever each variable's line reads back as written.
#[verifier::rlimit(50)]
pub proof fn lemma_store_load_round_trip(vars: Seq<(Seq<char>, Seq<char>)>)
    requires
        forall|i: int| 0 <= i < vars.len() ==> storable(#[trigger] vars[i].0, vars[i].1),
    ensures
        env_entries(lines(env_file(vars))) == vars,
    decreases vars.len(),
{
    if vars.len() > 0 {
        let (name, value) = vars[0];
        assert(storable(vars[0].0, vars[0].1));
        let rest = vars.drop_first();
        assert forall|i: int| 0 <= i < rest.len() implies storable(#[trigger] rest[i].0, rest[i].1) by {
            assert(storable(vars[i + 1].0, vars[i + 1].1));
        }
        lemma_store_load_round_trip(rest);
        lemma_line_reads_back(name, value);
        let body = declare_prefix() + name + seq!['='] + escape(value);
        assert(env_file(vars) =~= body + seq!['\n'] + env_file(rest));
        lemma_lines_cons(body, env_file(rest));
        let ls = seq![body] + lines(env_file(rest));
        assert(ls.drop_first() =~= lines(env_file(rest)));
        lemma_escape_round_trip(value);
        assert(ls[0] == body);
        assert(env_entries(ls) == seq![(name, unescape(escape(value)))] + env_entries(ls.drop_first()));
        assert(env_entries(ls) =~= seq![(name, value)] + rest);
        assert(vars =~= seq![(name, value)] + rest);
    }
}

} // verus!
