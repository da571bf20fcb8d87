//! Shell-style word helpers: `VAR=VALUE` detection and the double-quote
//! escape codec used for environment snapshots.

use vstd::prelude::*;
use crate::text::{is_ws, has_ws, has_char, to_chars, push_char, contains_whitespace, contains_char};

verus! {

/// A character that may open a shell variable name.
pub open spec fn ident_start(c: char) -> bool {
    c == '_' || ('a' <= c && c <= 'z') || ('A' <= c && c <= 'Z')
}

/// A character that may continue a shell variable name.
pub open spec fn ident_char(c: char) -> bool {
    ident_start(c) || ('0' <= c && c <= '9')
}

/// `[A-Za-z_][A-Za-z0-9_]*`
pub open spec fn is_identifier(n: Seq<char>) -> bool {
    n.len() > 0 && ident_start(n[0]) && forall|i: int| 1 <= i < n.len() ==> ident_char(#[trigger] n[i])
}

/// `s` is `NAME=VALUE` where `NAME`, the text before the first `=`, is an identifier.
/// (An identifier holds no `=`, so any `=` preceded by an identifier is the first.)
pub open spec fn is_assignment(s: Seq<char>) -> bool {
    exists|k: int| 0 <= k < s.len() && s[k] == '=' && #[trigger] is_identifier(s.take(k))
}

/// Characters that make a value need quoting.
pub open spec fn forces_quoting(c: char) -> bool {
    is_ws(c) || c == '\'' || c == '\\' || c == '"' || c == '$'
}

/// Characters that take a backslash inside double quotes.
pub open spec fn is_escapable(c: char) -> bool {
    c == '\\' || c == '"' || c == '$' || c == '`'
}

/// `s` holds a character that forces quoting.
pub open spec fn needs_quoting(s: Seq<char>) -> bool {
    exists|i: int| 0 <= i < s.len() && forces_quoting(#[trigger] s[i])
}

/// The text between the quotes: each escapable character gets a backslash.
pub open spec fn escape_body(s: Seq<char>) -> Seq<char>
    decreases s.len(),
{
    if s.len() == 0 {
        Seq::empty()
    } else if is_escapable(s[0]) {
        seq!['\\', s[0]] + escape_body(s.drop_first())
    } else {
        seq![s[0]] + escape_body(s.drop_first())
    }
}

/// What `shell_escape` returns.
pub open spec fn escape(s: Seq<char>) -> Seq<char> {
    if needs_quoting(s) {
        seq!['"'] + escape_body(s) + seq!['"']
    } else {
        s
    }
}

/// Reads the text between the quotes: a backslash before an escapable character
/// is dropped, any other backslash is kept.
pub open spec fn unescape_body(s: Seq<char>) -> Seq<char>
    decreases s.len(),
{
    if s.len() == 0 {
        Seq::empty()
    } else if s[0] != '\\' {
        seq![s[0]] + unescape_body(s.drop_first())
    } else if s.len() == 1 {
        seq!['\\']
    } else if is_escapable(s[1]) {
        seq![s[1]] + unescape_body(s.subrange(2, s.len() as int))
    } else {
        seq!['\\', s[1]] + unescape_body(s.subrange(2, s.len() as int))
    }
}

/// A pair of double quotes around the whole text.
pub open spec fn is_quoted(s: Seq<char>) -> bool {
    s.len() >= 2 && s[0] == '"' && s[s.len() - 1] == '"'
}

/// What `un_shell_escape` returns.
pub open spec fn unescape(s: Seq<char>) -> Seq<char> {
    if is_quoted(s) {
        unescape_body(s.subrange(1, s.len() - 1))
    } else {
        s
    }
}

/// Whether `s` is a `VAR=VALUE` assignment with a valid variable name.
pub fn is_env_assignment(s: &str) -> (r: bool)
    ensures
        r == is_assignment(s@),
{
    let v = to_chars(s);
    let mut i: usize = 0;
    while i < v.len()
        invariant
            v@ == s@,
            i <= v@.len(),
            forall|j: int| 0 <= j < i ==> v@[j] != '=',
            i > 0 ==> ident_start(v@[0]),
            forall|j: int| 1 <= j < i ==> ident_char(#[trigger] v@[j]),
        decreases v@.len() - i,
    {
        let c = v[i];
        if c == '=' {
            if i == 0 {
                assert forall|k: int| 0 <= k < s@.len() && s@[k] == '=' implies !is_identifier(
                    #[trigger] s@.take(k),
                ) by {
                    if k > 0 {
                        assert(s@.take(k)[0] == '=');
                    }
                }
            } else {
                assert(is_identifier(s@.take(i as int)));
            }
            return i > 0;
        }
        let ok = if i == 0 {
            c == '_' || ('a' <= c && c <= 'z') || ('A' <= c && c <= 'Z')
        } else {
            c == '_' || ('a' <= c && c <= 'z') || ('A' <= c && c <= 'Z') || ('0' <= c && c <= '9')
        };
        if !ok {
            assert forall|k: int| 0 <= k < s@.len() && s@[k] == '=' implies !is_identifier(
                #[trigger] s@.take(k),
            ) by {
                assert(k > i);
                if i > 0 {
                    assert(s@.take(k)[i as int] == c);
                } else {
                    assert(s@.take(k)[0] == c);
                }
            }
            return false;
        }
        i = i + 1;
    }
    false
}

/// Quotes `s` for a shell's double quotes when it holds whitespace, a quote,
/// a backslash or a dollar sign; otherwise returns it unchanged.
pub fn shell_escape(s: &str) -> (r: String)
    ensures
        r@ == escape(s@),
{
    let v = to_chars(s);
    let quote = contains_whitespace(&v) || contains_char(&v, '\'') || contains_char(&v, '\\')
        || contains_char(&v, '"') || contains_char(&v, '$');
    assert(quote == needs_quoting(s@)) by {
        if needs_quoting(s@) {
            let i = choose|i: int| 0 <= i < s@.len() && forces_quoting(#[trigger] s@[i]);
            if is_ws(s@[i]) {
                assert(has_ws(v@));
            } else {
                assert(has_char(v@, s@[i]));
            }
        }
    }
    if !quote {
        return String::from_str(s);
    }
    let mut r = String::new();
    push_char(&mut r, '"');
    let mut i: usize = 0;
    assert(v@.subrange(0, v@.len() as int) =~= v@);
    while i < v.len()
        invariant
            v@ == s@,
            i <= v@.len(),
            r@ + escape_body(v@.subrange(i as int, v@.len() as int)) == seq!['"'] + escape_body(v@),
        decreases v@.len() - i,
    {
        let c = v[i];
        let ghost rest = v@.subrange(i as int, v@.len() as int);
        assert(rest.drop_first() =~= v@.subrange(i + 1, v@.len() as int));
        if c == '\\' || c == '"' || c == '$' || c == '`' {
            push_char(&mut r, '\\');
        }
        push_char(&mut r, c);
        i = i + 1;
        assert(r@ + escape_body(v@.subrange(i as int, v@.len() as int)) =~= seq!['"'] + escape_body(v@));
    }
    assert(v@.subrange(v@.len() as int, v@.len() as int) =~= Seq::<char>::empty());
    assert(r@ =~= seq!['"'] + escape_body(v@));
    push_char(&mut r, '"');
    r
}

/// Undoes `shell_escape`: a text in double quotes loses them and its
/// backslash escapes; any other text is returned unchanged.
pub fn un_shell_escape(s: &str) -> (r: String)
    ensures
        r@ == unescape(s@),
{
    let v = to_chars(s);
    let n = v.len();
    if !(n >= 2 && v[0] == '"' && v[n - 1] == '"') {
        return String::from_str(s);
    }
    let ghost body = v@.subrange(1, n - 1);
    let mut r = String::new();
    let mut i: usize = 1;
    while i < n - 1
        invariant
            v@ == s@,
            n == v@.len(),
            n >= 2,
            body == v@.subrange(1, n - 1),
            1 <= i <= n - 1,
            r@ + unescape_body(v@.subrange(i as int, n - 1)) == unescape_body(body),
        decreases n - i,
    {
        let ghost rest = v@.subrange(i as int, n - 1);
        let c = v[i];
        if c != '\\' {
            push_char(&mut r, c);
            i = i + 1;
            assert(rest.drop_first() =~= v@.subrange(i as int, n - 1));
        } else if i + 1 == n - 1 {
            push_char(&mut r, '\\');
            i = i + 1;
        } else {
            let d = v[i + 1];
            if !(d == '\\' || d == '"' || d == '$' || d == '`') {
                push_char(&mut r, '\\');
            }
            push_char(&mut r, d);
            i = i + 2;
            assert(rest.subrange(2, rest.len() as int) =~= v@.subrange(i as int, n - 1));
        }
        assert(r@ + unescape_body(v@.subrange(i as int, n - 1)) =~= unescape_body(body));
    }
    assert(v@.subrange(i as int, n - 1) =~= Seq::<char>::empty());
    assert(r@ =~= unescape_body(body));
    r
}

/// Reading back the body of an escaped text gives the text.
pub proof fn lemma_unescape_escape_body(s: Seq<char>)
    ensures
        unescape_body(escape_body(s)) == s,
    decreases s.len(),
{
    if s.len() > 0 {
        let rest = s.drop_first();
        lemma_unescape_escape_body(rest);
        let e = escape_body(s);
        if is_escapable(s[0]) {
            assert(e.subrange(2, e.len() as int) =~= escape_body(rest));
        } else {
            assert(e.drop_first() =~= escape_body(rest));
        }
        assert(unescape_body(e) =~= s);
    }
}

/// Unescaping an escaped text gives back the original text, whatever it holds.
pub proof fn lemma_escape_round_trip(v: Seq<char>)
    ensures
        unescape(escape(v)) == v,
{
    if needs_quoting(v) {
        let e = escape(v);
        lemma_unescape_escape_body(v);
        assert(e.subrange(1, e.len() - 1) =~= escape_body(v));
    } else {
        if is_quoted(v) {
            assert(forces_quoting(v[0]));
        }
    }
}

} // verus!
