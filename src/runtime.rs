//! The runtime root, start times and how long ago a context started.

use vstd::prelude::*;
use crate::text::{texts, push_char, to_chars, trim, trim_bounds, is_ws, is_whitespace, trim_start, string_of_range};
use crate::env_store::{lines, split_lines};
use crate::path::{path_join, join_path};

verus! {

/// The character of the decimal digit `d`.
pub open spec fn digit_char(d: nat) -> char {
    if d == 0 { '0' } else if d == 1 { '1' } else if d == 2 { '2' } else if d == 3 { '3' }
    else if d == 4 { '4' } else if d == 5 { '5' } else if d == 6 { '6' } else if d == 7 { '7' }
    else if d == 8 { '8' } else { '9' }
}

/// `n` written in decimal, without leading zeros.
pub open spec fn decimal(n: nat) -> Seq<char>
    decreases n,
{
    if n < 10 {
        seq![digit_char(n)]
    } else {
        decimal(n / 10).push(digit_char(n % 10))
    }
}

fn digit(d: u64) -> (r: char)
    requires
        d < 10,
    ensures
        r == digit_char(d as nat),
{
    if d == 0 { '0' } else if d == 1 { '1' } else if d == 2 { '2' } else if d == 3 { '3' }
    else if d == 4 { '4' } else if d == 5 { '5' } else if d == 6 { '6' } else if d == 7 { '7' }
    else if d == 8 { '8' } else { '9' }
}

/// Appends `n` in decimal.
pub fn push_decimal(s: &mut String, n: u64)
    ensures
        final(s)@ == old(s)@ + decimal(n as nat),
    decreases n,
{
    if n < 10 {
        push_char(s, digit(n));
    } else {
        push_decimal(s, n / 10);
        push_char(s, digit(n % 10));
    }
}

/// What `format_duration_ago` writes for a context that started `secs`
/// seconds ago: the two largest units of days, hours, minutes and seconds,
/// the second left out when it is zero (seconds alone below a minute).
pub open spec fn duration_text(secs: nat) -> Seq<char> {
    let days = secs / 86400;
    let hours = (secs % 86400) / 3600;
    let mins = (secs % 3600) / 60;
    let s = secs % 60;
    let ago = seq![' ', 'a', 'g', 'o'];
    if days > 0 {
        if hours > 0 {
            decimal(days) + seq!['d', ' '] + decimal(hours) + seq!['h'] + ago
        } else {
            decimal(days) + seq!['d'] + ago
        }
    } else if hours > 0 {
        if mins > 0 {
            decimal(hours) + seq!['h', ' '] + decimal(mins) + seq!['m'] + ago
        } else {
            decimal(hours) + seq!['h'] + ago
        }
    } else if mins > 0 {
        if s > 0 {
            decimal(mins) + seq!['m', ' '] + decimal(s) + seq!['s'] + ago
        } else {
            decimal(mins) + seq!['m'] + ago
        }
    } else {
        decimal(s) + seq!['s'] + ago
    }
}

/// The text for a context that started `secs` seconds ago, such as `1d 2h ago`.
pub fn format_elapsed(secs: u64) -> (r: String)
    ensures
        r@ == duration_text(secs as nat),
{
    let days = secs / 86400;
    let hours = (secs % 86400) / 3600;
    let mins = (secs % 3600) / 60;
    let s = secs % 60;
    assert((secs % 86400) % 3600 == secs % 3600) by (nonlinear_arith);
    let mut r = String::new();
    if days > 0 {
        push_decimal(&mut r, days);
        push_char(&mut r, 'd');
        if hours > 0 {
            push_char(&mut r, ' ');
            push_decimal(&mut r, hours);
            push_char(&mut r, 'h');
        }
    } else if hours > 0 {
        push_decimal(&mut r, hours);
        push_char(&mut r, 'h');
        if mins > 0 {
            push_char(&mut r, ' ');
            push_decimal(&mut r, mins);
            push_char(&mut r, 'm');
        }
    } else if mins > 0 {
        push_decimal(&mut r, mins);
        push_char(&mut r, 'm');
        if s > 0 {
            push_char(&mut r, ' ');
            push_decimal(&mut r, s);
            push_char(&mut r, 's');
        }
    } else {
        push_decimal(&mut r, s);
        push_char(&mut r, 's');
    }
    push_char(&mut r, ' ');
    push_char(&mut r, 'a');
    push_char(&mut r, 'g');
    push_char(&mut r, 'o');
    assert(r@ =~= duration_text(secs as nat));
    r
}

/// Relies on `std::time::SystemTime::now`: the current Unix time in seconds
/// (zero for a clock set before 1970).
#[verifier::external_body]
pub fn unix_now_secs() -> u64 {
    match std::time::SystemTime::now().duration_since(std::time::UNIX_EPOCH) {
        Ok(d) => d.as_secs(),
        Err(_) => 0,
    }
}

/// `a - b`, or zero where `b` is larger.
pub open spec fn saturating_sub(a: u64, b: u64) -> nat {
    if a >= b { (a - b) as nat } else { 0 }
}

/// How long ago, by the clock now, a context started at `start_unix_secs`.
pub fn format_duration_ago(start_unix_secs: u64) -> (r: String)
    ensures
        exists|now: u64| r@ == duration_text(saturating_sub(now, start_unix_secs)),
{
    let now = unix_now_secs();
    let r = format_elapsed(now.saturating_sub(start_unix_secs));
    assert(r@ == duration_text(saturating_sub(now, start_unix_secs)));
    r
}

pub open spec fn is_digit(c: char) -> bool {
    '0' <= c && c <= '9'
}

pub open spec fn all_digits(s: Seq<char>) -> bool {
    forall|i: int| 0 <= i < s.len() ==> is_digit(#[trigger] s[i])
}

/// The number that the decimal digits `s` write.
pub open spec fn digits_value(s: Seq<char>) -> nat
    decreases s.len(),
{
    if s.len() == 0 {
        0
    } else {
        digits_value(s.drop_last()) * 10 + ((s.last() as u32) - ('0' as u32)) as nat
    }
}

/// The number that `s` writes, as `u64::from_str` reads it: an optional `+`,
/// then one or more decimal digits, with a value that fits in 64 bits.
pub open spec fn u64_text(s: Seq<char>) -> Option<u64> {
    let d = if s.len() > 0 && s[0] == '+' { s.drop_first() } else { s };
    if d.len() > 0 && all_digits(d) && digits_value(d) <= u64::MAX {
        Some(digits_value(d) as u64)
    } else {
        None
    }
}

proof fn lemma_digits_value_grows(s: Seq<char>, i: int)
    requires
        0 <= i <= s.len(),
    ensures
        digits_value(s.take(i)) <= digits_value(s),
    decreases s.len() - i,
{
    if i < s.len() {
        lemma_digits_value_grows(s, i + 1);
        assert(s.take(i + 1).drop_last() =~= s.take(i));
    } else {
        assert(s.take(i) =~= s);
    }
}

/// The start time recorded in a context's `started_at` file: a decimal
/// number of Unix seconds, surrounding whitespace aside.
pub fn parse_started_at(content: &str) -> (r: Option<u64>)
    ensures
        r == u64_text(trim(content@)),
{
    let v = to_chars(content);
    let n = v.len();
    let (a, b) = trim_bounds(&v, 0, n);
    assert(v@.subrange(0, n as int) =~= content@);
    let ghost t = v@.subrange(a as int, b as int);
    let start = if a < b && v[a] == '+' { a + 1 } else { a };
    let ghost d = v@.subrange(start as int, b as int);
    assert(d =~= (if t.len() > 0 && t[0] == '+' { t.drop_first() } else { t }));
    if start == b {
        return None;
    }
    let mut acc: u64 = 0;
    let mut i = start;
    assert(d.take(0) =~= Seq::<char>::empty());
    while i < b
        invariant
            a <= start <= i <= b <= n,
            n == v@.len(),
            d == v@.subrange(start as int, b as int),
            t == trim(content@),
            d == (if t.len() > 0 && t[0] == '+' { t.drop_first() } else { t }),
            forall|j: int| start <= j < i ==> is_digit(#[trigger] v@[j]),
            acc as nat == digits_value(d.take(i - start)),
        decreases b - i,
    {
        let c = v[i];
        if !('0' <= c && c <= '9') {
            assert(!is_digit(d[i - start]));
            return None;
        }
        let dv = (c as u32 - '0' as u32) as u64;
        if acc > (u64::MAX - dv) / 10 {
            assert(acc * 10 + dv > u64::MAX) by (nonlinear_arith)
                requires acc > (u64::MAX - dv) / 10, dv <= 9;
            proof {
                assert(d.take(i - start + 1).drop_last() =~= d.take(i - start));
                assert(d.take(i - start + 1).last() == c);
                lemma_digits_value_grows(d, i - start + 1);
                assert(digits_value(d.take(i - start + 1)) == acc * 10 + dv);
            }
            return None;
        }
        assert(acc * 10 + dv <= u64::MAX) by (nonlinear_arith)
            requires acc <= (u64::MAX - dv) / 10, dv <= 9;
        acc = acc * 10 + dv;
        i = i + 1;
        assert(d.take(i - start).drop_last() =~= d.take(i - start - 1));
    }
    assert(d.take(b - start) =~= d);
    assert(all_digits(d)) by {
        assert forall|j: int| 0 <= j < d.len() implies is_digit(#[trigger] d[j]) by {
            assert(d[j] == v@[start + j]);
        }
    }
    Some(acc)
}

/// Whether every character of `s` is an ASCII digit (true of the empty text).
pub fn is_ascii_digits(s: &str) -> (r: bool)
    ensures
        r == all_digits(s@),
{
    let v = to_chars(s);
    let mut i: usize = 0;
    while i < v.len()
        invariant
            v@ == s@,
            i <= v@.len(),
            forall|j: int| 0 <= j < i ==> is_digit(#[trigger] v@[j]),
        decreases v@.len() - i,
    {
        if !('0' <= v[i] && v[i] <= '9') {
            return false;
        }
        i = i + 1;
    }
    true
}

/// `/run/user/`
pub open spec fn run_user_prefix() -> Seq<char> {
    seq!['/', 'r', 'u', 'n', '/', 'u', 's', 'e', 'r', '/']
}

/// The per-user runtime directory: the one the environment names, or
/// `/run/user/<uid>`.
pub fn runtime_dir(xdg_runtime_dir: Option<String>, uid: &str) -> (r: String)
    ensures
        xdg_runtime_dir matches Some(d) ==> r@ == d@,
        xdg_runtime_dir is None ==> r@ == run_user_prefix() + uid@,
{
    match xdg_runtime_dir {
        Some(d) => d,
        None => {
            proof { reveal_strlit("/run/user/"); }
            assert("/run/user/"@ =~= run_user_prefix());
            let mut r = String::from_str("/run/user/");
            r.append(uid);
            r
        },
    }
}

pub open spec fn root_dir_name() -> Seq<char> {
    seq!['p', 'r', 'o', 't', 'o', 'n', 'h', 'a', 'x']
}

/// The directory that holds one subdirectory per running context.
pub fn runtime_root(runtime_dir: &str) -> (r: String)
    ensures
        r@ == path_join(runtime_dir@, root_dir_name()),
{
    proof { reveal_strlit("protonhax"); }
    assert("protonhax"@ =~= root_dir_name());
    join_path(runtime_dir, "protonhax")
}

/// The length of the run of non-whitespace characters that starts `s`.
pub open spec fn word_len(s: Seq<char>) -> nat
    decreases s.len(),
{
    if s.len() == 0 || is_ws(s[0]) {
        0
    } else {
        1 + word_len(s.drop_first())
    }
}

/// The second whitespace-separated word of `s`, as
/// `split_whitespace().nth(1)` gives it.
pub open spec fn second_word(s: Seq<char>) -> Option<Seq<char>> {
    let t = trim_start(s);
    let rest = trim_start(t.skip(word_len(t) as int));
    if t.len() == 0 || rest.len() == 0 {
        None
    } else {
        Some(rest.take(word_len(rest) as int))
    }
}

/// `Uid:`
pub open spec fn uid_tag() -> Seq<char> {
    seq!['U', 'i', 'd', ':']
}

/// The first of `ls` that starts with `p`.
pub open spec fn first_starting_with(ls: Seq<Seq<char>>, p: Seq<char>) -> Option<Seq<char>>
    decreases ls.len(),
{
    if ls.len() == 0 {
        None
    } else if ls[0].len() >= p.len() && ls[0].take(p.len() as int) == p {
        Some(ls[0])
    } else {
        first_starting_with(ls.drop_first(), p)
    }
}

/// The real user id that a `/proc/self/status` text records: the first
/// number of its first `Uid:` line, where that is all digits.
pub open spec fn status_uid(content: Seq<char>) -> Option<Seq<char>> {
    match first_starting_with(lines(content), uid_tag()) {
        Some(l) => match second_word(l) {
            Some(w) => if all_digits(w) { Some(w) } else { None },
            None => None,
        },
        None => None,
    }
}

/// The position in `v[i..]` where the whitespace run that starts there ends.
fn skip_ws(v: &Vec<char>, i: usize) -> (r: usize)
    requires
        i <= v@.len(),
    ensures
        i <= r <= v@.len(),
        trim_start(v@.skip(i as int)) == v@.skip(r as int),
{
    let mut j = i;
    while j < v.len() && is_whitespace(v[j])
        invariant
            i <= j <= v@.len(),
            trim_start(v@.skip(i as int)) == trim_start(v@.skip(j as int)),
        decreases v@.len() - j,
    {
        assert(v@.skip(j as int).drop_first() =~= v@.skip(j + 1));
        j = j + 1;
    }
    j
}

/// The position in `v[i..]` where the word that starts there ends.
fn skip_word(v: &Vec<char>, i: usize) -> (r: usize)
    requires
        i <= v@.len(),
    ensures
        i <= r <= v@.len(),
        word_len(v@.skip(i as int)) == r - i,
{
    let mut j = i;
    while j < v.len() && !is_whitespace(v[j])
        invariant
            i <= j <= v@.len(),
            word_len(v@.skip(i as int)) == (j - i) + word_len(v@.skip(j as int)),
        decreases v@.len() - j,
    {
        assert(v@.skip(j as int).drop_first() =~= v@.skip(j + 1));
        j = j + 1;
    }
    j
}

/// The second whitespace-separated word of `s`.
pub fn second_field(s: &str) -> (r: Option<String>)
    ensures
        r is None <==> second_word(s@) is None,
        r matches Some(w) ==> second_word(s@) == Some(w@),
{
    let v = to_chars(s);
    assert(v@.skip(0) =~= v@);
    let a = skip_ws(&v, 0);
    let b = skip_word(&v, a);
    let c = skip_ws(&v, b);
    let ghost t = v@.skip(a as int);
    assert(t.skip(b - a) =~= v@.skip(b as int));
    if a == v.len() || c == v.len() {
        return None;
    }
    let d = skip_word(&v, c);
    let ghost rest = v@.skip(c as int);
    assert(rest.take(d - c) =~= v@.subrange(c as int, d as int));
    Some(string_of_range(&v, c, d))
}

/// The user id recorded in a `/proc/self/status` text.
pub fn uid_from_proc_status(content: &str) -> (r: Option<String>)
    ensures
        r is None <==> status_uid(content@) is None,
        r matches Some(u) ==> status_uid(content@) == Some(u@),
{
    let ls = split_lines(content);
    let ghost lv = texts(ls@);
    let tag = to_chars("Uid:");
    proof {
        reveal_strlit("Uid:");
        assert(tag@ =~= uid_tag());
    }
    let mut i: usize = 0;
    assert(lv.skip(0) =~= lv);
    while i < ls.len()
        invariant
            lv == texts(ls@),
            lv == lines(content@),
            tag@ == uid_tag(),
            i <= ls@.len(),
            first_starting_with(lv.skip(i as int), uid_tag()) == first_starting_with(lv, uid_tag()),
        decreases ls@.len() - i,
    {
        let ghost tail = lv.skip(i as int);
        assert(tail.drop_first() =~= lv.skip(i + 1));
        assert(tail[0] == ls@[i as int]@);
        let line = to_chars(ls[i].as_str());
        if line.len() >= tag.len() && crate::text::matches_at(&line, &tag, 0) {
            assert(line@.subrange(0, 4) =~= line@.take(4));
            return match second_field(ls[i].as_str()) {
                Some(w) => if is_ascii_digits(w.as_str()) { Some(w) } else { None },
                None => None,
            };
        }
        proof {
            if line@.len() >= 4 {
                assert(line@.subrange(0, 4) =~= line@.take(4));
            }
        }
        i = i + 1;
    }
    assert(lv.skip(i as int) =~= Seq::<Seq<char>>::empty());
    None
}

} // verus!
