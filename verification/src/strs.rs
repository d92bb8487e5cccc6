//! Verified string algorithms over character sequences: whitespace, splitting,
//! prefixes, replacing, integer parsing and formatting.

use crate::chars::{char_string, push_char, push_str, string_from_chars, string_from_range, to_chars};
use vstd::prelude::*;

verus! {

// ───────────────────────── whitespace and trimming ─────────────────────────

/// The Unicode `White_Space` property, which `char::is_whitespace` tests.
pub open spec fn is_ws(c: char) -> bool {
    let u = c as u32;
    (0x09 <= u && u <= 0x0D) || u == 0x20 || u == 0x85 || u == 0xA0 || u == 0x1680 || (0x2000 <= u
        && u <= 0x200A) || u == 0x2028 || u == 0x2029 || u == 0x202F || u == 0x205F || u == 0x3000
}

/// Whether a character has the Unicode `White_Space` property.
pub fn is_whitespace(c: char) -> (r: bool)
    ensures
        r == is_ws(c),
{
    let u = c as u32;
    (0x09 <= u && u <= 0x0D) || u == 0x20 || u == 0x85 || u == 0xA0 || u == 0x1680 || (0x2000 <= u
        && u <= 0x200A) || u == 0x2028 || u == 0x2029 || u == 0x202F || u == 0x205F || u == 0x3000
}

/// The first position at or after `i` that is not whitespace.
pub open spec fn skip_ws(s: Seq<char>, i: int) -> int
    decreases s.len() - i,
{
    if 0 <= i < s.len() && is_ws(s[i]) {
        skip_ws(s, i + 1)
    } else {
        i
    }
}

/// The end of `s[lo..j]` once trailing whitespace is dropped.
pub open spec fn back_ws(s: Seq<char>, j: int, lo: int) -> int
    decreases j - lo,
{
    if lo < j && j <= s.len() && is_ws(s[j - 1]) {
        back_ws(s, j - 1, lo)
    } else {
        j
    }
}

/// `s` without leading and trailing whitespace (`str::trim`).
pub open spec fn trim_spec(s: Seq<char>) -> Seq<char> {
    let a = skip_ws(s, 0);
    s.subrange(a, back_ws(s, s.len() as int, a))
}

proof fn lemma_skip_ws_bounds(s: Seq<char>, i: int)
    requires
        0 <= i <= s.len(),
    ensures
        i <= skip_ws(s, i) <= s.len(),
    decreases s.len() - i,
{
    if i < s.len() && is_ws(s[i]) {
        lemma_skip_ws_bounds(s, i + 1);
    }
}

proof fn lemma_back_ws_bounds(s: Seq<char>, j: int, lo: int)
    requires
        0 <= lo <= j <= s.len(),
    ensures
        lo <= back_ws(s, j, lo) <= j,
    decreases j - lo,
{
    if lo < j && is_ws(s[j - 1]) {
        lemma_back_ws_bounds(s, j - 1, lo);
    }
}

/// `s` without leading and trailing whitespace.
pub fn trim(s: &str) -> (r: String)
    ensures
        r@ == trim_spec(s@),
{
    let v = to_chars(s);
    let mut a: usize = 0;
    while a < v.len() && is_whitespace(v[a])
        invariant
            v@ == s@,
            a <= v@.len(),
            skip_ws(s@, a as int) == skip_ws(s@, 0),
        decreases v.len() - a,
    {
        a = a + 1;
    }
    let mut b: usize = v.len();
    proof {
        lemma_skip_ws_bounds(s@, 0);
    }
    while b > a && is_whitespace(v[b - 1])
        invariant
            v@ == s@,
            a <= b <= v@.len(),
            a == skip_ws(s@, 0),
            back_ws(s@, b as int, a as int) == back_ws(s@, s@.len() as int, a as int),
        decreases b - a,
    {
        b = b - 1;
    }
    string_from_range(&v, a, b)
}

/// The words of `s`: its maximal runs of non-whitespace characters.
pub open spec fn words_run(s: Seq<char>, i: int, done: Seq<Seq<char>>, cur: Seq<char>) -> Seq<Seq<char>>
    decreases s.len() - i,
{
    if i < 0 || i >= s.len() {
        if cur.len() > 0 {
            done.push(cur)
        } else {
            done
        }
    } else if is_ws(s[i]) {
        words_run(s, i + 1, if cur.len() > 0 { done.push(cur) } else { done }, Seq::empty())
    } else {
        words_run(s, i + 1, done, cur.push(s[i]))
    }
}

/// The words of `s` (`str::split_whitespace`).
pub open spec fn words(s: Seq<char>) -> Seq<Seq<char>> {
    words_run(s, 0, Seq::empty(), Seq::empty())
}

/// The abstract values of a list of strings.
pub open spec fn strings_view(v: Seq<String>) -> Seq<Seq<char>> {
    Seq::new(v.len(), |i: int| v[i]@)
}

/// Pushing a string onto a list pushes its characters onto the list's view.
pub proof fn lemma_strings_view_push(v: Seq<String>, s: String)
    ensures
        strings_view(v.push(s)) == strings_view(v).push(s@),
{
    assert(strings_view(v.push(s)) =~= strings_view(v).push(s@));
}

/// The words of `s`.
pub fn split_whitespace(s: &str) -> (r: Vec<String>)
    ensures
        strings_view(r@) == words(s@),
{
    let v = to_chars(s);
    let mut done: Vec<String> = Vec::new();
    let mut cur = String::new();
    let mut i: usize = 0;
    assert(strings_view(done@) =~= Seq::<Seq<char>>::empty());
    while i < v.len()
        invariant
            v@ == s@,
            i <= v@.len(),
            words_run(s@, i as int, strings_view(done@), cur@) == words(s@),
        decreases v.len() - i,
    {
        if is_whitespace(v[i]) {
            if cur.as_str().unicode_len() > 0 {
                let ghost before = done@;
                let mut taken = String::new();
                std::mem::swap(&mut taken, &mut cur);
                done.push(taken);
                proof {
                    lemma_strings_view_push(before, taken);
                }
            }
            assert(cur@ =~= Seq::<char>::empty());
        } else {
            push_char(&mut cur, v[i]);
        }
        i = i + 1;
    }
    if cur.as_str().unicode_len() > 0 {
        let ghost before = done@;
        done.push(cur);
        proof {
            lemma_strings_view_push(before, cur);
        }
    }
    done
}

// ───────────────────────── splitting on a character ─────────────────────────

/// Splitting from position `i` on at every `c`, with finished pieces `done`
/// and the current piece `cur`.
pub open spec fn split_char_run(s: Seq<char>, i: int, c: char, done: Seq<Seq<char>>, cur: Seq<char>) -> Seq<
    Seq<char>,
>
    decreases s.len() - i,
{
    if i < 0 || i >= s.len() {
        done.push(cur)
    } else if s[i] == c {
        split_char_run(s, i + 1, c, done.push(cur), Seq::empty())
    } else {
        split_char_run(s, i + 1, c, done, cur.push(s[i]))
    }
}

/// The pieces of `s` between the occurrences of `c` (`str::split` with a
/// character), empty pieces included.
pub open spec fn split_char_spec(s: Seq<char>, c: char) -> Seq<Seq<char>> {
    split_char_run(s, 0, c, Seq::empty(), Seq::empty())
}

/// The pieces of `s` between the occurrences of `c`.
pub fn split_char(s: &str, c: char) -> (r: Vec<String>)
    ensures
        strings_view(r@) == split_char_spec(s@, c),
{
    let v = to_chars(s);
    let mut done: Vec<String> = Vec::new();
    let mut cur = String::new();
    let mut i: usize = 0;
    assert(strings_view(done@) =~= Seq::<Seq<char>>::empty());
    while i < v.len()
        invariant
            v@ == s@,
            i <= v@.len(),
            split_char_run(s@, i as int, c, strings_view(done@), cur@) == split_char_spec(s@, c),
        decreases v.len() - i,
    {
        if v[i] == c {
            let ghost before = done@;
            let mut taken = String::new();
            std::mem::swap(&mut taken, &mut cur);
            done.push(taken);
            proof {
                lemma_strings_view_push(before, taken);
            }
            assert(cur@ =~= Seq::<char>::empty());
        } else {
            push_char(&mut cur, v[i]);
        }
        i = i + 1;
    }
    let ghost before = done@;
    done.push(cur);
    proof {
        lemma_strings_view_push(before, cur);
    }
    done
}

/// The first position at or after `i` holding `c`.
pub open spec fn find_char(s: Seq<char>, c: char, i: int) -> Option<int>
    decreases s.len() - i,
{
    if i < 0 || i >= s.len() {
        None
    } else if s[i] == c {
        Some(i)
    } else {
        find_char(s, c, i + 1)
    }
}

proof fn lemma_find_char(s: Seq<char>, c: char, i: int)
    requires
        0 <= i,
    ensures
        find_char(s, c, i) matches Some(j) ==> i <= j < s.len() && s[j] == c,
    decreases s.len() - i,
{
    if i < s.len() && s[i] != c {
        lemma_find_char(s, c, i + 1);
    }
}

/// `s` cut at its first `c` (`str::split_once` with a character).
pub open spec fn split_once_spec(s: Seq<char>, c: char) -> Option<(Seq<char>, Seq<char>)> {
    match find_char(s, c, 0) {
        Some(j) => Some((s.take(j), s.skip(j + 1))),
        None => None,
    }
}

/// `s` cut at its first `c`.
pub fn split_once(s: &str, c: char) -> (r: Option<(String, String)>)
    ensures
        match r {
            Some((a, b)) => split_once_spec(s@, c) == Some((a@, b@)),
            None => split_once_spec(s@, c) is None,
        },
{
    let v = to_chars(s);
    let mut i: usize = 0;
    while i < v.len()
        invariant
            v@ == s@,
            i <= v@.len(),
            find_char(s@, c, i as int) == find_char(s@, c, 0),
        decreases v.len() - i,
    {
        if v[i] == c {
            let a = string_from_range(&v, 0, i);
            let b = string_from_range(&v, i + 1, v.len());
            assert(a@ =~= s@.take(i as int));
            assert(b@ =~= s@.skip(i + 1));
            return Some((a, b));
        }
        i = i + 1;
    }
    None
}

// ───────────────────────── prefixes and search ─────────────────────────

/// Whether `s` begins with `p`.
pub open spec fn starts_with_spec(s: Seq<char>, p: Seq<char>) -> bool {
    p.len() <= s.len() && s.take(p.len() as int) == p
}

/// Whether `s` ends with `p`.
pub open spec fn ends_with_spec(s: Seq<char>, p: Seq<char>) -> bool {
    p.len() <= s.len() && s.skip(s.len() - p.len()) == p
}

/// Whether `s` begins with `p`.
pub fn starts_with(s: &str, p: &str) -> (r: bool)
    ensures
        r == starts_with_spec(s@, p@),
{
    let vs = to_chars(s);
    let vp = to_chars(p);
    if vp.len() > vs.len() {
        return false;
    }
    let mut i: usize = 0;
    while i < vp.len()
        invariant
            vs@ == s@,
            vp@ == p@,
            vp@.len() <= vs@.len(),
            i <= vp@.len(),
            forall|q: int| 0 <= q < i ==> vs@[q] == vp@[q],
        decreases vp.len() - i,
    {
        if vs[i] != vp[i] {
            assert(s@.take(p@.len() as int)[i as int] == s@[i as int]);
            return false;
        }
        i = i + 1;
    }
    assert(s@.take(p@.len() as int) =~= p@);
    true
}

/// Whether `s` ends with `p`.
pub fn ends_with(s: &str, p: &str) -> (r: bool)
    ensures
        r == ends_with_spec(s@, p@),
{
    let vs = to_chars(s);
    let vp = to_chars(p);
    if vp.len() > vs.len() {
        return false;
    }
    let off = vs.len() - vp.len();
    let slen = vs.len();
    let mut i: usize = 0;
    while i < vp.len()
        invariant
            slen == vs@.len(),
            vs@ == s@,
            vp@ == p@,
            off == vs@.len() - vp@.len(),
            i <= vp@.len(),
            forall|q: int| 0 <= q < i ==> vs@[off + q] == vp@[q],
        decreases vp.len() - i,
    {
        assert(off + i < slen);
        if vs[off + i] != vp[i] {
            assert(s@.skip(off as int)[i as int] == s@[off + i]);
            return false;
        }
        i = i + 1;
    }
    assert(s@.skip(off as int) =~= p@);
    true
}

/// Whether `s` begins with the character `c`.
pub fn starts_with_char(s: &str, c: char) -> (r: bool)
    ensures
        r == (s@.len() > 0 && s@[0] == c),
{
    if s.is_empty() {
        false
    } else {
        s.get_char(0) == c
    }
}

/// Whether `p` occurs in `s` at position `k`.
pub open spec fn occurs_at(s: Seq<char>, k: int, p: Seq<char>) -> bool {
    0 <= k && k + p.len() <= s.len() && s.subrange(k, k + p.len()) == p
}

/// Whether `p` occurs anywhere in `s` (`str::contains`).
pub open spec fn contains_spec(s: Seq<char>, p: Seq<char>) -> bool {
    exists|k: int| occurs_at(s, k, p)
}

/// Whether `p` occurs in the character vector `s` at position `k`.
pub fn occurs_at_exec(s: &Vec<char>, k: usize, p: &Vec<char>) -> (r: bool)
    ensures
        r == occurs_at(s@, k as int, p@),
{
    let slen = s.len();
    if k > slen || p.len() > slen - k {
        return false;
    }
    let mut j: usize = 0;
    while j < p.len()
        invariant
            slen == s@.len(),
            k + p@.len() <= s@.len(),
            j <= p@.len(),
            forall|q: int| 0 <= q < j ==> s@[k + q] == p@[q],
        decreases p.len() - j,
    {
        assert(k + j < s@.len());
        if s[k + j] != p[j] {
            assert(s@.subrange(k as int, k + p@.len())[j as int] == s@[k + j]);
            return false;
        }
        j = j + 1;
    }
    assert(s@.subrange(k as int, k + p@.len()) =~= p@);
    true
}

/// Whether `p` occurs anywhere in `s`.
pub fn contains_str(s: &str, p: &str) -> (r: bool)
    ensures
        r == contains_spec(s@, p@),
{
    let vs = to_chars(s);
    let vp = to_chars(p);
    let mut k: usize = 0;
    while k < vs.len()
        invariant
            vs@ == s@,
            vp@ == p@,
            k <= vs@.len(),
            forall|q: int| 0 <= q < k ==> !occurs_at(s@, q, p@),
        decreases vs.len() - k,
    {
        if occurs_at_exec(&vs, k, &vp) {
            return true;
        }
        k = k + 1;
    }
    if occurs_at_exec(&vs, k, &vp) {
        return true;
    }
    assert forall|q: int| !occurs_at(s@, q, p@) by {
        if q > k {
            if occurs_at(s@, q, p@) {
                assert(false);
            }
        }
    }
    false
}

// ───────────────────────── replacing ─────────────────────────

/// Replacing, from position `i` on, every occurrence of `pat` (left to right,
/// without overlap) by `rep`, after `acc` was produced.
pub open spec fn replace_all_run(s: Seq<char>, i: int, pat: Seq<char>, rep: Seq<char>, acc: Seq<char>) -> Seq<
    char,
>
    decreases s.len() - i,
{
    if i < 0 || i >= s.len() || pat.len() == 0 {
        acc + if 0 <= i < s.len() { s.skip(i) } else { Seq::empty() }
    } else if occurs_at(s, i, pat) {
        replace_all_run(s, i + pat.len(), pat, rep, acc + rep)
    } else {
        replace_all_run(s, i + 1, pat, rep, acc.push(s[i]))
    }
}

/// `s` with every occurrence of a non-empty `pat` replaced by `rep`
/// (`str::replace`).
pub open spec fn replace_all_spec(s: Seq<char>, pat: Seq<char>, rep: Seq<char>) -> Seq<char> {
    replace_all_run(s, 0, pat, rep, Seq::empty())
}

/// `s` with every occurrence of the non-empty `pat` replaced by `rep`.
pub fn replace_all(s: &str, pat: &str, rep: &str) -> (r: String)
    requires
        pat@.len() > 0,
    ensures
        r@ == replace_all_spec(s@, pat@, rep@),
{
    let vs = to_chars(s);
    let vp = to_chars(pat);
    let n = vp.len();
    let mut out = String::new();
    let mut i: usize = 0;
    while i < vs.len()
        invariant
            vs@ == s@,
            vp@ == pat@,
            n == pat@.len(),
            n > 0,
            i <= vs@.len(),
            replace_all_run(s@, i as int, pat@, rep@, out@) == replace_all_spec(s@, pat@, rep@),
        decreases vs.len() - i,
    {
        if occurs_at_exec(&vs, i, &vp) {
            push_str(&mut out, rep);
            i = i + n;
        } else {
            push_char(&mut out, vs[i]);
            i = i + 1;
        }
    }
    assert(out@ + Seq::<char>::empty() =~= out@);
    out
}

// ───────────────────────── joining ─────────────────────────

/// Pieces joined with `sep` between each two.
pub open spec fn join_spec(parts: Seq<Seq<char>>, sep: Seq<char>) -> Seq<char>
    decreases parts.len(),
{
    if parts.len() == 0 {
        Seq::empty()
    } else if parts.len() == 1 {
        parts[0]
    } else {
        join_spec(parts.drop_last(), sep) + sep + parts.last()
    }
}

/// Pieces joined with `sep` between each two (`[String]::join`).
pub fn join(parts: &Vec<String>, sep: &str) -> (r: String)
    ensures
        r@ == join_spec(strings_view(parts@), sep@),
{
    let ghost pv = strings_view(parts@);
    let mut out = String::new();
    let mut i: usize = 0;
    assert(pv.take(0) =~= Seq::<Seq<char>>::empty());
    while i < parts.len()
        invariant
            pv == strings_view(parts@),
            i <= pv.len(),
            out@ == join_spec(pv.take(i as int), sep@),
        decreases parts.len() - i,
    {
        assert(pv.take(i + 1).drop_last() =~= pv.take(i as int));
        assert(pv.take(i + 1).last() == parts@[i as int]@);
        if i > 0 {
            push_str(&mut out, sep);
        } else {
            assert(pv.take(1)[0] == parts@[0]@);
        }
        push_str(&mut out, parts[i].as_str());
        i = i + 1;
    }
    assert(pv.take(pv.len() as int) =~= pv);
    out
}

// ───────────────────────── integers ─────────────────────────

pub open spec fn is_digit(c: char) -> bool {
    '0' <= c && c <= '9'
}

pub open spec fn digit_value(c: char) -> int {
    (c as u32) - ('0' as u32)
}

pub open spec fn all_digits(d: Seq<char>) -> bool {
    forall|i: int| 0 <= i < d.len() ==> is_digit(#[trigger] d[i])
}

/// The value of a string of decimal digits.
pub open spec fn digits_value(d: Seq<char>) -> int
    decreases d.len(),
{
    if d.len() == 0 {
        0
    } else {
        digits_value(d.drop_last()) * 10 + digit_value(d.last())
    }
}

/// The sign and digits of a number: an optional `+` (or `-` when signed) in
/// front, which must not stand alone.
pub open spec fn sign_and_digits(s: Seq<char>, signed: bool) -> Option<(bool, Seq<char>)> {
    if s.len() == 0 {
        None
    } else if (s[0] == '+' || s[0] == '-') && s.len() == 1 {
        None
    } else if s[0] == '+' {
        Some((false, s.skip(1)))
    } else if s[0] == '-' && signed {
        Some((true, s.skip(1)))
    } else {
        Some((false, s))
    }
}

/// What `s.parse::<i32>()` gives: the value, or `None` for an error.
pub open spec fn parse_i32_spec(s: Seq<char>) -> Option<i32> {
    match sign_and_digits(s, true) {
        None => None,
        Some((neg, d)) => if !all_digits(d) {
            None
        } else {
            let v = if neg {
                -digits_value(d)
            } else {
                digits_value(d)
            };
            if i32::MIN <= v && v <= i32::MAX {
                Some(v as i32)
            } else {
                None
            }
        },
    }
}

/// What `s.parse::<u32>()` gives: the value, or `None` for an error.
pub open spec fn parse_u32_spec(s: Seq<char>) -> Option<u32> {
    match sign_and_digits(s, false) {
        None => None,
        Some((neg, d)) => if !all_digits(d) {
            None
        } else {
            let v = digits_value(d);
            if v <= u32::MAX {
                Some(v as u32)
            } else {
                None
            }
        },
    }
}

proof fn lemma_digits_value_push(d: Seq<char>, c: char)
    ensures
        digits_value(d.push(c)) == digits_value(d) * 10 + digit_value(c),
{
    assert(d.push(c).drop_last() =~= d);
}

proof fn lemma_digits_nonneg(d: Seq<char>)
    requires
        all_digits(d),
    ensures
        digits_value(d) >= 0,
    decreases d.len(),
{
    if d.len() > 0 {
        assert(all_digits(d.drop_last())) by {
            assert forall|i: int| 0 <= i < d.drop_last().len() implies is_digit(
                #[trigger] d.drop_last()[i],
            ) by {
                assert(d.drop_last()[i] == d[i]);
            }
        }
        lemma_digits_nonneg(d.drop_last());
        assert(is_digit(d[d.len() - 1]));
    }
}

/// Reads the digits of `d`: `None` unless all are digits; the value, or
/// `u64::MAX` when it exceeds `limit`.
fn digits_capped(d: &Vec<char>, from: usize, limit: u64) -> (r: Option<u64>)
    requires
        from <= d@.len(),
        limit <= 0x1_0000_0000,
    ensures
        r is None <==> !all_digits(d@.skip(from as int)),
        r matches Some(v) ==> (v <= limit ==> v == digits_value(d@.skip(from as int))),
        r matches Some(v) ==> (v > limit ==> digits_value(d@.skip(from as int)) > limit),
{
    let mut acc: u64 = 0;
    let mut big = false;
    let mut i = from;
    let ghost ds = d@.skip(from as int);
    assert(ds.take(0) =~= Seq::<char>::empty());
    while i < d.len()
        invariant
            from <= i <= d@.len(),
            ds == d@.skip(from as int),
            limit <= 0x1_0000_0000,
            all_digits(ds.take(i - from)),
            !big ==> acc == digits_value(ds.take(i - from)) && acc <= limit,
            big ==> digits_value(ds.take(i - from)) > limit,
        decreases d.len() - i,
    {
        let c = d[i];
        if !('0' <= c && c <= '9') {
            assert(ds[i - from] == c);
            return None;
        }
        let k = i - from;
        proof {
            assert(ds.take(k + 1) =~= ds.take(k as int).push(c));
            lemma_digits_value_push(ds.take(k as int), c);
            assert(all_digits(ds.take(k + 1))) by {
                assert forall|q: int| 0 <= q < ds.take(k + 1).len() implies is_digit(
                    #[trigger] ds.take(k + 1)[q],
                ) by {
                    if q < k {
                        assert(ds.take(k + 1)[q] == ds.take(k as int)[q]);
                    }
                }
            }
            lemma_digits_nonneg(ds.take(k as int));
        }
        let dv = (c as u32 - '0' as u32) as u64;
        if !big {
            let next = acc * 10 + dv;
            if next > limit {
                big = true;
            } else {
                acc = next;
            }
        }
        i = i + 1;
    }
    assert(ds.take(d@.len() - from) =~= ds);
    if big {
        Some(u64::MAX)
    } else {
        Some(acc)
    }
}

/// Parses a decimal `i32` as `str::parse` does.
pub fn parse_i32(s: &str) -> (r: Option<i32>)
    ensures
        r == parse_i32_spec(s@),
{
    let v = to_chars(s);
    if v.len() == 0 {
        return None;
    }
    if (v[0] == '+' || v[0] == '-') && v.len() == 1 {
        return None;
    }
    let neg = v[0] == '-';
    let from: usize = if v[0] == '+' || v[0] == '-' {
        1
    } else {
        0
    };
    assert(v@.skip(0) =~= s@);
    let limit: u64 = if neg {
        0x8000_0000
    } else {
        0x7FFF_FFFF
    };
    match digits_capped(&v, from, limit) {
        None => None,
        Some(x) => {
            if x > limit {
                None
            } else if neg {
                if x == 0x8000_0000 {
                    Some(i32::MIN)
                } else {
                    Some(-(x as i32))
                }
            } else {
                Some(x as i32)
            }
        },
    }
}

/// Parses a decimal `u32` as `str::parse` does.
pub fn parse_u32(s: &str) -> (r: Option<u32>)
    ensures
        r == parse_u32_spec(s@),
{
    let v = to_chars(s);
    if v.len() == 0 {
        return None;
    }
    if (v[0] == '+' || v[0] == '-') && v.len() == 1 {
        return None;
    }
    let from: usize = if v[0] == '+' {
        1
    } else {
        0
    };
    assert(v@.skip(0) =~= s@);
    match digits_capped(&v, from, 0xFFFF_FFFF) {
        None => None,
        Some(x) => {
            if x > 0xFFFF_FFFF {
                None
            } else {
                Some(x as u32)
            }
        },
    }
}

/// The decimal digits of a natural number.
pub open spec fn nat_decimal(n: nat) -> Seq<char>
    decreases n,
{
    if n < 10 {
        seq![(('0' as u32) + n) as char]
    } else {
        nat_decimal(n / 10).push((('0' as u32) + n % 10) as char)
    }
}

/// The decimal form of an integer, with a `-` when negative.
pub open spec fn int_decimal(n: int) -> Seq<char> {
    if n < 0 {
        seq!['-'] + nat_decimal((-n) as nat)
    } else {
        nat_decimal(n as nat)
    }
}


/// The digits of a natural number are digits, read back as the number, and
/// begin with a digit.
pub proof fn lemma_nat_decimal(n: nat)
    ensures
        all_digits(nat_decimal(n)),
        digits_value(nat_decimal(n)) == n,
        nat_decimal(n).len() > 0,
    decreases n,
{
    if n < 10 {
        let c = (('0' as u32) + n) as char;
        assert(nat_decimal(n) == seq![c]);
        assert(seq![c].drop_last() =~= Seq::<char>::empty());
        assert(digit_value(c) == n);
        assert(digits_value(seq![c]) == digits_value(seq![c].drop_last()) * 10 + digit_value(c));
        assert(digits_value(Seq::<char>::empty()) == 0);
    } else {
        lemma_nat_decimal(n / 10);
        let c = (('0' as u32) + n % 10) as char;
        let d = nat_decimal(n / 10);
        assert(nat_decimal(n) == d.push(c));
        lemma_digits_value_push(d, c);
        assert(digit_value(c) == n % 10);
        assert(n == (n / 10) * 10 + n % 10);
        assert(digits_value(d.push(c)) == n);
        assert forall|i: int| 0 <= i < d.push(c).len() implies is_digit(#[trigger] d.push(c)[i]) by {
            if i < d.len() {
                assert(d.push(c)[i] == d[i]);
            }
        }
    }
}

/// Reading back the decimal form of an `i32` gives the number.
pub proof fn lemma_parse_int_decimal(n: i32)
    ensures
        parse_i32_spec(int_decimal(n as int)) == Some(n),
{
    if n < 0 {
        let m = (-(n as int)) as nat;
        lemma_nat_decimal(m);
        let s = int_decimal(n as int);
        assert(s == seq!['-'] + nat_decimal(m));
        assert(s.skip(1) =~= nat_decimal(m));
        assert(s[0] == '-');
        assert(s.len() > 1);
    } else {
        lemma_nat_decimal(n as nat);
        let d = nat_decimal(n as nat);
        assert(is_digit(d[0]));
    }
}


proof fn lemma_zeros_value(k: nat)
    ensures
        all_digits(repeat_char('0', k)),
        digits_value(repeat_char('0', k)) == 0,
    decreases k,
{
    if k > 0 {
        lemma_zeros_value((k - 1) as nat);
        assert(repeat_char('0', k).drop_last() =~= repeat_char('0', (k - 1) as nat));
    }
}

proof fn lemma_zeros_prefix(z: Seq<char>, d: Seq<char>)
    requires
        all_digits(z),
        digits_value(z) == 0,
    ensures
        digits_value(z + d) == digits_value(d),
    decreases d.len(),
{
    if d.len() == 0 {
        assert(z + d =~= z);
    } else {
        assert((z + d).drop_last() =~= z + d.drop_last());
        lemma_zeros_prefix(z, d.drop_last());
    }
}

/// Reading back the decimal digits of a `u32`, padded with leading zeros to
/// any width, gives the number.
pub proof fn lemma_parse_padded(n: u32, width: nat)
    ensures
        parse_u32_spec(pad_left(nat_decimal(n as nat), width, '0')) == Some(n),
{
    let d = nat_decimal(n as nat);
    lemma_nat_decimal(n as nat);
    let p = pad_left(d, width, '0');
    if d.len() < width {
        let z = repeat_char('0', (width - d.len()) as nat);
        lemma_zeros_value((width - d.len()) as nat);
        lemma_zeros_prefix(z, d);
        assert(p == z + d);
        assert(p[0] == '0');
        assert forall|i: int| 0 <= i < p.len() implies is_digit(#[trigger] p[i]) by {
            if i < z.len() {
                assert(p[i] == z[i]);
            } else {
                assert(p[i] == d[i - z.len()]);
            }
        }
    } else {
        assert(p == d);
        assert(is_digit(d[0]));
    }
}

/// Appends the decimal digits of `n`.
fn push_decimal(out: &mut String, n: u64)
    ensures
        final(out)@ == old(out)@ + nat_decimal(n as nat),
    decreases n,
{
    if n < 10 {
        let c = char_from_digit(n as u32);
        push_char(out, c);
        assert(seq![c] =~= nat_decimal(n as nat));
    } else {
        push_decimal(out, n / 10);
        let c = char_from_digit((n % 10) as u32);
        push_char(out, c);
    }
}

/// The character of a decimal digit.
fn char_from_digit(d: u32) -> (c: char)
    requires
        d < 10,
    ensures
        c == (('0' as u32) + d) as char,
{
    match d {
        0 => '0',
        1 => '1',
        2 => '2',
        3 => '3',
        4 => '4',
        5 => '5',
        6 => '6',
        7 => '7',
        8 => '8',
        _ => '9',
    }
}

/// The decimal form of an `i32` (its `Display`).
pub fn i32_to_string(n: i32) -> (r: String)
    ensures
        r@ == int_decimal(n as int),
{
    let mut out = String::new();
    if n < 0 {
        push_char(&mut out, '-');
        let m: u64 = (-(n as i64)) as u64;
        push_decimal(&mut out, m);
    } else {
        push_decimal(&mut out, n as u64);
        assert(out@ =~= nat_decimal(n as nat));
    }
    out
}

/// The decimal form of a `u64` (its `Display`).
pub fn u64_to_string(n: u64) -> (r: String)
    ensures
        r@ == nat_decimal(n as nat),
{
    let mut out = String::new();
    push_decimal(&mut out, n);
    assert(out@ =~= nat_decimal(n as nat));
    out
}

/// `c` repeated `n` times.
pub open spec fn repeat_char(c: char, n: nat) -> Seq<char> {
    Seq::new(n, |i: int| c)
}

/// `s` padded on the left with `c` to at least `width` characters.
pub open spec fn pad_left(s: Seq<char>, width: nat, c: char) -> Seq<char> {
    if s.len() >= width {
        s
    } else {
        repeat_char(c, (width - s.len()) as nat) + s
    }
}

/// `s` padded on the right with `c` to at least `width` characters.
pub open spec fn pad_right(s: Seq<char>, width: nat, c: char) -> Seq<char> {
    if s.len() >= width {
        s
    } else {
        s + repeat_char(c, (width - s.len()) as nat)
    }
}

/// `s` padded on the left with `c` to at least `width` characters.
pub fn pad_left_exec(s: &str, width: usize, c: char) -> (r: String)
    ensures
        r@ == pad_left(s@, width as nat, c),
{
    let n = s.unicode_len();
    let mut out = String::new();
    if n < width {
        let mut i: usize = 0;
        while i < width - n
            invariant
                n < width,
                i <= width - n,
                out@ == repeat_char(c, i as nat),
            decreases width - n - i,
        {
            push_char(&mut out, c);
            i = i + 1;
            assert(out@ =~= repeat_char(c, i as nat));
        }
    }
    push_str(&mut out, s);
    if n >= width {
        assert(out@ =~= s@);
    }
    out
}

/// `s` padded on the right with `c` to at least `width` characters.
pub fn pad_right_exec(s: &str, width: usize, c: char) -> (r: String)
    ensures
        r@ == pad_right(s@, width as nat, c),
{
    let n = s.unicode_len();
    let mut out = String::new();
    push_str(&mut out, s);
    if n < width {
        let mut i: usize = 0;
        while i < width - n
            invariant
                n == s@.len(),
                n < width,
                i <= width - n,
                out@ == s@ + repeat_char(c, i as nat),
            decreases width - n - i,
        {
            push_char(&mut out, c);
            i = i + 1;
            assert(out@ =~= s@ + repeat_char(c, i as nat));
        }
    } else {
        assert(out@ =~= s@);
    }
    out
}


// ───────────────────────── order ─────────────────────────

/// Whether `a` comes before `b` in the order of `String` (character codes
/// compared from the left, a proper prefix first).
pub open spec fn str_lt(a: Seq<char>, b: Seq<char>) -> bool
    decreases a.len(),
{
    if b.len() == 0 {
        false
    } else if a.len() == 0 {
        true
    } else if a[0] != b[0] {
        (a[0] as int) < (b[0] as int)
    } else {
        str_lt(a.skip(1), b.skip(1))
    }
}

/// The order of strings is irreflexive: no string is below itself.
pub proof fn lemma_str_lt_irrefl(a: Seq<char>)
    ensures
        !str_lt(a, a),
    decreases a.len(),
{
    if a.len() > 0 {
        lemma_str_lt_irrefl(a.skip(1));
    }
}

/// The order of strings is total: of two different strings one is below
/// the other.
pub proof fn lemma_str_lt_total(a: Seq<char>, b: Seq<char>)
    ensures
        str_lt(a, b) || a == b || str_lt(b, a),
    decreases a.len(),
{
    if a.len() > 0 && b.len() > 0 && a[0] == b[0] {
        lemma_str_lt_total(a.skip(1), b.skip(1));
        if a.skip(1) == b.skip(1) {
            assert(a =~= seq![a[0]] + a.skip(1));
            assert(b =~= seq![b[0]] + b.skip(1));
        }
    } else if a.len() > 0 && b.len() > 0 {
        assert(a[0] as int != b[0] as int);
    } else if a.len() == 0 && b.len() == 0 {
        assert(a =~= b);
    }
}

/// The order of strings is transitive.
pub proof fn lemma_str_lt_trans(a: Seq<char>, b: Seq<char>, c: Seq<char>)
    requires
        str_lt(a, b),
        str_lt(b, c),
    ensures
        str_lt(a, c),
    decreases a.len(),
{
    if a.len() > 0 && a[0] == b[0] && b[0] == c[0] {
        lemma_str_lt_trans(a.skip(1), b.skip(1), c.skip(1));
    }
}

/// The order of strings is asymmetric: two strings are not each below the
/// other.
pub proof fn lemma_str_lt_asym(a: Seq<char>, b: Seq<char>)
    requires
        str_lt(a, b),
    ensures
        !str_lt(b, a),
{
    if str_lt(b, a) {
        lemma_str_lt_trans(a, b, a);
        lemma_str_lt_irrefl(a);
    }
}

/// Whether `a` comes before `b` in the order of `String`.
pub fn str_less(a: &str, b: &str) -> (r: bool)
    ensures
        r == str_lt(a@, b@),
{
    let va = to_chars(a);
    let vb = to_chars(b);
    let mut i: usize = 0;
    assert(a@.skip(0) =~= a@);
    assert(b@.skip(0) =~= b@);
    while i < va.len() && i < vb.len() && va[i] == vb[i]
        invariant
            va@ == a@,
            vb@ == b@,
            i <= va@.len(),
            i <= vb@.len(),
            str_lt(a@.skip(i as int), b@.skip(i as int)) == str_lt(a@, b@),
        decreases va.len() - i,
    {
        proof {
            let sa = a@.skip(i as int);
            let sb = b@.skip(i as int);
            assert(sa.skip(1) =~= a@.skip(i + 1));
            assert(sb.skip(1) =~= b@.skip(i + 1));
        }
        i = i + 1;
    }
    if i >= vb.len() {
        false
    } else if i >= va.len() {
        true
    } else {
        va[i] < vb[i]
    }
}


// ───────────────────────── lines ─────────────────────────

/// A line without one carriage return at its end.
pub open spec fn strip_cr(s: Seq<char>) -> Seq<char> {
    if s.len() > 0 && s.last() == '\r' {
        s.drop_last()
    } else {
        s
    }
}

/// The lines of a text (`str::lines`): the pieces between line feeds, each
/// without the carriage return before its line feed; a last empty piece
/// (after a final line feed, or of an empty text) is no line.
pub open spec fn lines_spec(s: Seq<char>) -> Seq<Seq<char>> {
    let ps = split_char_spec(s, '\n');
    let n = ps.len();
    let body = Seq::new((n - 1) as nat, |i: int| strip_cr(ps[i]));
    if n > 0 && ps[n - 1].len() > 0 {
        body.push(ps[n - 1])
    } else {
        body
    }
}

proof fn lemma_split_run_len(s: Seq<char>, i: int, c: char, done: Seq<Seq<char>>, cur: Seq<char>)
    ensures
        split_char_run(s, i, c, done, cur).len() >= done.len() + 1,
    decreases s.len() - i,
{
    if 0 <= i < s.len() {
        if s[i] == c {
            lemma_split_run_len(s, i + 1, c, done.push(cur), Seq::empty());
        } else {
            lemma_split_run_len(s, i + 1, c, done, cur.push(s[i]));
        }
    }
}

/// The lines of a text.
pub fn text_lines(s: &str) -> (r: Vec<String>)
    ensures
        strings_view(r@) == lines_spec(s@),
{
    let ps = split_char(s, '\n');
    let ghost pv = strings_view(ps@);
    proof {
        lemma_split_run_len(s@, 0, '\n', Seq::empty(), Seq::empty());
    }
    let n = ps.len();
    let mut out: Vec<String> = Vec::new();
    let mut i: usize = 0;
    while i + 1 < n
        invariant
            n == ps@.len(),
            pv == strings_view(ps@),
            pv == split_char_spec(s@, '\n'),
            i <= n,
            i + 1 <= n || n == 0,
            strings_view(out@) == Seq::new(i as nat, |k: int| strip_cr(pv[k])),
        decreases n - i,
    {
        let p = ps[i].as_str();
        let m = p.unicode_len();
        let line = if m > 0 && p.get_char(m - 1) == '\r' {
            p.substring_char(0, m - 1).to_string()
        } else {
            p.to_string()
        };
        proof {
            assert(pv[i as int] == p@);
            if m > 0 && p@[m - 1] == '\r' {
                assert(line@ =~= p@.drop_last());
            }
        }
        let ghost before = out@;
        out.push(line);
        proof {
            lemma_strings_view_push(before, line);
            assert(strings_view(out@) =~= Seq::new((i + 1) as nat, |k: int| strip_cr(pv[k])));
        }
        i = i + 1;
    }
    if n > 0 && ps[n - 1].as_str().unicode_len() > 0 {
        let ghost before = out@;
        let last = crate::chars::copy_string(&ps[n - 1]);
        out.push(last);
        proof {
            lemma_strings_view_push(before, last);
            assert(pv[n - 1] == last@);
        }
    }
    proof {
        if n > 0 {
            assert(i == n - 1);
        }
        assert(strings_view(out@) =~= lines_spec(s@));
    }
    out
}

} // verus!
