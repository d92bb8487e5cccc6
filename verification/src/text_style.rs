//! Terminal text styles: an optional foreground colour, an optional
//! background colour and a set of attributes, read from style keys or from
//! ANSI SGR codes and printed back as keys or as an escape sequence.
//!
//! Foreground keys are `dkrgybmcw` (`d` the default colour), background keys
//! `DKRGYBMCW`, attribute keys `*_/X!` (bold, underline, italic, reverse,
//! strike-through).

use crate::chars::{push_char, push_str, to_chars};
use crate::text::{bg_keys, fg_keys, sgr_digits};
use vstd::prelude::*;

verus! {

pub open spec fn ts_fg_key(c: char) -> bool {
    c == 'd' || c == 'k' || c == 'r' || c == 'g' || c == 'y' || c == 'b' || c == 'm' || c == 'c'
        || c == 'w'
}

pub open spec fn ts_bg_key(c: char) -> bool {
    c == 'D' || c == 'K' || c == 'R' || c == 'G' || c == 'Y' || c == 'B' || c == 'M' || c == 'C'
        || c == 'W'
}

pub open spec fn ts_attr_key(c: char) -> bool {
    c == '*' || c == '_' || c == '/' || c == 'X' || c == '!'
}

/// The attribute keys in ascending order.
pub open spec fn attr_order() -> Seq<char> {
    seq!['!', '*', '/', 'X', '_']
}

/// The members of `s` among the first `k` attribute keys, ascending.
pub open spec fn attrs_upto(s: Set<char>, k: nat) -> Seq<char>
    decreases k,
{
    if k == 0 {
        Seq::empty()
    } else {
        let c = attr_order()[k - 1];
        attrs_upto(s, (k - 1) as nat) + if s.contains(c) {
            seq![c]
        } else {
            Seq::<char>::empty()
        }
    }
}

/// The attribute keys that `s` holds, ascending.
pub open spec fn sorted_attrs(s: Set<char>) -> Seq<char> {
    attrs_upto(s, 5)
}

/// The attribute keys that `s` holds.
pub open spec fn attr_part(s: Set<char>) -> Set<char> {
    Set::new(|c: char| ts_attr_key(c) && s.contains(c))
}

/// The last character of `s` that `p` accepts.
pub open spec fn last_key(s: Seq<char>, p: spec_fn(char) -> bool) -> Option<char>
    decreases s.len(),
{
    if s.len() == 0 {
        None
    } else if p(s.last()) {
        Some(s.last())
    } else {
        last_key(s.drop_last(), p)
    }
}

/// `o`, except that the default colour `dflt` counts as none.
pub open spec fn drop_default(o: Option<char>, dflt: char) -> Option<char> {
    if o == Some(dflt) {
        None
    } else {
        o
    }
}

/// The abstract value of a [`TextStyle`].
pub struct TextStyleView {
    pub fg: Option<char>,
    pub bg: Option<char>,
    pub attrs: Set<char>,
}

/// The style that a string of keys describes: the last foreground and
/// background keys (the default colours counting as none) and every
/// attribute key present; other characters are ignored.
pub open spec fn parse_spec(s: Seq<char>) -> TextStyleView {
    TextStyleView {
        fg: drop_default(last_key(s, |c: char| ts_fg_key(c)), 'd'),
        bg: drop_default(last_key(s, |c: char| ts_bg_key(c)), 'D'),
        attrs: attr_part(s.to_set()),
    }
}

/// The key that an SGR code selects: `""` and `30`..`37` a foreground
/// colour, `40`..`47` a background colour, `1 4 3 7 9` an attribute.
pub open spec fn code_key(code: Seq<char>) -> Option<char> {
    if code.len() == 0 {
        Some('d')
    } else if code.len() == 1 {
        let d = code[0];
        if d == '1' {
            Some('*')
        } else if d == '4' {
            Some('_')
        } else if d == '3' {
            Some('/')
        } else if d == '7' {
            Some('X')
        } else if d == '9' {
            Some('!')
        } else {
            None
        }
    } else if code.len() == 2 && (code[0] == '3' || code[0] == '4') {
        let d = code[1];
        let fg = code[0] == '3';
        if d == '0' {
            Some(if fg { 'k' } else { 'K' })
        } else if d == '1' {
            Some(if fg { 'r' } else { 'R' })
        } else if d == '2' {
            Some(if fg { 'g' } else { 'G' })
        } else if d == '3' {
            Some(if fg { 'y' } else { 'Y' })
        } else if d == '4' {
            Some(if fg { 'b' } else { 'B' })
        } else if d == '5' {
            Some(if fg { 'm' } else { 'M' })
        } else if d == '6' {
            Some(if fg { 'c' } else { 'C' })
        } else if d == '7' {
            Some(if fg { 'w' } else { 'W' })
        } else {
            None
        }
    } else {
        None
    }
}

/// The SGR code of a style key.
pub open spec fn key_code(c: char) -> Seq<char> {
    if c == 'k' {
        seq!['3', '0']
    } else if c == 'r' {
        seq!['3', '1']
    } else if c == 'g' {
        seq!['3', '2']
    } else if c == 'y' {
        seq!['3', '3']
    } else if c == 'b' {
        seq!['3', '4']
    } else if c == 'm' {
        seq!['3', '5']
    } else if c == 'c' {
        seq!['3', '6']
    } else if c == 'w' {
        seq!['3', '7']
    } else if c == 'K' {
        seq!['4', '0']
    } else if c == 'R' {
        seq!['4', '1']
    } else if c == 'G' {
        seq!['4', '2']
    } else if c == 'Y' {
        seq!['4', '3']
    } else if c == 'B' {
        seq!['4', '4']
    } else if c == 'M' {
        seq!['4', '5']
    } else if c == 'C' {
        seq!['4', '6']
    } else if c == 'W' {
        seq!['4', '7']
    } else if c == '*' {
        seq!['1']
    } else if c == '_' {
        seq!['4']
    } else if c == '/' {
        seq!['3']
    } else if c == 'X' {
        seq!['7']
    } else if c == '!' {
        seq!['9']
    } else {
        Seq::empty()
    }
}

/// Style keys give the standard SGR codes: the `i`-th foreground colour key
/// (black, red, green, yellow, blue, magenta, cyan, white) gives `3i`, the
/// `i`-th background key `4i`; and reading a key's code back gives the key,
/// for every colour key and the attributes bold `*`, underline `_`, italic
/// `/`, inverse `X` and strike-through `!`.
pub proof fn lemma_key_codes()
    ensures
        forall|i: int| 0 <= i < 8 ==> key_code(#[trigger] fg_keys()[i]) == seq!['3', sgr_digits()[i]],
        forall|i: int| 0 <= i < 8 ==> key_code(#[trigger] bg_keys()[i]) == seq!['4', sgr_digits()[i]],
        forall|i: int| 0 <= i < 8 ==> code_key(key_code(#[trigger] fg_keys()[i])) == Some(fg_keys()[i]),
        forall|i: int| 0 <= i < 8 ==> code_key(key_code(#[trigger] bg_keys()[i])) == Some(bg_keys()[i]),
        forall|c: char| #![trigger key_code(c)]
            c == '*' || c == '_' || c == '/' || c == 'X' || c == '!' ==> code_key(key_code(c)) == Some(c),
{
    assert forall|i: int| 0 <= i < 8 implies key_code(#[trigger] fg_keys()[i]) == seq!['3', sgr_digits()[i]]
        && key_code(bg_keys()[i]) == seq!['4', sgr_digits()[i]] && code_key(key_code(fg_keys()[i])) == Some(
        fg_keys()[i],
    ) && code_key(key_code(bg_keys()[i])) == Some(bg_keys()[i]) by {
        if i == 0 {
            assert(fg_keys()[i] == 'k' && bg_keys()[i] == 'K' && sgr_digits()[i] == '0');
            assert(key_code('k') =~= seq!['3', '0']);
            assert(key_code('K') =~= seq!['4', '0']);
            assert(seq!['3', '0'][0] == '3' && seq!['3', '0'][1] == '0');
            assert(seq!['4', '0'][0] == '4' && seq!['4', '0'][1] == '0');
        } else if i == 1 {
            assert(fg_keys()[i] == 'r' && bg_keys()[i] == 'R' && sgr_digits()[i] == '1');
            assert(key_code('r') =~= seq!['3', '1']);
            assert(key_code('R') =~= seq!['4', '1']);
            assert(seq!['3', '1'][0] == '3' && seq!['3', '1'][1] == '1');
            assert(seq!['4', '1'][0] == '4' && seq!['4', '1'][1] == '1');
        } else if i == 2 {
            assert(fg_keys()[i] == 'g' && bg_keys()[i] == 'G' && sgr_digits()[i] == '2');
            assert(key_code('g') =~= seq!['3', '2']);
            assert(key_code('G') =~= seq!['4', '2']);
            assert(seq!['3', '2'][0] == '3' && seq!['3', '2'][1] == '2');
            assert(seq!['4', '2'][0] == '4' && seq!['4', '2'][1] == '2');
        } else if i == 3 {
            assert(fg_keys()[i] == 'y' && bg_keys()[i] == 'Y' && sgr_digits()[i] == '3');
            assert(key_code('y') =~= seq!['3', '3']);
            assert(key_code('Y') =~= seq!['4', '3']);
            assert(seq!['3', '3'][0] == '3' && seq!['3', '3'][1] == '3');
            assert(seq!['4', '3'][0] == '4' && seq!['4', '3'][1] == '3');
        } else if i == 4 {
            assert(fg_keys()[i] == 'b' && bg_keys()[i] == 'B' && sgr_digits()[i] == '4');
            assert(key_code('b') =~= seq!['3', '4']);
            assert(key_code('B') =~= seq!['4', '4']);
            assert(seq!['3', '4'][0] == '3' && seq!['3', '4'][1] == '4');
            assert(seq!['4', '4'][0] == '4' && seq!['4', '4'][1] == '4');
        } else if i == 5 {
            assert(fg_keys()[i] == 'm' && bg_keys()[i] == 'M' && sgr_digits()[i] == '5');
            assert(key_code('m') =~= seq!['3', '5']);
            assert(key_code('M') =~= seq!['4', '5']);
            assert(seq!['3', '5'][0] == '3' && seq!['3', '5'][1] == '5');
            assert(seq!['4', '5'][0] == '4' && seq!['4', '5'][1] == '5');
        } else if i == 6 {
            assert(fg_keys()[i] == 'c' && bg_keys()[i] == 'C' && sgr_digits()[i] == '6');
            assert(key_code('c') =~= seq!['3', '6']);
            assert(key_code('C') =~= seq!['4', '6']);
            assert(seq!['3', '6'][0] == '3' && seq!['3', '6'][1] == '6');
            assert(seq!['4', '6'][0] == '4' && seq!['4', '6'][1] == '6');
        } else if i == 7 {
            assert(fg_keys()[i] == 'w' && bg_keys()[i] == 'W' && sgr_digits()[i] == '7');
            assert(key_code('w') =~= seq!['3', '7']);
            assert(key_code('W') =~= seq!['4', '7']);
            assert(seq!['3', '7'][0] == '3' && seq!['3', '7'][1] == '7');
            assert(seq!['4', '7'][0] == '4' && seq!['4', '7'][1] == '7');
        }
    }
    assert forall|i: int| 0 <= i < 8 implies key_code(#[trigger] bg_keys()[i]) == seq!['4', sgr_digits()[i]]
        && code_key(key_code(bg_keys()[i])) == Some(bg_keys()[i]) by {
        assert(key_code(fg_keys()[i]) == seq!['3', sgr_digits()[i]]);
    }
    assert forall|c: char| #![trigger key_code(c)]
        c == '*' || c == '_' || c == '/' || c == 'X' || c == '!' implies code_key(key_code(c)) == Some(c) by {
        assert(seq!['1'][0] == '1' && seq!['4'][0] == '4' && seq!['3'][0] == '3');
        assert(seq!['7'][0] == '7' && seq!['9'][0] == '9');
    }
}

/// One SGR code applied to a style: `0` resets everything, a colour code
/// replaces that colour, an attribute code adds the attribute, any other
/// code changes nothing.
pub open spec fn code_step(st: TextStyleView, code: Seq<char>) -> TextStyleView {
    if code == seq!['0'] {
        TextStyleView { fg: None, bg: None, attrs: Set::empty() }
    } else {
        match code_key(code) {
            Some(k) => if ts_fg_key(k) {
                TextStyleView { fg: Some(k), ..st }
            } else if ts_bg_key(k) {
                TextStyleView { bg: Some(k), ..st }
            } else {
                TextStyleView { attrs: st.attrs.insert(k), ..st }
            },
            None => st,
        }
    }
}

/// A list of SGR codes applied in order.
pub open spec fn codes_apply(st: TextStyleView, codes: Seq<Seq<char>>) -> TextStyleView
    decreases codes.len(),
{
    if codes.len() == 0 {
        st
    } else {
        code_step(codes_apply(st, codes.drop_last()), codes.last())
    }
}

pub open spec fn opt_seq(o: Option<char>) -> Seq<char> {
    match o {
        Some(c) => seq![c],
        None => Seq::empty(),
    }
}

/// The keys of a style: foreground, background, then the attributes
/// ascending.
pub open spec fn tag_spec(st: TextStyleView) -> Seq<char> {
    opt_seq(st.fg) + opt_seq(st.bg) + sorted_attrs(st.attrs)
}

/// The codes of a list of keys joined by `;`.
pub open spec fn joined_codes(keys: Seq<char>) -> Seq<char>
    decreases keys.len(),
{
    if keys.len() == 0 {
        Seq::empty()
    } else if keys.len() == 1 {
        key_code(keys[0])
    } else {
        joined_codes(keys.drop_last()) + seq![';'] + key_code(keys.last())
    }
}

/// The escape sequence of a style: `ESC [ codes m`, or nothing for a plain
/// style.
pub open spec fn ansi_spec(st: TextStyleView) -> Seq<char> {
    let keys = tag_spec(st);
    if keys.len() == 0 {
        Seq::empty()
    } else {
        seq!['\x1b', '['] + joined_codes(keys) + seq!['m']
    }
}


/// A style value that the operations can build: colours of the right kind
/// and attribute keys only.
pub open spec fn style_ok(st: TextStyleView) -> bool {
    &&& (st.fg matches Some(c) ==> ts_fg_key(c))
    &&& (st.bg matches Some(c) ==> ts_bg_key(c))
    &&& (forall|c: char| st.attrs.contains(c) ==> ts_attr_key(c))
}

proof fn lemma_last_key_none(s: Seq<char>, p: spec_fn(char) -> bool)
    requires
        forall|i: int| 0 <= i < s.len() ==> !p(#[trigger] s[i]),
    ensures
        last_key(s, p) is None,
    decreases s.len(),
{
    if s.len() > 0 {
        assert(!p(s[s.len() - 1]));
        lemma_last_key_none(s.drop_last(), p);
    }
}

proof fn lemma_last_key_concat(a: Seq<char>, b: Seq<char>, p: spec_fn(char) -> bool)
    ensures
        last_key(a + b, p) == if last_key(b, p) is Some {
            last_key(b, p)
        } else {
            last_key(a, p)
        },
    decreases b.len(),
{
    if b.len() == 0 {
        assert(a + b =~= a);
    } else {
        assert((a + b).drop_last() =~= a + b.drop_last());
        lemma_last_key_concat(a, b.drop_last(), p);
    }
}

/// Reading back the keys of a style gives the style, when neither colour is
/// the default one (`d` and `D` read back as no colour).
pub proof fn lemma_parse_tag(st: TextStyleView)
    requires
        style_ok(st),
        st.fg != Some('d'),
        st.bg != Some('D'),
    ensures
        parse_spec(tag_spec(st)) == st,
{
    let sa = sorted_attrs(st.attrs);
    let head = opt_seq(st.fg) + opt_seq(st.bg);
    assert(tag_spec(st) == head + sa);
    assert forall|i: int| 0 <= i < sa.len() implies ts_attr_key(#[trigger] sa[i]) by {
        lemma_sorted_contains(st.attrs, sa[i]);
        assert(sa.contains(sa[i]));
    }
    let pf = |c: char| ts_fg_key(c);
    let pb = |c: char| ts_bg_key(c);
    lemma_last_key_none(sa, pf);
    lemma_last_key_none(sa, pb);
    lemma_last_key_concat(head, sa, pf);
    lemma_last_key_concat(head, sa, pb);
    lemma_last_key_concat(opt_seq(st.fg), opt_seq(st.bg), pf);
    lemma_last_key_concat(opt_seq(st.fg), opt_seq(st.bg), pb);
    match st.fg {
        Some(c) => {
            assert(seq![c].drop_last() =~= Seq::<char>::empty());
        },
        None => {},
    }
    match st.bg {
        Some(c) => {
            assert(seq![c].drop_last() =~= Seq::<char>::empty());
        },
        None => {},
    }
    let t = tag_spec(st);
    assert forall|c: char| attr_part(t.to_set()).contains(c) <==> st.attrs.contains(c) by {
        lemma_sorted_contains(st.attrs, c);
        if st.attrs.contains(c) {
            let k = choose|k: int| 0 <= k < sa.len() && sa[k] == c;
            assert(t[head.len() + k] == c);
            assert(t.contains(c));
        }
        if ts_attr_key(c) && t.contains(c) {
            let k = choose|k: int| 0 <= k < t.len() && t[k] == c;
            if k >= head.len() {
                assert(sa[k - head.len()] == c);
                assert(sa.contains(c));
            } else {
                match st.fg {
                    Some(f) => {
                        if st.bg is Some {
                            assert(k == 0 || k == 1);
                        }
                    },
                    None => {},
                }
            }
        }
    }
    assert(attr_part(t.to_set()) =~= st.attrs);
    assert(last_key(Seq::<char>::empty(), pf) is None);
    assert(last_key(Seq::<char>::empty(), pb) is None);
    assert(last_key(opt_seq(st.bg), pf) is None);
    assert(last_key(opt_seq(st.fg), pb) is None);
    assert(last_key(opt_seq(st.fg), pf) == st.fg);
    assert(last_key(opt_seq(st.bg), pb) == st.bg);
    assert(t == head + sa);
    assert(last_key(t, pf) == st.fg);
    assert(last_key(t, pb) == st.bg);
}

// ───────────── facts about the ordered attribute lists ─────────────

proof fn lemma_attrs_upto_contains(s: Set<char>, k: nat, c: char)
    requires
        k <= 5,
    ensures
        attrs_upto(s, k).contains(c) <==> (s.contains(c) && exists|j: int|
            0 <= j < k && #[trigger] attr_order()[j] == c),
    decreases k,
{
    if k > 0 {
        lemma_attrs_upto_contains(s, (k - 1) as nat, c);
        let prev = attrs_upto(s, (k - 1) as nat);
        let d = attr_order()[k - 1];
        let tail = if s.contains(d) {
            seq![d]
        } else {
            Seq::<char>::empty()
        };
        assert(attrs_upto(s, k) == prev + tail);
        if (prev + tail).contains(c) {
            let i = choose|i: int| 0 <= i < (prev + tail).len() && (prev + tail)[i] == c;
            if i < prev.len() {
                assert(prev[i] == c);
            } else {
                assert(tail[i - prev.len()] == c);
                assert(attr_order()[k - 1] == c);
            }
        }
        if s.contains(c) && exists|j: int| 0 <= j < k && #[trigger] attr_order()[j] == c {
            let j = choose|j: int| 0 <= j < k && #[trigger] attr_order()[j] == c;
            if j < k - 1 {
                let i = choose|i: int| 0 <= i < prev.len() && prev[i] == c;
                assert((prev + tail)[i] == c);
            } else {
                assert((prev + tail)[prev.len() as int] == c);
            }
        }
    }
}

/// An attribute list holds exactly the attribute keys of its set.
proof fn lemma_sorted_contains(s: Set<char>, c: char)
    ensures
        sorted_attrs(s).contains(c) <==> (ts_attr_key(c) && s.contains(c)),
{
    lemma_attrs_upto_contains(s, 5, c);
    if ts_attr_key(c) {
        if c == '!' {
            assert(attr_order()[0] == c);
        } else if c == '*' {
            assert(attr_order()[1] == c);
        } else if c == '/' {
            assert(attr_order()[2] == c);
        } else if c == 'X' {
            assert(attr_order()[3] == c);
        } else {
            assert(attr_order()[4] == c);
        }
    }
}

proof fn lemma_attrs_upto_same(s1: Set<char>, s2: Set<char>, k: nat)
    requires
        k <= 5,
        forall|c: char| ts_attr_key(c) ==> (s1.contains(c) <==> s2.contains(c)),
    ensures
        attrs_upto(s1, k) == attrs_upto(s2, k),
    decreases k,
{
    if k > 0 {
        lemma_attrs_upto_same(s1, s2, (k - 1) as nat);
        assert(ts_attr_key(attr_order()[k - 1]));
    }
}

/// The set that an attribute list holds.
pub open spec fn list_set(v: Seq<char>) -> Set<char> {
    Set::new(|c: char| v.contains(c))
}

proof fn lemma_list_set_sorted(s: Set<char>)
    ensures
        list_set(sorted_attrs(s)) == attr_part(s),
        sorted_attrs(list_set(sorted_attrs(s))) == sorted_attrs(s),
{
    assert forall|c: char| list_set(sorted_attrs(s)).contains(c) <==> attr_part(s).contains(c) by {
        lemma_sorted_contains(s, c);
    }
    assert(list_set(sorted_attrs(s)) =~= attr_part(s));
    lemma_attrs_upto_same(list_set(sorted_attrs(s)), s, 5);
}

proof fn lemma_attr_part_of_list(v: Seq<char>)
    requires
        v == sorted_attrs(list_set(v)),
    ensures
        attr_part(list_set(v)) == list_set(v),
        sorted_attrs(list_set(v)) == v,
{
    lemma_list_set_sorted(list_set(v));
}

/// Whether `v` holds `c`.
fn list_has(v: &Vec<char>, c: char) -> (r: bool)
    ensures
        r == v@.contains(c),
{
    let mut i: usize = 0;
    while i < v.len()
        invariant
            i <= v@.len(),
            forall|j: int| 0 <= j < i ==> v@[j] != c,
        decreases v.len() - i,
    {
        if v[i] == c {
            return true;
        }
        i = i + 1;
    }
    false
}

/// The attribute keys of `a` and `b` together, ascending.
fn merge_attrs(a: &Vec<char>, b: &Vec<char>) -> (r: Vec<char>)
    ensures
        r@ == sorted_attrs(list_set(a@).union(list_set(b@))),
{
    let ghost s = list_set(a@).union(list_set(b@));
    let order: [char; 5] = ['!', '*', '/', 'X', '_'];
    let mut r: Vec<char> = Vec::new();
    let mut k: usize = 0;
    while k < 5
        invariant
            k <= 5,
            order@ == attr_order(),
            s == list_set(a@).union(list_set(b@)),
            r@ == attrs_upto(s, k as nat),
        decreases 5 - k,
    {
        let c = order[k];
        if list_has(a, c) || list_has(b, c) {
            assert(s.contains(c));
            r.push(c);
        } else {
            assert(!s.contains(c));
        }
        k = k + 1;
        assert(r@ =~= attrs_upto(s, k as nat));
    }
    r
}

fn is_ts_fg(c: char) -> (r: bool)
    ensures
        r == ts_fg_key(c),
{
    c == 'd' || c == 'k' || c == 'r' || c == 'g' || c == 'y' || c == 'b' || c == 'm' || c == 'c'
        || c == 'w'
}

fn is_ts_bg(c: char) -> (r: bool)
    ensures
        r == ts_bg_key(c),
{
    c == 'D' || c == 'K' || c == 'R' || c == 'G' || c == 'Y' || c == 'B' || c == 'M' || c == 'C'
        || c == 'W'
}

fn is_ts_attr(c: char) -> (r: bool)
    ensures
        r == ts_attr_key(c),
{
    c == '*' || c == '_' || c == '/' || c == 'X' || c == '!'
}

/// A style: foreground, background and attributes.
#[derive(Debug)]
pub struct TextStyle {
    fg: Option<char>,
    bg: Option<char>,
    attrs: Vec<char>,
}

impl View for TextStyle {
    type V = TextStyleView;

    closed spec fn view(&self) -> TextStyleView {
        TextStyleView { fg: self.fg, bg: self.bg, attrs: list_set(self.attrs@) }
    }
}

impl TextStyle {
    #[verifier::type_invariant]
    spec fn inv(self) -> bool {
        &&& self.attrs@ == sorted_attrs(list_set(self.attrs@))
        &&& (self.fg matches Some(c) ==> ts_fg_key(c))
        &&& (self.bg matches Some(c) ==> ts_bg_key(c))
    }

    fn make(fg: Option<char>, bg: Option<char>, attrs: Vec<char>, Ghost(s): Ghost<Set<char>>) -> (r: TextStyle)
        requires
            attrs@ == sorted_attrs(s),
            fg matches Some(c) ==> ts_fg_key(c),
            bg matches Some(c) ==> ts_bg_key(c),
        ensures
            r@ == (TextStyleView { fg, bg, attrs: attr_part(s) }),
    {
        proof {
            lemma_list_set_sorted(s);
        }
        TextStyle { fg, bg, attrs }
    }

    /// No colours and no attributes.
    pub fn new() -> (r: TextStyle)
        ensures
            r@ == (TextStyleView { fg: None, bg: None, attrs: Set::empty() }),
    {
        assert(sorted_attrs(Set::<char>::empty()) =~= Seq::<char>::empty()) by {
            reveal_with_fuel(attrs_upto, 6);
        }
        let r = TextStyle::make(None, None, Vec::new(), Ghost(Set::empty()));
        assert(attr_part(Set::<char>::empty()) =~= Set::<char>::empty());
        r
    }

    /// The same colours and no attributes.
    pub fn clear_attrs(&self) -> (r: TextStyle)
        ensures
            r@ == (TextStyleView { fg: self@.fg, bg: self@.bg, attrs: Set::empty() }),
    {
        proof {
            use_type_invariant(self);
        }
        assert(sorted_attrs(Set::<char>::empty()) =~= Seq::<char>::empty()) by {
            reveal_with_fuel(attrs_upto, 6);
        }
        let r = TextStyle::make(self.fg, self.bg, Vec::new(), Ghost(Set::empty()));
        assert(attr_part(Set::<char>::empty()) =~= Set::<char>::empty());
        r
    }

    /// Whether the style has no colour and no attribute.
    pub fn is_plain(&self) -> (r: bool)
        ensures
            r == (self@.fg is None && self@.bg is None && self@.attrs.is_empty()),
    {
        let r = self.fg.is_none() && self.bg.is_none() && self.attrs.len() == 0;
        proof {
            if self.attrs@.len() > 0 {
                assert(self@.attrs.contains(self.attrs@[0]));
            } else {
                assert(self@.attrs =~= Set::<char>::empty());
            }
        }
        r
    }

    /// The keys of the style: foreground, background, then the attributes in
    /// ascending order.
    pub fn to_tag(&self) -> (r: String)
        ensures
            r@ == tag_spec(self@),
    {
        proof {
            use_type_invariant(self);
        }
        let mut out = String::new();
        if let Some(c) = self.fg {
            push_char(&mut out, c);
        }
        if let Some(c) = self.bg {
            push_char(&mut out, c);
        }
        let ghost head = out@;
        let mut i: usize = 0;
        while i < self.attrs.len()
            invariant
                i <= self.attrs@.len(),
                out@ == head + self.attrs@.take(i as int),
            decreases self.attrs.len() - i,
        {
            push_char(&mut out, self.attrs[i]);
            i = i + 1;
            assert(out@ =~= head + self.attrs@.take(i as int));
        }
        assert(self.attrs@.take(self.attrs@.len() as int) =~= self.attrs@);
        assert(out@ =~= tag_spec(self@));
        out
    }

    /// Lays `other` over this style: its colours win where it has them, and
    /// the attributes of both are kept.
    pub fn overlay(&self, other: TextStyleSource) -> (r: TextStyle)
        ensures
            r@ == (TextStyleView {
                fg: match overlay_view(other).fg {
                    Some(c) => Some(c),
                    None => self@.fg,
                },
                bg: match overlay_view(other).bg {
                    Some(c) => Some(c),
                    None => self@.bg,
                },
                attrs: self@.attrs.union(overlay_view(other).attrs),
            }),
    {
        proof {
            use_type_invariant(self);
        }
        let other_style = match other {
            TextStyleSource::Style(style) => style,
            TextStyleSource::Text(text) => parse(text),
        };
        proof {
            use_type_invariant(&other_style);
        }
        let attrs = merge_attrs(&self.attrs, &other_style.attrs);
        let fg = match other_style.fg {
            Some(c) => Some(c),
            None => self.fg,
        };
        let bg = match other_style.bg {
            Some(c) => Some(c),
            None => self.bg,
        };
        let ghost s = list_set(self.attrs@).union(list_set(other_style.attrs@));
        let r = TextStyle::make(fg, bg, attrs, Ghost(s));
        proof {
            assert forall|c: char| attr_part(s).contains(c) <==> s.contains(c) by {
                lemma_sorted_contains(list_set(self.attrs@), c);
                lemma_sorted_contains(list_set(other_style.attrs@), c);
            }
            assert(attr_part(s) =~= s);
        }
        r
    }

    /// The escape sequence of the style: `ESC [`, the codes of its keys
    /// joined by `;`, then `m`; nothing for a plain style.
    pub fn ansi(&self) -> (r: String)
        ensures
            r@ == ansi_spec(self@),
    {
        let tag = self.to_tag();
        let keys = to_chars(tag.as_str());
        if keys.len() == 0 {
            return String::new();
        }
        let mut body = String::new();
        let mut i: usize = 0;
        while i < keys.len()
            invariant
                i <= keys@.len(),
                body@ == joined_codes(keys@.take(i as int)),
            decreases keys.len() - i,
        {
            if i > 0 {
                push_char(&mut body, ';');
            }
            push_key_code(&mut body, keys[i]);
            i = i + 1;
            assert(keys@.take(i as int).drop_last() =~= keys@.take(i - 1));
            if i == 1 {
                assert(keys@.take(1) =~= seq![keys@[0]]);
            }
        }
        assert(keys@.take(keys@.len() as int) =~= keys@);
        let mut out = String::new();
        push_char(&mut out, '\x1b');
        push_char(&mut out, '[');
        push_str(&mut out, body.as_str());
        push_char(&mut out, 'm');
        assert(out@ =~= ansi_spec(self@));
        out
    }
}

impl Clone for TextStyle {
    fn clone(&self) -> (r: Self)
        ensures
            r@ == self@,
    {
        proof {
            use_type_invariant(self);
        }
        TextStyle { fg: self.fg, bg: self.bg, attrs: self.attrs.clone() }
    }
}

/// Appends the SGR code of a key.
fn push_key_code(out: &mut String, c: char)
    ensures
        final(out)@ == old(out)@ + key_code(c),
{
    let ghost o = out@;
    let (a, b): (Option<char>, Option<char>) = match c {
        'k' => (Some('3'), Some('0')),
        'r' => (Some('3'), Some('1')),
        'g' => (Some('3'), Some('2')),
        'y' => (Some('3'), Some('3')),
        'b' => (Some('3'), Some('4')),
        'm' => (Some('3'), Some('5')),
        'c' => (Some('3'), Some('6')),
        'w' => (Some('3'), Some('7')),
        'K' => (Some('4'), Some('0')),
        'R' => (Some('4'), Some('1')),
        'G' => (Some('4'), Some('2')),
        'Y' => (Some('4'), Some('3')),
        'B' => (Some('4'), Some('4')),
        'M' => (Some('4'), Some('5')),
        'C' => (Some('4'), Some('6')),
        'W' => (Some('4'), Some('7')),
        '*' => (Some('1'), None),
        '_' => (Some('4'), None),
        '/' => (Some('3'), None),
        'X' => (Some('7'), None),
        '!' => (Some('9'), None),
        _ => (None, None),
    };
    if let Some(x) = a {
        push_char(out, x);
    }
    if let Some(y) = b {
        push_char(out, y);
    }
    assert(out@ =~= o + key_code(c));
}

/// What a style can be overlaid with: a style, or a string of keys.
pub enum TextStyleSource {
    Style(TextStyle),
    Text(String),
}

/// The style that an overlay source stands for.
pub open spec fn overlay_view(src: TextStyleSource) -> TextStyleView {
    match src {
        TextStyleSource::Style(s) => s@,
        TextStyleSource::Text(t) => parse_spec(t@),
    }
}

impl From<TextStyle> for TextStyleSource {
    fn from(value: TextStyle) -> (r: Self) {
        TextStyleSource::Style(value)
    }
}

impl vstd::std_specs::convert::FromSpecImpl<TextStyle> for TextStyleSource {
    open spec fn obeys_from_spec() -> bool {
        true
    }

    open spec fn from_spec(v: TextStyle) -> Self {
        TextStyleSource::Style(v)
    }
}

impl From<String> for TextStyleSource {
    fn from(value: String) -> (r: Self) {
        TextStyleSource::Text(value)
    }
}

impl vstd::std_specs::convert::FromSpecImpl<String> for TextStyleSource {
    open spec fn obeys_from_spec() -> bool {
        true
    }

    open spec fn from_spec(v: String) -> Self {
        TextStyleSource::Text(v)
    }
}

proof fn lemma_last_key_push(s: Seq<char>, c: char, p: spec_fn(char) -> bool)
    ensures
        last_key(s.push(c), p) == if p(c) {
            Some(c)
        } else {
            last_key(s, p)
        },
{
    assert(s.push(c).drop_last() =~= s);
}

/// Reads a string of style keys: the last foreground and background keys
/// win (`d` and `D`, the default colours, leave none), every attribute key
/// is kept, other characters are ignored.
pub fn parse(style: String) -> (r: TextStyle)
    ensures
        r@ == parse_spec(style@),
{
    let v = to_chars(style.as_str());
    let mut fg: Option<char> = None;
    let mut bg: Option<char> = None;
    let mut seen: Vec<char> = Vec::new();
    let ghost pf = |c: char| ts_fg_key(c);
    let ghost pb = |c: char| ts_bg_key(c);
    let mut i: usize = 0;
    while i < v.len()
        invariant
            v@ == style@,
            i <= v@.len(),
            fg == last_key(v@.take(i as int), pf),
            bg == last_key(v@.take(i as int), pb),
            pf == (|c: char| ts_fg_key(c)),
            pb == (|c: char| ts_bg_key(c)),
            forall|c: char| #[trigger] seen@.contains(c) <==> (ts_attr_key(c) && v@.take(i as int).contains(c)),
        decreases v.len() - i,
    {
        let c = v[i];
        proof {
            assert(v@.take(i + 1) =~= v@.take(i as int).push(c));
            lemma_last_key_push(v@.take(i as int), c, pf);
            lemma_last_key_push(v@.take(i as int), c, pb);
        }
        let ghost before = seen@;
        let ghost t0 = v@.take(i as int);
        if is_ts_fg(c) {
            fg = Some(c);
        } else if is_ts_bg(c) {
            bg = Some(c);
        } else if is_ts_attr(c) {
            seen.push(c);
        }
        i = i + 1;
        proof {
            broadcast use vstd::seq_lib::lemma_seq_contains_after_push;
            let t = v@.take(i as int);
            assert(t =~= t0.push(c));
            if !ts_fg_key(c) && !ts_bg_key(c) && ts_attr_key(c) {
                assert(seen@ == before.push(c));
            } else {
                assert(seen@ == before);
            }
            assert forall|x: char| seen@.contains(x) <==> (ts_attr_key(x) && t.contains(x)) by {
                assert(t.contains(x) <==> (t0.contains(x) || x == c));
                assert(before.contains(x) <==> (ts_attr_key(x) && t0.contains(x)));
                if !ts_fg_key(c) && !ts_bg_key(c) && ts_attr_key(c) {
                    assert(seen@.contains(x) <==> (before.contains(x) || x == c));
                }
            }
        }
    }
    assert(v@.take(v@.len() as int) =~= v@);
    let empty: Vec<char> = Vec::new();
    let attrs = merge_attrs(&seen, &empty);
    let fg = match fg {
        Some('d') => None,
        other => other,
    };
    let bg = match bg {
        Some('D') => None,
        other => other,
    };
    proof {
        if let Some(c) = last_key(v@, pf) {
            lemma_last_key_holds(v@, pf);
        }
        if let Some(c) = last_key(v@, pb) {
            lemma_last_key_holds(v@, pb);
        }
    }
    let ghost s = list_set(seen@).union(list_set(empty@));
    let r = TextStyle::make(fg, bg, attrs, Ghost(s));
    proof {
        assert forall|c: char| attr_part(s).contains(c) <==> attr_part(style@.to_set()).contains(c) by {
            assert(style@.to_set().contains(c) <==> style@.contains(c));
        }
        assert(attr_part(s) =~= attr_part(style@.to_set()));
    }
    r
}

proof fn lemma_last_key_holds(s: Seq<char>, p: spec_fn(char) -> bool)
    ensures
        last_key(s, p) matches Some(c) ==> p(c),
    decreases s.len(),
{
    if s.len() > 0 && !p(s.last()) {
        lemma_last_key_holds(s.drop_last(), p);
    }
}

/// The key that an SGR code selects, if any.
fn code_key_exec(code: &str) -> (r: Option<char>)
    ensures
        r == code_key(code@),
{
    let v = to_chars(code);
    if v.len() == 0 {
        Some('d')
    } else if v.len() == 1 {
        match v[0] {
            '1' => Some('*'),
            '4' => Some('_'),
            '3' => Some('/'),
            '7' => Some('X'),
            '9' => Some('!'),
            _ => None,
        }
    } else if v.len() == 2 && (v[0] == '3' || v[0] == '4') {
        let fg = v[0] == '3';
        let pair: Option<(char, char)> = match v[1] {
            '0' => Some(('k', 'K')),
            '1' => Some(('r', 'R')),
            '2' => Some(('g', 'G')),
            '3' => Some(('y', 'Y')),
            '4' => Some(('b', 'B')),
            '5' => Some(('m', 'M')),
            '6' => Some(('c', 'C')),
            '7' => Some(('w', 'W')),
            _ => None,
        };
        match pair {
            Some((f, b)) => Some(if fg { f } else { b }),
            None => None,
        }
    } else {
        None
    }
}

/// Applies SGR codes in order to `base` (or to the plain style): `0`
/// resets everything, colour codes set a colour (the empty code selects
/// the default foreground `d`), attribute codes add an attribute, other
/// codes are ignored.
pub fn from_ansi_codes(codes: Vec<String>, base: Option<&TextStyle>) -> (r: TextStyle)
    ensures
        r@ == codes_apply(
            match base {
                Some(b) => b@,
                None => TextStyleView { fg: None, bg: None, attrs: Set::empty() },
            },
            Seq::new(codes@.len(), |i: int| codes@[i]@),
        ),
{
    let mut st = match base {
        Some(b) => b.clone(),
        None => TextStyle::new(),
    };
    let ghost cv = Seq::new(codes@.len(), |i: int| codes@[i]@);
    let ghost start = st@;
    let mut i: usize = 0;
    while i < codes.len()
        invariant
            i <= codes@.len(),
            cv == Seq::new(codes@.len(), |i: int| codes@[i]@),
            st@ == codes_apply(start, cv.take(i as int)),
        decreases codes.len() - i,
    {
        proof {
            use_type_invariant(&st);
        }
        let code = codes[i].as_str();
        let v = to_chars(code);
        let is_reset = v.len() == 1 && v[0] == '0';
        proof {
            assert(cv.take(i + 1).drop_last() =~= cv.take(i as int));
            assert(cv[i as int] == code@);
            if code@ == seq!['0'] {
                assert(is_reset);
            }
            if is_reset {
                assert(code@ =~= seq!['0']);
            }
        }
        if is_reset {
            st = TextStyle::new();
        } else {
            match code_key_exec(code) {
                Some(k) => {
                    if is_ts_fg(k) {
                        let ghost s = list_set(st.attrs@);
                        proof {
                            lemma_attr_part_of_list(st.attrs@);
                        }
                        let attrs = st.attrs.clone();
                        assert(attrs@ == st.attrs@);
                        st = TextStyle::make(Some(k), st.bg, attrs, Ghost(s));
                    } else if is_ts_bg(k) {
                        let ghost s = list_set(st.attrs@);
                        proof {
                            lemma_attr_part_of_list(st.attrs@);
                        }
                        let attrs = st.attrs.clone();
                        assert(attrs@ == st.attrs@);
                        st = TextStyle::make(st.fg, Some(k), attrs, Ghost(s));
                    } else {
                        let one: Vec<char> = vec![k];
                        let ghost old_list = st.attrs@;
                        proof {
                            lemma_attr_part_of_list(old_list);
                        }
                        let attrs = merge_attrs(&st.attrs, &one);
                        let ghost s = list_set(st.attrs@).union(list_set(one@));
                        let ghost old_set = st@.attrs;
                        st = TextStyle::make(st.fg, st.bg, attrs, Ghost(s));
                        proof {
                            assert(ts_attr_key(k));
                            assert(one@ == seq![k]);
                            assert forall|c: char| attr_part(s).contains(c) <==> old_set.insert(k).contains(c) by {
                                if one@.contains(c) {
                                    let j = choose|j: int| 0 <= j < one@.len() && one@[j] == c;
                                }
                                if c == k {
                                    assert(one@[0] == k);
                                }
                                assert(list_set(old_list).contains(c) ==> attr_part(list_set(old_list)).contains(c));
                            }
                            assert(attr_part(s) =~= old_set.insert(k));
                        }
                    }
                },
                None => {},
            }
        }
        i = i + 1;
    }
    assert(cv.take(cv.len() as int) =~= cv);
    st
}

} // verus!
