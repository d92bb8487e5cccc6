//! Rich text: a sequence of styled runs, with a template mini-language and
//! three render modes.
//!
//! A style is a string of style keys: foreground colours `krgybmcw`,
//! background colours `KRGYBMCW` and attributes `*_/~!`.  An [`RText`] keeps
//! its runs canonical: every style is normalized, no run is empty and no two
//! neighbouring runs share a style.  Its meaning is its sequence of cells,
//! each cell a character paired with the style it is shown in.

use crate::chars::{char_string, contains_char, copy_string, push_char, push_str, str_equal, string_from_chars, string_from_range, to_chars};
use crate::unicode::{all_ascii, ascii_lower, ascii_upper, char_width, lower_form, to_lower, to_upper, unicode_char_width, upper_form};
use crate::text::{bg_keys, fg_keys, sgr_code, sgr_digits};
use vstd::prelude::*;

verus! {

// ───────────────────────── styles ─────────────────────────

/// A style: its foreground key, background key and attribute keys.
pub type StyleState = (Option<char>, Option<char>, Seq<char>);

pub open spec fn fg_key(c: char) -> bool {
    c == 'k' || c == 'r' || c == 'g' || c == 'y' || c == 'b' || c == 'm' || c == 'c' || c == 'w'
}

pub open spec fn bg_key(c: char) -> bool {
    c == 'K' || c == 'R' || c == 'G' || c == 'Y' || c == 'B' || c == 'M' || c == 'C' || c == 'W'
}

pub open spec fn attr_key(c: char) -> bool {
    c == '*' || c == '_' || c == '/' || c == '~' || c == '!'
}

/// Reading one more key: a colour replaces the colour of its kind, a new
/// attribute is added once, anything else is ignored.
pub open spec fn scan_step(st: StyleState, c: char) -> StyleState {
    if fg_key(c) {
        (Some(c), st.1, st.2)
    } else if bg_key(c) {
        (st.0, Some(c), st.2)
    } else if attr_key(c) && !st.2.contains(c) {
        (st.0, st.1, st.2.push(c))
    } else {
        st
    }
}

/// The style that a string of keys describes, read from left to right.
pub open spec fn scan_style(s: Seq<char>) -> StyleState
    decreases s.len(),
{
    if s.len() == 0 {
        (None, None, Seq::empty())
    } else {
        scan_step(scan_style(s.drop_last()), s.last())
    }
}

pub open spec fn opt_key(o: Option<char>) -> Seq<char> {
    match o {
        Some(c) => seq![c],
        None => Seq::empty(),
    }
}

/// The normal form of a style: attributes in order of first appearance, then
/// the last foreground key, then the last background key.
pub open spec fn normalized(s: Seq<char>) -> Seq<char> {
    let st = scan_style(s);
    st.2 + opt_key(st.0) + opt_key(st.1)
}

/// A style laid over another: foreground and background keys first, then the
/// attributes.
pub open spec fn combined(base: Seq<char>, overlay: Seq<char>) -> Seq<char> {
    let st = scan_style(base + overlay);
    opt_key(st.0) + opt_key(st.1) + st.2
}

/// What every style reading yields: attribute keys without repeats and
/// colour keys of the right kind.
pub open spec fn scan_ok(st: StyleState) -> bool {
    &&& st.2.no_duplicates()
    &&& forall|i: int| 0 <= i < st.2.len() ==> attr_key(#[trigger] st.2[i])
    &&& st.0 matches Some(c) ==> fg_key(c)
    &&& st.1 matches Some(c) ==> bg_key(c)
}

proof fn lemma_scan_push(x: Seq<char>, c: char)
    ensures
        scan_style(x.push(c)) == scan_step(scan_style(x), c),
{
    assert(x.push(c).drop_last() =~= x);
}

proof fn lemma_scan_ok(s: Seq<char>)
    ensures
        scan_ok(scan_style(s)),
    decreases s.len(),
{
    if s.len() > 0 {
        lemma_scan_ok(s.drop_last());
        let st = scan_style(s.drop_last());
        let c = s.last();
        if !fg_key(c) && !bg_key(c) && attr_key(c) && !st.2.contains(c) {
            let n = st.2.push(c);
            assert forall|i: int, j: int| 0 <= i < n.len() && 0 <= j < n.len() && i != j implies n[i]
                != n[j] by {
                if i == st.2.len() as int {
                    assert(n[j] == st.2[j]);
                } else if j == st.2.len() as int {
                    assert(n[i] == st.2[i]);
                }
            }
        }
    }
}

/// Reading a run of distinct attribute keys yields exactly those attributes.
proof fn lemma_scan_attrs(a: Seq<char>)
    requires
        a.no_duplicates(),
        forall|i: int| 0 <= i < a.len() ==> attr_key(#[trigger] a[i]),
    ensures
        scan_style(a) == (None::<char>, None::<char>, a),
    decreases a.len(),
{
    if a.len() > 0 {
        let p = a.drop_last();
        assert forall|i: int| 0 <= i < p.len() implies attr_key(#[trigger] p[i]) by {
            assert(p[i] == a[i]);
        }
        lemma_scan_attrs(p);
        assert(!p.contains(a.last())) by {
            if p.contains(a.last()) {
                let k = choose|k: int| 0 <= k < p.len() && p[k] == a.last();
                assert(a[k] == a[a.len() - 1]);
            }
        }
        assert(attr_key(a[a.len() - 1]));
        assert(p.push(a.last()) =~= a);
    }
}

/// Normalizing a normalized style changes nothing.
pub proof fn lemma_normalized_idempotent(s: Seq<char>)
    ensures
        normalized(normalized(s)) == normalized(s),
{
    let st = scan_style(s);
    lemma_scan_ok(s);
    lemma_scan_attrs(st.2);
    let a = st.2;
    let af = a + opt_key(st.0);
    match st.0 {
        Some(f) => {
            assert(a.push(f) =~= af);
            lemma_scan_push(a, f);
        },
        None => {
            assert(a =~= af);
        },
    }
    assert(scan_style(af) == (st.0, None::<char>, a));
    let all = af + opt_key(st.1);
    match st.1 {
        Some(b) => {
            assert(af.push(b) =~= all);
            lemma_scan_push(af, b);
        },
        None => {
            assert(af =~= all);
        },
    }
    assert(scan_style(all) == st);
}

fn is_fg(c: char) -> (r: bool)
    ensures
        r == fg_key(c),
{
    c == 'k' || c == 'r' || c == 'g' || c == 'y' || c == 'b' || c == 'm' || c == 'c' || c == 'w'
}

fn is_bg(c: char) -> (r: bool)
    ensures
        r == bg_key(c),
{
    c == 'K' || c == 'R' || c == 'G' || c == 'Y' || c == 'B' || c == 'M' || c == 'C' || c == 'W'
}

fn is_attr(c: char) -> (r: bool)
    ensures
        r == attr_key(c),
{
    c == '*' || c == '_' || c == '/' || c == '~' || c == '!'
}

/// Reads the keys of `v` after a style already read from `prefix`.
fn scan_more(
    fg: &mut Option<char>,
    bg: &mut Option<char>,
    attr: &mut Vec<char>,
    v: &Vec<char>,
    Ghost(prefix): Ghost<Seq<char>>,
)
    requires
        (*old(fg), *old(bg), old(attr)@) == scan_style(prefix),
    ensures
        (*final(fg), *final(bg), final(attr)@) == scan_style(prefix + v@),
{
    let ghost all = prefix + v@;
    let mut i: usize = 0;
    assert(all.take(prefix.len() as int) =~= prefix);
    while i < v.len()
        invariant
            all == prefix + v@,
            i <= v@.len(),
            (*fg, *bg, attr@) == scan_style(all.take(prefix.len() + i as int)),
        decreases v.len() - i,
    {
        let c = v[i];
        assert(c == all[prefix.len() + i]);
        assert(all.take(prefix.len() + i + 1).drop_last() =~= all.take(prefix.len() + i));
        if is_fg(c) {
            *fg = Some(c);
        } else if is_bg(c) {
            *bg = Some(c);
        } else if is_attr(c) && !contains_char(attr, c) {
            attr.push(c);
        }
        i = i + 1;
    }
    assert(all.take(all.len() as int) =~= all);
}

/// Reads the keys of `a` and then of `b`.
fn scan_keys(a: &str, b: &str) -> (r: (Option<char>, Option<char>, Vec<char>))
    ensures
        (r.0, r.1, r.2@) == scan_style(a@ + b@),
{
    let va = to_chars(a);
    let vb = to_chars(b);
    let mut fg: Option<char> = None;
    let mut bg: Option<char> = None;
    let mut attr: Vec<char> = Vec::new();
    assert(Seq::<char>::empty() + a@ =~= a@);
    scan_more(&mut fg, &mut bg, &mut attr, &va, Ghost(Seq::empty()));
    scan_more(&mut fg, &mut bg, &mut attr, &vb, Ghost(a@));
    (fg, bg, attr)
}

/// Normalizes a style: attributes in order of first appearance, then the last
/// foreground key, then the last background key; other characters are dropped.
pub fn normalize_style(style: &str) -> (r: String)
    ensures
        r@ == normalized(style@),
{
    let (fg, bg, attr) = scan_keys(style, "");
    assert(style@ + ""@ =~= style@) by {
        reveal_strlit("");
    }
    let mut out = string_from_chars(&attr);
    if let Some(c) = fg {
        push_char(&mut out, c);
    }
    if let Some(c) = bg {
        push_char(&mut out, c);
    }
    proof {
        assert(opt_key(None) =~= Seq::<char>::empty());
        assert(out@ =~= normalized(style@));
    }
    out
}

/// Lays `overlay` over `base`: the later colour of each kind wins and the
/// attributes of both are kept; foreground and background come first.
fn combine_styles(base: &str, overlay: &str) -> (r: String)
    ensures
        r@ == combined(base@, overlay@),
{
    let (fg, bg, attr) = scan_keys(base, overlay);
    let mut out = String::new();
    if let Some(c) = fg {
        push_char(&mut out, c);
    }
    if let Some(c) = bg {
        push_char(&mut out, c);
    }
    let rest = string_from_chars(&attr);
    out.append(rest.as_str());
    proof {
        assert(opt_key(None) =~= Seq::<char>::empty());
        assert(out@ =~= combined(base@, overlay@));
    }
    out
}

} // verus!

verus! {

// ───────────────────────── runs and cells ─────────────────────────

/// A run: its style and its text.
pub type Run = (String, String);

/// A cell: a character and the style it is shown in.
pub type Cell = (char, Seq<char>);

/// The abstract value of a list of runs.
pub open spec fn runs_view(v: Seq<Run>) -> Seq<(Seq<char>, Seq<char>)> {
    Seq::new(v.len(), |i: int| (v[i].0@, v[i].1@))
}

/// The cells of one run.
pub open spec fn run_cells(style: Seq<char>, text: Seq<char>) -> Seq<Cell> {
    Seq::new(text.len(), |i: int| (text[i], style))
}

/// The cells of a list of runs, in order.
pub open spec fn cells_of(runs: Seq<(Seq<char>, Seq<char>)>) -> Seq<Cell>
    decreases runs.len(),
{
    if runs.len() == 0 {
        Seq::empty()
    } else {
        cells_of(runs.drop_last()) + run_cells(runs.last().0, runs.last().1)
    }
}

/// The characters of a list of cells.
pub open spec fn cell_chars(cs: Seq<Cell>) -> Seq<char> {
    Seq::new(cs.len(), |i: int| cs[i].0)
}

/// The same runs, each style normalized.
pub open spec fn normalize_runs(runs: Seq<(Seq<char>, Seq<char>)>) -> Seq<(Seq<char>, Seq<char>)> {
    Seq::new(runs.len(), |i: int| (normalized(runs[i].0), runs[i].1))
}

/// Canonical runs: normalized styles, no empty run, and no two neighbours
/// sharing a style.
pub open spec fn runs_wf(runs: Seq<(Seq<char>, Seq<char>)>) -> bool {
    &&& forall|i: int| 0 <= i < runs.len() ==> (#[trigger] runs[i]).1.len() > 0
    &&& forall|i: int| 0 <= i < runs.len() ==> normalized((#[trigger] runs[i]).0) == runs[i].0
    &&& forall|i: int, j: int|
        0 <= i && j == i + 1 && j < runs.len() ==> (#[trigger] runs[i]).0 != (#[trigger] runs[j]).0
}

/// The cells of a run of two texts are the cells of each, in order.
pub proof fn lemma_run_cells_add(style: Seq<char>, a: Seq<char>, b: Seq<char>)
    ensures
        run_cells(style, a + b) == run_cells(style, a) + run_cells(style, b),
{
    assert(run_cells(style, a + b) =~= run_cells(style, a) + run_cells(style, b));
}

/// Adding a run adds its cells at the end.
pub proof fn lemma_cells_push(runs: Seq<(Seq<char>, Seq<char>)>, r: (Seq<char>, Seq<char>))
    ensures
        cells_of(runs.push(r)) == cells_of(runs) + run_cells(r.0, r.1),
{
    assert(runs.push(r).drop_last() =~= runs);
}

/// The cells of two lists of runs, one after the other, are the cells of
/// each, in order.
pub proof fn lemma_cells_concat(a: Seq<(Seq<char>, Seq<char>)>, b: Seq<(Seq<char>, Seq<char>)>)
    ensures
        cells_of(a + b) == cells_of(a) + cells_of(b),
    decreases b.len(),
{
    if b.len() == 0 {
        assert(a + b =~= a);
        assert(cells_of(b) =~= Seq::<Cell>::empty());
        assert(cells_of(a) + cells_of(b) =~= cells_of(a));
    } else {
        lemma_cells_concat(a, b.drop_last());
        assert((a + b).drop_last() =~= a + b.drop_last());
        assert((a + b).last() == b.last());
        assert(cells_of(a + b) =~= cells_of(a) + cells_of(b));
    }
}

/// The characters of two lists of cells are the characters of each, in
/// order.
pub proof fn lemma_cell_chars_add(a: Seq<Cell>, b: Seq<Cell>)
    ensures
        cell_chars(a + b) == cell_chars(a) + cell_chars(b),
{
    assert(cell_chars(a + b) =~= cell_chars(a) + cell_chars(b));
}

/// The characters of a run's cells are its text.
pub proof fn lemma_cell_chars_run(style: Seq<char>, text: Seq<char>)
    ensures
        cell_chars(run_cells(style, text)) == text,
{
    assert(cell_chars(run_cells(style, text)) =~= text);
}

proof fn lemma_runs_view_push(v: Seq<Run>, r: Run)
    ensures
        runs_view(v.push(r)) == runs_view(v).push((r.0@, r.1@)),
{
    assert(runs_view(v.push(r)) =~= runs_view(v).push((r.0@, r.1@)));
}

/// Adds `text` in `style` at the end of canonical runs, keeping them canonical.
pub(crate) fn push_text(v: &mut Vec<Run>, style: &String, text: &str)
    requires
        runs_wf(runs_view(old(v)@)),
        normalized(style@) == style@,
    ensures
        runs_wf(runs_view(final(v)@)),
        cells_of(runs_view(final(v)@)) == cells_of(runs_view(old(v)@)) + run_cells(style@, text@),
{
    let ghost old_runs = runs_view(v@);
    if text.is_empty() {
        assert(run_cells(style@, text@) =~= Seq::<Cell>::empty());
        assert(cells_of(old_runs) + run_cells(style@, text@) =~= cells_of(old_runs));
        return;
    }
    let n = v.len();
    if n > 0 && v[n - 1].0 == *style {
        let (s, mut t) = v.pop().unwrap();
        let ghost base = v@;
        let ghost t0 = t@;
        push_str(&mut t, text);
        v.push((s, t));
        proof {
            assert(old_runs =~= runs_view(base).push((s@, t0)));
            lemma_runs_view_push(base, (s, t));
            lemma_cells_push(runs_view(base), (s@, t0));
            lemma_cells_push(runs_view(base), (s@, t0 + text@));
            lemma_run_cells_add(s@, t0, text@);
            let nr = runs_view(v@);
            assert forall|i: int| 0 <= i < nr.len() implies (#[trigger] nr[i]).1.len() > 0 by {
                if i < nr.len() - 1 {
                    assert(nr[i] == old_runs[i]);
                }
            }
            assert forall|i: int| 0 <= i < nr.len() implies normalized((#[trigger] nr[i]).0)
                == nr[i].0 by {
                assert(nr[i].0 == old_runs[i].0);
            }
            assert forall|i: int, j: int|
                0 <= i && j == i + 1 && j < nr.len() implies (#[trigger] nr[i]).0 != (
                #[trigger] nr[j]).0 by {
                assert(nr[i].0 == old_runs[i].0);
                assert(nr[j].0 == old_runs[j].0);
            }
        }
    } else {
        let ghost base = v@;
        v.push((copy_string(style), text.to_string()));
        proof {
            let r = v@[v@.len() - 1];
            assert(v@ == base.push(r));
            lemma_runs_view_push(base, r);
            lemma_cells_push(old_runs, (r.0@, r.1@));
            let nr = runs_view(v@);
            assert forall|i: int| 0 <= i < nr.len() implies (#[trigger] nr[i]).1.len() > 0 by {
                if i < nr.len() - 1 {
                    assert(nr[i] == old_runs[i]);
                }
            }
            assert forall|i: int| 0 <= i < nr.len() implies normalized((#[trigger] nr[i]).0)
                == nr[i].0 by {
                if i < nr.len() - 1 {
                    assert(nr[i] == old_runs[i]);
                }
            }
            assert forall|i: int, j: int|
                0 <= i && j == i + 1 && j < nr.len() implies (#[trigger] nr[i]).0 != (
                #[trigger] nr[j]).0 by {
                if j < nr.len() - 1 {
                    assert(nr[i] == old_runs[i]);
                    assert(nr[j] == old_runs[j]);
                }
            }
        }
    }
}

/// Adds one character in `style` at the end of canonical runs.
fn push_cell(v: &mut Vec<Run>, style: &String, c: char)
    requires
        runs_wf(runs_view(old(v)@)),
        normalized(style@) == style@,
    ensures
        runs_wf(runs_view(final(v)@)),
        cells_of(runs_view(final(v)@)) == cells_of(runs_view(old(v)@)).push((c, style@)),
{
    let s = char_string(c);
    push_text(v, style, s.as_str());
    assert(run_cells(style@, seq![c]) =~= seq![(c, style@)]);
}

} // verus!

verus! {

// ───────────────────────── RText ─────────────────────────

/// Rich text: canonical runs of styled text.
#[derive(Debug)]
pub struct RText {
    runs: Vec<Run>,
}

impl View for RText {
    type V = Seq<(Seq<char>, Seq<char>)>;

    closed spec fn view(&self) -> Seq<(Seq<char>, Seq<char>)> {
        runs_view(self.runs@)
    }
}

/// The cells of several texts, one after another.
pub open spec fn cells_concat(ts: Seq<Seq<(Seq<char>, Seq<char>)>>) -> Seq<Cell>
    decreases ts.len(),
{
    if ts.len() == 0 {
        Seq::empty()
    } else {
        cells_concat(ts.drop_last()) + cells_of(ts.last())
    }
}

/// The abstract values of a list of texts.
pub open spec fn texts_view(ts: Seq<RText>) -> Seq<Seq<(Seq<char>, Seq<char>)>> {
    Seq::new(ts.len(), |i: int| ts[i]@)
}

/// The cells of texts joined by the cells of a separator.
pub open spec fn cells_join(ts: Seq<Seq<(Seq<char>, Seq<char>)>>, sep: Seq<Cell>) -> Seq<Cell>
    decreases ts.len(),
{
    if ts.len() == 0 {
        Seq::empty()
    } else if ts.len() == 1 {
        cells_of(ts[0])
    } else {
        cells_join(ts.drop_last(), sep) + sep + cells_of(ts.last())
    }
}

proof fn lemma_take_push<A>(s: Seq<A>, i: int)
    requires
        0 <= i < s.len(),
    ensures
        s.take(i + 1) == s.take(i).push(s[i]),
{
    assert(s.take(i + 1) =~= s.take(i).push(s[i]));
}

impl RText {
    #[verifier::type_invariant]
    spec fn inv(self) -> bool {
        runs_wf(runs_view(self.runs@))
    }

    /// Adds the runs of `t` at the end of canonical runs.
    fn push_runs(v: &mut Vec<Run>, t: &RText)
        requires
            runs_wf(runs_view(old(v)@)),
        ensures
            runs_wf(runs_view(final(v)@)),
            cells_of(runs_view(final(v)@)) == cells_of(runs_view(old(v)@)) + cells_of(t@),
    {
        proof {
            use_type_invariant(t);
        }
        let ghost base = cells_of(runs_view(v@));
        let mut j: usize = 0;
        assert(runs_view(t.runs@).take(0) =~= Seq::<(Seq<char>, Seq<char>)>::empty());
        while j < t.runs.len()
            invariant
                runs_wf(runs_view(t.runs@)),
                j <= t.runs@.len(),
                runs_wf(runs_view(v@)),
                cells_of(runs_view(v@)) == base + cells_of(runs_view(t.runs@).take(j as int)),
            decreases t.runs.len() - j,
        {
            let ghost tv = runs_view(t.runs@);
            assert(tv[j as int] == (t.runs@[j as int].0@, t.runs@[j as int].1@));
            push_text(v, &t.runs[j].0, t.runs[j].1.as_str());
            proof {
                lemma_take_push(tv, j as int);
                lemma_cells_push(tv.take(j as int), tv[j as int]);
            }
            j = j + 1;
        }
        assert(runs_view(t.runs@).take(t.runs@.len() as int) =~= runs_view(t.runs@));
    }

    /// The empty text.
    pub fn new() -> (r: RText)
        ensures
            runs_wf(r@),
            r@ == Seq::<(Seq<char>, Seq<char>)>::empty(),
    {
        let r = RText { runs: Vec::new() };
        assert(r@ =~= Seq::<(Seq<char>, Seq<char>)>::empty());
        r
    }

    /// `text` in the normalized `style`; the empty text when `text` is empty.
    pub fn styled(text: &str, style: &str) -> (r: RText)
        ensures
            runs_wf(r@),
            text@.len() == 0 ==> r@ == Seq::<(Seq<char>, Seq<char>)>::empty(),
            text@.len() > 0 ==> r@ == seq![(normalized(style@), text@)],
    {
        let st = normalize_style(style);
        if text.is_empty() {
            return RText::new();
        }
        proof {
            lemma_normalized_idempotent(style@);
        }
        let style = st;
        let mut v: Vec<Run> = Vec::new();
        v.push((style, text.to_string()));
        assert(runs_view(v@) =~= seq![(style@, text@)]);
        let r = RText { runs: v };
        assert(r@ =~= seq![(normalized(style@), text@)]);
        r
    }

    /// Unstyled text.
    pub fn plain_text(text: &str) -> (r: RText)
        ensures
            runs_wf(r@),
            text@.len() == 0 ==> r@ == Seq::<(Seq<char>, Seq<char>)>::empty(),
            text@.len() > 0 ==> r@ == seq![(normalized(""@), text@)],
    {
        RText::styled(text, "")
    }

    /// `text` in `style` (arguments in the other order than [`RText::styled`]).
    pub fn run(style: &str, text: &str) -> (r: RText)
        ensures
            runs_wf(r@),
            text@.len() == 0 ==> r@ == Seq::<(Seq<char>, Seq<char>)>::empty(),
            text@.len() > 0 ==> r@ == seq![(normalized(style@), text@)],
    {
        RText::styled(text, style)
    }

    /// The canonical text of any runs: styles normalized, empty runs dropped
    /// and neighbours of one style merged.
    pub fn from_runs(runs: Vec<Run>) -> (r: RText)
        ensures
            runs_wf(r@),
            cells_of(r@) == cells_of(normalize_runs(runs_view(runs@))),
    {
        let mut merged: Vec<Run> = Vec::new();
        let mut i: usize = 0;
        assert(normalize_runs(runs_view(runs@.take(0))) =~= Seq::<(Seq<char>, Seq<char>)>::empty());
        assert(runs_view(merged@) =~= Seq::<(Seq<char>, Seq<char>)>::empty());
        while i < runs.len()
            invariant
                i <= runs@.len(),
                runs_wf(runs_view(merged@)),
                cells_of(runs_view(merged@)) == cells_of(normalize_runs(runs_view(runs@.take(i as int)))),
            decreases runs.len() - i,
        {
            let st = normalize_style(runs[i].0.as_str());
            proof {
                lemma_normalized_idempotent(runs@[i as int].0@);
            }
            push_text(&mut merged, &st, runs[i].1.as_str());
            proof {
                let a = normalize_runs(runs_view(runs@.take(i as int)));
                let b = normalize_runs(runs_view(runs@.take(i + 1)));
                assert(b =~= a.push((normalized(runs@[i as int].0@), runs@[i as int].1@)));
                lemma_cells_push(a, (normalized(runs@[i as int].0@), runs@[i as int].1@));
            }
            i = i + 1;
        }
        assert(runs@.take(runs@.len() as int) =~= runs@);
        RText { runs: merged }
    }

    /// The texts one after another.
    pub fn concat(texts: Vec<RText>) -> (r: RText)
        ensures
            runs_wf(r@),
            cells_of(r@) == cells_concat(texts_view(texts@)),
    {
        let mut merged: Vec<Run> = Vec::new();
        let mut i: usize = 0;
        assert(texts_view(texts@).take(0) =~= Seq::<Seq<(Seq<char>, Seq<char>)>>::empty());
        assert(runs_view(merged@) =~= Seq::<(Seq<char>, Seq<char>)>::empty());
        while i < texts.len()
            invariant
                i <= texts@.len(),
                runs_wf(runs_view(merged@)),
                cells_of(runs_view(merged@)) == cells_concat(texts_view(texts@).take(i as int)),
            decreases texts.len() - i,
        {
            RText::push_runs(&mut merged, &texts[i]);
            proof {
                let tv = texts_view(texts@);
                lemma_take_push(tv, i as int);
                assert(tv.take(i + 1).drop_last() =~= tv.take(i as int));
                assert(tv.take(i + 1).last() == texts@[i as int]@);
            }
            i = i + 1;
        }
        assert(texts_view(texts@).take(texts@.len() as int) =~= texts_view(texts@));
        RText { runs: merged }
    }

    /// The texts with `sep` between each two of them.
    pub fn join(texts: Vec<RText>, sep: &RText) -> (r: RText)
        ensures
            runs_wf(r@),
            cells_of(r@) == cells_join(texts_view(texts@), cells_of(sep@)),
            texts@.len() == 0 ==> r@ == Seq::<(Seq<char>, Seq<char>)>::empty(),
            texts@.len() == 1 ==> r@ == texts@[0]@,
    {
        if texts.len() == 0 {
            return RText::new();
        }
        let first = &texts[0];
        proof {
            use_type_invariant(first);
        }
        let mut merged: Vec<Run> = Vec::new();
        assert(runs_view(merged@) =~= Seq::<(Seq<char>, Seq<char>)>::empty());
        RText::push_runs(&mut merged, &texts[0]);
        let mut i: usize = 1;
        proof {
            let tv = texts_view(texts@);
            assert(tv.take(1).drop_last() =~= Seq::<Seq<(Seq<char>, Seq<char>)>>::empty());
            assert(tv.take(1)[0] == tv[0]);
        }
        while i < texts.len()
            invariant
                1 <= i <= texts@.len(),
                runs_wf(runs_view(merged@)),
                cells_of(runs_view(merged@)) == cells_join(texts_view(texts@).take(i as int), cells_of(sep@)),
            decreases texts.len() - i,
        {
            RText::push_runs(&mut merged, sep);
            RText::push_runs(&mut merged, &texts[i]);
            proof {
                let tv = texts_view(texts@);
                lemma_take_push(tv, i as int);
                assert(tv.take(i + 1).drop_last() =~= tv.take(i as int));
                assert(tv.take(i + 1).last() == texts@[i as int]@);
            }
            i = i + 1;
        }
        assert(texts_view(texts@).take(texts@.len() as int) =~= texts_view(texts@));
        let r = RText { runs: merged };
        proof {
            if texts@.len() == 1 {
                assert(texts_view(texts@)[0] == texts@[0]@);
                lemma_cells_determine_runs(r@, texts@[0]@);
            }
        }
        r
    }

    /// This text followed by `other`.
    pub fn append(&self, other: &RText) -> (r: RText)
        ensures
            runs_wf(r@),
            cells_of(r@) == cells_of(self@) + cells_of(other@),
            cells_of(other@).len() == 0 ==> r@ == self@,
            cells_of(self@).len() == 0 ==> r@ == other@,
    {
        proof {
            use_type_invariant(self);
            use_type_invariant(other);
        }
        let mut merged: Vec<Run> = Vec::new();
        assert(runs_view(merged@) =~= Seq::<(Seq<char>, Seq<char>)>::empty());
        RText::push_runs(&mut merged, self);
        RText::push_runs(&mut merged, other);
        let r = RText { runs: merged };
        proof {
            if cells_of(other@).len() == 0 {
                assert(cells_of(r@) =~= cells_of(self@));
                lemma_cells_determine_runs(r@, self@);
            }
            if cells_of(self@).len() == 0 {
                assert(cells_of(r@) =~= cells_of(other@));
                lemma_cells_determine_runs(r@, other@);
            }
        }
        r
    }

    /// The text without its styles.
    pub fn plain(&self) -> (r: String)
        ensures
            r@ == cell_chars(cells_of(self@)),
    {
        let mut out = String::new();
        let mut i: usize = 0;
        assert(cell_chars(cells_of(self@.take(0))) =~= Seq::<char>::empty());
        while i < self.runs.len()
            invariant
                i <= self.runs@.len(),
                out@ == cell_chars(cells_of(self@.take(i as int))),
            decreases self.runs.len() - i,
        {
            push_str(&mut out, self.runs[i].1.as_str());
            proof {
                let v = self@;
                lemma_take_push(v, i as int);
                lemma_cells_push(v.take(i as int), v[i as int]);
                lemma_cell_chars_add(cells_of(v.take(i as int)), run_cells(v[i as int].0, v[i as int].1));
                lemma_cell_chars_run(v[i as int].0, v[i as int].1);
            }
            i = i + 1;
        }
        assert(self@.take(self@.len() as int) =~= self@);
        out
    }

    /// Whether the text has no characters.
    pub fn is_empty(&self) -> (r: bool)
        ensures
            r == (self@.len() == 0),
            r == (cells_of(self@).len() == 0),
    {
        proof {
            use_type_invariant(self);
            if self@.len() > 0 {
                let v = self@;
                lemma_cells_concat(v.drop_last(), seq![v.last()]);
                assert(v.drop_last() + seq![v.last()] =~= v);
                lemma_cells_push(Seq::empty(), v.last());
                assert(Seq::<(Seq<char>, Seq<char>)>::empty().push(v.last()) =~= seq![v.last()]);
                assert(v.last().1.len() > 0);
            }
        }
        self.runs.len() == 0
    }

    /// The canonical runs of the text.
    pub fn runs(&self) -> (r: &[Run])
        ensures
            runs_wf(self@),
            runs_view(r@) == self@,
    {
        proof {
            use_type_invariant(self);
        }
        self.runs.as_slice()
    }
}

} // verus!

verus! {

proof fn lemma_wf_drop_last(a: Seq<(Seq<char>, Seq<char>)>)
    requires
        runs_wf(a),
        a.len() > 0,
    ensures
        runs_wf(a.drop_last()),
{
    let p = a.drop_last();
    assert forall|i: int| 0 <= i < p.len() implies (#[trigger] p[i]).1.len() > 0 by {
        assert(p[i] == a[i]);
    }
    assert forall|i: int| 0 <= i < p.len() implies normalized((#[trigger] p[i]).0) == p[i].0 by {
        assert(p[i] == a[i]);
    }
    assert forall|i: int, j: int| 0 <= i && j == i + 1 && j < p.len() implies (#[trigger] p[i]).0
        != (#[trigger] p[j]).0 by {
        assert(p[i] == a[i]);
        assert(p[j] == a[j]);
    }
}

/// Canonical runs are determined by their cells: two texts with the same
/// cells have the same runs.
pub proof fn lemma_cells_determine_runs(a: Seq<(Seq<char>, Seq<char>)>, b: Seq<(Seq<char>, Seq<char>)>)
    requires
        runs_wf(a),
        runs_wf(b),
        cells_of(a) == cells_of(b),
    ensures
        a == b,
    decreases a.len() + b.len(),
{
    if a.len() == 0 && b.len() == 0 {
        assert(a =~= b);
    } else if a.len() == 0 {
        assert(b.last().1.len() > 0);
        assert(cells_of(b).len() >= b.last().1.len());
        assert(false);
    } else if b.len() == 0 {
        assert(a.last().1.len() > 0);
        assert(cells_of(a).len() >= a.last().1.len());
        assert(false);
    } else {
        let la = a.last();
        let lb = b.last();
        let ca = cells_of(a.drop_last());
        let cb = cells_of(b.drop_last());
        let n = la.1.len();
        let m = lb.1.len();
        let total = cells_of(a).len();
        assert(la.1.len() > 0);
        assert(lb.1.len() > 0);
        assert(cells_of(a) == ca + run_cells(la.0, la.1));
        assert(cells_of(b) == cb + run_cells(lb.0, lb.1));
        assert(cells_of(a)[total - 1] == (la.1[n - 1], la.0));
        assert(cells_of(b)[total - 1] == (lb.1[m - 1], lb.0));
        assert(la.0 == lb.0);
        lemma_wf_drop_last(a);
        lemma_wf_drop_last(b);
        if n == m {
            assert(ca =~= cb) by {
                assert forall|k: int| 0 <= k < ca.len() implies ca[k] == cb[k] by {
                    assert(cells_of(a)[k] == ca[k]);
                    assert(cells_of(b)[k] == cb[k]);
                }
            }
            assert(la.1 =~= lb.1) by {
                assert forall|k: int| 0 <= k < n implies la.1[k] == lb.1[k] by {
                    assert(cells_of(a)[ca.len() + k] == (la.1[k], la.0));
                    assert(cells_of(b)[cb.len() + k] == (lb.1[k], lb.0));
                }
            }
            lemma_cells_determine_runs(a.drop_last(), b.drop_last());
            assert(la == lb);
            assert(a =~= a.drop_last().push(la));
            assert(b =~= b.drop_last().push(lb));
        } else if n < m {
            let k = total - n - 1;
            if a.len() == 1 {
                assert(a.drop_last() =~= Seq::<(Seq<char>, Seq<char>)>::empty());
                assert(ca.len() == 0);
                assert(false);
            } else {
                let pa = a.drop_last();
                assert(pa.last().1.len() > 0);
                assert(cells_of(pa) == cells_of(pa.drop_last()) + run_cells(pa.last().0, pa.last().1));
                assert(ca[ca.len() - 1].1 == pa.last().0);
                assert(cells_of(a)[k] == ca[ca.len() - 1]);
                assert(cells_of(b)[k] == (lb.1[k - cb.len()], lb.0));
                assert(a[a.len() - 2].0 != a[a.len() - 1].0);
                assert(false);
            }
        } else {
            let k = total - m - 1;
            if b.len() == 1 {
                assert(b.drop_last() =~= Seq::<(Seq<char>, Seq<char>)>::empty());
                assert(cb.len() == 0);
                assert(false);
            } else {
                let pb = b.drop_last();
                assert(pb.last().1.len() > 0);
                assert(cells_of(pb) == cells_of(pb.drop_last()) + run_cells(pb.last().0, pb.last().1));
                assert(cb[cb.len() - 1].1 == pb.last().0);
                assert(cells_of(b)[k] == cb[cb.len() - 1]);
                assert(cells_of(a)[k] == (la.1[k - ca.len()], la.0));
                assert(b[b.len() - 2].0 != b[b.len() - 1].0);
                assert(false);
            }
        }
    }
}

} // verus!

verus! {

/// The cells named by characters and the indices of the runs they come from.
pub open spec fn indexed_cells(
    runs: Seq<(Seq<char>, Seq<char>)>,
    cs: Seq<char>,
    ix: Seq<usize>,
) -> Seq<Cell> {
    Seq::new(cs.len(), |k: int| (cs[k], runs[ix[k] as int].0))
}

impl RText {
    /// Every cell of the text as a character and the index of its run.
    fn flatten(&self) -> (r: (Vec<char>, Vec<usize>))
        ensures
            r.1@.len() == r.0@.len(),
            forall|k: int| 0 <= k < r.1@.len() ==> (#[trigger] r.1@[k]) < self@.len(),
            indexed_cells(self@, r.0@, r.1@) == cells_of(self@),
    {
        let mut cs: Vec<char> = Vec::new();
        let mut ix: Vec<usize> = Vec::new();
        let mut i: usize = 0;
        let ghost rv = self@;
        assert(indexed_cells(rv, cs@, ix@) =~= cells_of(rv.take(0)));
        while i < self.runs.len()
            invariant
                rv == self@,
                i <= rv.len(),
                ix@.len() == cs@.len(),
                forall|k: int| 0 <= k < ix@.len() ==> (#[trigger] ix@[k]) < i,
                indexed_cells(rv, cs@, ix@) == cells_of(rv.take(i as int)),
            decreases self.runs.len() - i,
        {
            let text = to_chars(self.runs[i].1.as_str());
            assert(text@ == rv[i as int].1);
            let ghost base = cells_of(rv.take(i as int));
            let ghost n0 = cs@.len();
            let mut j: usize = 0;
            while j < text.len()
                invariant
                    rv == self@,
                    i < rv.len(),
                    j <= text@.len(),
                    text@ == rv[i as int].1,
                    ix@.len() == cs@.len(),
                    cs@.len() == n0 + j,
                    forall|k: int| 0 <= k < ix@.len() ==> (#[trigger] ix@[k]) <= i,
                    indexed_cells(rv, cs@, ix@) == base + run_cells(rv[i as int].0, text@.take(j as int)),
                decreases text.len() - j,
            {
                let ghost old_ic = indexed_cells(rv, cs@, ix@);
                cs.push(text[j]);
                ix.push(i);
                proof {
                    let cell = (text@[j as int], rv[i as int].0);
                    assert(indexed_cells(rv, cs@, ix@) =~= old_ic.push(cell));
                    assert(run_cells(rv[i as int].0, text@.take(j + 1)) =~= run_cells(
                        rv[i as int].0,
                        text@.take(j as int),
                    ).push(cell));
                    assert(base + run_cells(rv[i as int].0, text@.take(j + 1)) =~= (base + run_cells(
                        rv[i as int].0,
                        text@.take(j as int),
                    )).push(cell));
                }
                j = j + 1;
            }
            proof {
                lemma_take_push(rv, i as int);
                lemma_cells_push(rv.take(i as int), rv[i as int]);
                assert(text@.take(j as int) =~= text@);
            }
            i = i + 1;
        }
        assert(rv.take(rv.len() as int) =~= rv);
        (cs, ix)
    }
}

} // verus!

verus! {

// ───────────────────────── measures and cuts ─────────────────────────

/// The display width of a character: its Unicode width, 0 for control characters.
pub open spec fn cell_w(c: char) -> nat {
    match unicode_char_width(c) {
        Some(w) => w as nat,
        None => 0,
    }
}

/// The display width of characters.
pub open spec fn chars_width(s: Seq<char>) -> nat
    decreases s.len(),
{
    if s.len() == 0 {
        0
    } else {
        chars_width(s.drop_last()) + cell_w(s.last())
    }
}

/// The number of leading characters, from position `k` on, that fit into
/// `max` columns.
pub open spec fn fit_from(s: Seq<char>, k: int, max: nat) -> nat
    decreases s.len() - k,
{
    if k < 0 || k >= s.len() {
        s.len()
    } else if chars_width(s.take(k + 1)) > max {
        k as nat
    } else {
        fit_from(s, k + 1, max)
    }
}

/// Truncating keeps the longest prefix that fits: the characters kept fit
/// into `max` columns, and one more character would not.
pub proof fn lemma_fit_longest(s: Seq<char>, max: nat)
    ensures
        fit_from(s, 0, max) <= s.len(),
        chars_width(s.take(fit_from(s, 0, max) as int)) <= max,
        fit_from(s, 0, max) < s.len() ==> chars_width(s.take(fit_from(s, 0, max) as int + 1)) > max,
{
    assert(s.take(0) =~= Seq::<char>::empty());
    lemma_fit_from(s, 0, max);
}

pub open spec fn clamp(x: int, n: int) -> int {
    if x < n {
        x
    } else {
        n
    }
}

/// The same runs with every style replaced.
pub open spec fn restyle(runs: Seq<(Seq<char>, Seq<char>)>, style: Seq<char>) -> Seq<(Seq<char>, Seq<char>)> {
    Seq::new(runs.len(), |i: int| (style, runs[i].1))
}

/// The same runs with `extra` keys added to every style.
pub open spec fn add_to_styles(runs: Seq<(Seq<char>, Seq<char>)>, extra: Seq<char>) -> Seq<(Seq<char>, Seq<char>)> {
    Seq::new(runs.len(), |i: int| (normalized(runs[i].0 + extra), runs[i].1))
}

/// The same runs with every text upper-cased.
pub open spec fn upper_runs(runs: Seq<(Seq<char>, Seq<char>)>) -> Seq<(Seq<char>, Seq<char>)> {
    Seq::new(runs.len(), |i: int| (runs[i].0, upper_form(runs[i].1)))
}

/// The cells with each character mapped by `f`, styles kept.
pub open spec fn map_cells(cs: Seq<Cell>, f: spec_fn(char) -> char) -> Seq<Cell> {
    Seq::new(cs.len(), |i: int| (f(cs[i].0), cs[i].1))
}

proof fn lemma_runs_ascii(runs: Seq<(Seq<char>, Seq<char>)>)
    requires
        all_ascii(cell_chars(cells_of(runs))),
    ensures
        forall|i: int| 0 <= i < runs.len() ==> all_ascii(#[trigger] runs[i].1),
    decreases runs.len(),
{
    if runs.len() > 0 {
        let init = runs.drop_last();
        let c0 = cells_of(init);
        let c1 = run_cells(runs.last().0, runs.last().1);
        lemma_cell_chars_add(c0, c1);
        lemma_cell_chars_run(runs.last().0, runs.last().1);
        assert(all_ascii(cell_chars(c0))) by {
            assert forall|k: int| 0 <= k < cell_chars(c0).len() implies (cell_chars(c0)[k] as u32) < 128 by {
                assert(cell_chars(cells_of(runs))[k] == cell_chars(c0)[k]);
            }
        }
        lemma_runs_ascii(init);
        assert forall|i: int| 0 <= i < runs.len() implies all_ascii(#[trigger] runs[i].1) by {
            if i < init.len() {
                assert(runs[i] == init[i]);
            } else {
                assert forall|k: int| 0 <= k < runs[i].1.len() implies (runs[i].1[k] as u32) < 128 by {
                    assert(cell_chars(cells_of(runs))[cell_chars(c0).len() + k] == runs[i].1[k]);
                }
            }
        }
    }
}

proof fn lemma_mapped_cells(runs: Seq<(Seq<char>, Seq<char>)>, texts: Seq<Seq<char>>, f: spec_fn(char) -> char)
    requires
        texts.len() == runs.len(),
        forall|i: int| 0 <= i < runs.len() ==> #[trigger] texts[i] == runs[i].1.map_values(f),
    ensures
        cells_of(Seq::new(runs.len(), |i: int| (runs[i].0, texts[i]))) == map_cells(cells_of(runs), f),
    decreases runs.len(),
{
    let m = Seq::new(runs.len(), |i: int| (runs[i].0, texts[i]));
    if runs.len() > 0 {
        let n = (runs.len() - 1) as int;
        lemma_mapped_cells(runs.drop_last(), texts.drop_last(), f);
        assert(m.drop_last() =~= Seq::new(runs.drop_last().len(), |i: int| (runs.drop_last()[i].0, texts.drop_last()[i])));
        assert(texts[n] == runs[n].1.map_values(f));
        assert(cells_of(m) =~= map_cells(cells_of(runs), f));
    } else {
        assert(cells_of(m) =~= map_cells(cells_of(runs), f));
    }
}

/// The same runs with every text lower-cased.
pub open spec fn lower_runs(runs: Seq<(Seq<char>, Seq<char>)>) -> Seq<(Seq<char>, Seq<char>)> {
    Seq::new(runs.len(), |i: int| (runs[i].0, lower_form(runs[i].1)))
}

/// `n` copies of some cells, one after another.
pub open spec fn repeat_cells(cs: Seq<Cell>, n: nat) -> Seq<Cell>
    decreases n,
{
    if n == 0 {
        Seq::empty()
    } else {
        repeat_cells(cs, (n - 1) as nat) + cs
    }
}

proof fn lemma_repeat_one_len(cs: Seq<Cell>, n: nat)
    requires
        cs.len() == 1,
    ensures
        repeat_cells(cs, n).len() == n,
    decreases n,
{
    if n > 0 {
        lemma_repeat_one_len(cs, (n - 1) as nat);
    }
}

/// With a fill of one character, centring, left- and right-justifying a
/// shorter text give exactly `width` characters.
pub proof fn lemma_align_width(cells: Seq<Cell>, fill: Seq<Cell>, width: nat)
    requires
        fill.len() == 1,
        cells.len() < width,
    ensures
        ({
            let missing = (width - cells.len()) as nat;
            &&& (repeat_cells(fill, missing / 2) + cells + repeat_cells(fill, (missing - missing / 2) as nat)).len()
                == width
            &&& (cells + repeat_cells(fill, missing)).len() == width
            &&& (repeat_cells(fill, missing) + cells).len() == width
        }),
{
    let missing = (width - cells.len()) as nat;
    lemma_repeat_one_len(fill, missing / 2);
    lemma_repeat_one_len(fill, (missing - missing / 2) as nat);
    lemma_repeat_one_len(fill, missing);
}

proof fn lemma_chars_width_push(s: Seq<char>, c: char)
    ensures
        chars_width(s.push(c)) == chars_width(s) + cell_w(c),
{
    assert(s.push(c).drop_last() =~= s);
}

/// `fit_from` names the first position whose character would overflow.
proof fn lemma_fit_from(s: Seq<char>, k: int, max: nat)
    requires
        0 <= k <= s.len(),
        chars_width(s.take(k)) <= max,
    ensures
        k <= fit_from(s, k, max) <= s.len(),
        chars_width(s.take(fit_from(s, k, max) as int)) <= max,
        fit_from(s, k, max) < s.len() ==> chars_width(s.take(fit_from(s, k, max) as int + 1)) > max,
    decreases s.len() - k,
{
    if k < s.len() && chars_width(s.take(k + 1)) <= max {
        lemma_fit_from(s, k + 1, max);
    }
}

impl RText {
    /// The number of characters (not the display width).
    pub fn char_len(&self) -> (r: usize)
        ensures
            r == cells_of(self@).len(),
    {
        let (cs, ix) = self.flatten();
        cs.len()
    }

    /// The display width: the sum of the Unicode widths of the characters,
    /// control characters counting 0.
    pub fn width(&self) -> (r: usize)
        requires
            chars_width(cell_chars(cells_of(self@))) <= usize::MAX,
        ensures
            r == chars_width(cell_chars(cells_of(self@))),
    {
        let (cs, ix) = self.flatten();
        let ghost all = cell_chars(cells_of(self@));
        assert(cs@ =~= all) by {
            assert forall|k: int| 0 <= k < cs@.len() implies cs@[k] == all[k] by {
                assert(indexed_cells(self@, cs@, ix@)[k] == cells_of(self@)[k]);
            }
        }
        let mut total: usize = 0;
        let mut k: usize = 0;
        assert(all.take(0) =~= Seq::<char>::empty());
        while k < cs.len()
            invariant
                cs@ == all,
                k <= all.len(),
                chars_width(all) <= usize::MAX,
                total == chars_width(all.take(k as int)),
            decreases cs.len() - k,
        {
            proof {
                lemma_take_push(all, k as int);
                lemma_chars_width_push(all.take(k as int), all[k as int]);
                lemma_width_prefix(all, k + 1);
            }
            let w = match char_width(cs[k]) {
                Some(w) => w,
                None => 0,
            };
            total = total + w;
            k = k + 1;
        }
        assert(all.take(all.len() as int) =~= all);
        total
    }

    /// The cells from `start` up to `end` (both clamped to the length); the
    /// empty text when `end <= start`.
    pub fn slice(&self, start: usize, end: usize) -> (r: RText)
        ensures
            runs_wf(r@),
            end <= start ==> r@ == Seq::<(Seq<char>, Seq<char>)>::empty(),
            start < end ==> cells_of(r@) == cells_of(self@).subrange(
                clamp(start as int, cells_of(self@).len() as int),
                clamp(end as int, cells_of(self@).len() as int),
            ),
    {
        if end <= start {
            return RText::new();
        }
        proof {
            use_type_invariant(self);
        }
        let (cs, ix) = self.flatten();
        let n = cs.len();
        let lo = if start < n {
            start
        } else {
            n
        };
        let hi = if end < n {
            end
        } else {
            n
        };
        let ghost all = cells_of(self@);
        let mut out: Vec<Run> = Vec::new();
        let mut k = lo;
        assert(runs_view(out@) =~= Seq::<(Seq<char>, Seq<char>)>::empty());
        assert(all.subrange(lo as int, lo as int) =~= Seq::<Cell>::empty());
        while k < hi
            invariant
                all == cells_of(self@),
                runs_wf(self@),
                n == all.len(),
                lo <= k <= hi <= n,
                ix@.len() == n,
                forall|q: int| 0 <= q < ix@.len() ==> (#[trigger] ix@[q]) < self@.len(),
                indexed_cells(self@, cs@, ix@) == all,
                runs_wf(runs_view(out@)),
                cells_of(runs_view(out@)) == all.subrange(lo as int, k as int),
            decreases hi - k,
        {
            let ghost ri = ix@[k as int] as int;
            assert(indexed_cells(self@, cs@, ix@)[k as int] == all[k as int]);
            assert(self@[ri].0 == self.runs@[ri].0@);
            push_cell(&mut out, &self.runs[ix[k]].0, cs[k]);
            assert(all.subrange(lo as int, k + 1) =~= all.subrange(lo as int, k as int).push(all[k as int]));
            k = k + 1;
        }
        RText { runs: out }
    }

    /// The longest prefix that fits into `max_width` columns; empty when
    /// `max_width` is 0.
    pub fn truncate(&self, max_width: usize) -> (r: RText)
        ensures
            runs_wf(r@),
            max_width == 0 ==> r@ == Seq::<(Seq<char>, Seq<char>)>::empty(),
            max_width > 0 ==> cells_of(r@) == cells_of(self@).take(
                fit_from(cell_chars(cells_of(self@)), 0, max_width as nat) as int,
            ),
    {
        if max_width == 0 {
            return RText::new();
        }
        proof {
            use_type_invariant(self);
        }
        let (cs, ix) = self.flatten();
        let ghost all = cells_of(self@);
        let ghost chars = cell_chars(all);
        assert(cs@ =~= chars) by {
            assert forall|q: int| 0 <= q < cs@.len() implies cs@[q] == chars[q] by {
                assert(indexed_cells(self@, cs@, ix@)[q] == all[q]);
            }
        }
        let mut out: Vec<Run> = Vec::new();
        let mut cur_w: usize = 0;
        let mut k: usize = 0;
        assert(runs_view(out@) =~= Seq::<(Seq<char>, Seq<char>)>::empty());
        assert(all.take(0) =~= Seq::<Cell>::empty());
        assert(chars.take(0) =~= Seq::<char>::empty());
        let ghost fit = fit_from(chars, 0, max_width as nat);
        proof {
            lemma_fit_from(chars, 0, max_width as nat);
        }
        let mut stop = false;
        while k < cs.len() && !stop
            invariant
                stop ==> k == fit,
                all == cells_of(self@),
                chars == cell_chars(all),
                cs@ == chars,
                runs_wf(self@),
                k <= cs@.len(),
                ix@.len() == cs@.len(),
                forall|q: int| 0 <= q < ix@.len() ==> (#[trigger] ix@[q]) < self@.len(),
                indexed_cells(self@, cs@, ix@) == all,
                cur_w == chars_width(chars.take(k as int)),
                cur_w <= max_width,
                fit == fit_from(chars, 0, max_width as nat),
                k <= fit,
                fit <= chars.len(),
                chars_width(chars.take(fit as int)) <= max_width,
                fit < chars.len() ==> chars_width(chars.take(fit as int + 1)) > max_width,
                runs_wf(runs_view(out@)),
                cells_of(runs_view(out@)) == all.take(k as int),
            decreases cs.len() - k + (if stop { 0int } else { 1int }),
        {
            let w = match char_width(cs[k]) {
                Some(w) => w,
                None => 0,
            };
            proof {
                lemma_take_push(chars, k as int);
                lemma_chars_width_push(chars.take(k as int), chars[k as int]);
            }
            if w > max_width - cur_w {
                proof {
                    if (k as int) < fit {
                        lemma_width_prefix(chars.take(fit as int), k + 1);
                        assert(chars.take(fit as int).take(k + 1) =~= chars.take(k + 1));
                    }
                }
                stop = true;
            } else {
            let ghost ri = ix@[k as int] as int;
            assert(indexed_cells(self@, cs@, ix@)[k as int] == all[k as int]);
            assert(self@[ri].0 == self.runs@[ri].0@);
            push_cell(&mut out, &self.runs[ix[k]].0, cs[k]);
            assert(all.take(k + 1) =~= all.take(k as int).push(all[k as int]));
            cur_w = cur_w + w;
            proof {
                if fit == k {
                    assert(false);
                }
            }
            k = k + 1;
            }
        }
        proof {
            if !stop {
                assert(fit == k);
            }
        }
        RText { runs: out }
    }
}

/// The width of a prefix is at most the width of the whole.
proof fn lemma_width_prefix(s: Seq<char>, k: int)
    requires
        0 <= k <= s.len(),
    ensures
        chars_width(s.take(k)) <= chars_width(s),
    decreases s.len() - k,
{
    if k < s.len() {
        lemma_width_prefix(s, k + 1);
        lemma_take_push(s, k);
        lemma_chars_width_push(s.take(k), s[k]);
    } else {
        assert(s.take(k) =~= s);
    }
}

} // verus!

verus! {

// ───────────────────────── wrapping ─────────────────────────

/// Ends the current line, if it has any cells.
pub open spec fn flush_line(lines: Seq<Seq<Cell>>, cur: Seq<Cell>) -> Seq<Seq<Cell>> {
    if cur.len() > 0 {
        lines.push(cur)
    } else {
        lines
    }
}

/// Wrapping state after some cells: finished lines, the current line and its
/// width.  A newline ends the line; a cell that would overflow `max` starts a
/// new one.
pub open spec fn wrap_state(cells: Seq<Cell>, max: nat) -> (Seq<Seq<Cell>>, Seq<Cell>, nat)
    decreases cells.len(),
{
    if cells.len() == 0 {
        (Seq::empty(), Seq::empty(), 0)
    } else {
        let st = wrap_state(cells.drop_last(), max);
        let cell = cells.last();
        if cell.0 == '\n' {
            (flush_line(st.0, st.1), Seq::empty(), 0)
        } else if st.2 + cell_w(cell.0) > max {
            (flush_line(st.0, st.1), seq![cell], cell_w(cell.0))
        } else {
            (st.0, st.1.push(cell), st.2 + cell_w(cell.0))
        }
    }
}

/// The lines that wrapping some cells at `max` columns yields.
pub open spec fn wrap_lines(cells: Seq<Cell>, max: nat) -> Seq<Seq<Cell>> {
    let st = wrap_state(cells, max);
    flush_line(st.0, st.1)
}

/// The characters of lines, one line after another.
pub open spec fn lines_chars(lines: Seq<Seq<Cell>>) -> Seq<char>
    decreases lines.len(),
{
    if lines.len() == 0 {
        Seq::empty()
    } else {
        lines_chars(lines.drop_last()) + cell_chars(lines.last())
    }
}

/// The characters other than newlines.
pub open spec fn without_newlines(s: Seq<char>) -> Seq<char>
    decreases s.len(),
{
    if s.len() == 0 {
        Seq::empty()
    } else if s.last() == '\n' {
        without_newlines(s.drop_last())
    } else {
        without_newlines(s.drop_last()).push(s.last())
    }
}

/// A line of wrapped text: not empty, free of newlines, and within `max`
/// columns unless it is one character.
pub open spec fn wrapped_line_ok(line: Seq<Cell>, max: nat) -> bool {
    &&& line.len() > 0
    &&& chars_width(cell_chars(line)) <= max || line.len() == 1
    &&& forall|k: int| 0 <= k < line.len() ==> (#[trigger] line[k]).0 != '\n'
}

/// What holds of the wrapping state after some cells.
spec fn wrap_state_ok(cells: Seq<Cell>, max: nat) -> bool {
    let st = wrap_state(cells, max);
    &&& forall|i: int| 0 <= i < st.0.len() ==> wrapped_line_ok(#[trigger] st.0[i], max)
    &&& forall|k: int| 0 <= k < st.1.len() ==> (#[trigger] st.1[k]).0 != '\n'
    &&& st.2 == chars_width(cell_chars(st.1))
    &&& st.2 <= max || st.1.len() == 1
    &&& lines_chars(st.0) + cell_chars(st.1) == without_newlines(cell_chars(cells))
}

proof fn lemma_flush_line_ok(lines: Seq<Seq<Cell>>, cur: Seq<Cell>, max: nat)
    requires
        forall|i: int| 0 <= i < lines.len() ==> wrapped_line_ok(#[trigger] lines[i], max),
        forall|k: int| 0 <= k < cur.len() ==> (#[trigger] cur[k]).0 != '\n',
        chars_width(cell_chars(cur)) <= max || cur.len() == 1,
    ensures
        forall|i: int| 0 <= i < flush_line(lines, cur).len() ==> wrapped_line_ok(#[trigger] flush_line(lines, cur)[i], max),
        lines_chars(flush_line(lines, cur)) == lines_chars(lines) + cell_chars(cur),
{
    if cur.len() > 0 {
        let f = lines.push(cur);
        assert(f.drop_last() =~= lines);
        assert forall|i: int| 0 <= i < f.len() implies wrapped_line_ok(#[trigger] f[i], max) by {
            if i < lines.len() {
                assert(f[i] == lines[i]);
            }
        }
    } else {
        assert(cell_chars(cur) =~= Seq::<char>::empty());
        assert(lines_chars(lines) + cell_chars(cur) =~= lines_chars(lines));
    }
}

proof fn lemma_wrap_state_ok(cells: Seq<Cell>, max: nat)
    ensures
        wrap_state_ok(cells, max),
    decreases cells.len(),
{
    if cells.len() == 0 {
        assert(cell_chars(Seq::<Cell>::empty()) =~= Seq::<char>::empty());
        assert(cell_chars(cells) =~= Seq::<char>::empty());
        assert(Seq::<char>::empty() + Seq::<char>::empty() =~= Seq::<char>::empty());
    } else {
        let prev = cells.drop_last();
        let cell = cells.last();
        lemma_wrap_state_ok(prev, max);
        let st = wrap_state(prev, max);
        assert(cell_chars(cells) =~= cell_chars(prev).push(cell.0));
        assert(cell_chars(cells).drop_last() =~= cell_chars(prev));
        lemma_flush_line_ok(st.0, st.1, max);
        if cell.0 == '\n' {
            assert(cell_chars(Seq::<Cell>::empty()) =~= Seq::<char>::empty());
            assert(lines_chars(flush_line(st.0, st.1)) + Seq::<char>::empty() =~= lines_chars(
                flush_line(st.0, st.1),
            ));
        } else if st.2 + cell_w(cell.0) > max {
            let one = seq![cell];
            assert(cell_chars(one) =~= seq![cell.0]);
            assert(seq![cell.0].drop_last() =~= Seq::<char>::empty());
            assert(chars_width(Seq::<char>::empty()) == 0);
            assert(chars_width(seq![cell.0]) == cell_w(cell.0));
            assert(lines_chars(st.0) + cell_chars(st.1) + seq![cell.0] =~= (lines_chars(st.0) + cell_chars(
                st.1,
            )).push(cell.0));
        } else {
            let cur = st.1.push(cell);
            assert(cell_chars(cur) =~= cell_chars(st.1).push(cell.0));
            assert(cell_chars(cur).drop_last() =~= cell_chars(st.1));
            assert(lines_chars(st.0) + cell_chars(cur) =~= (lines_chars(st.0) + cell_chars(st.1)).push(
                cell.0,
            ));
            assert forall|k: int| 0 <= k < cur.len() implies (#[trigger] cur[k]).0 != '\n' by {
                if k < st.1.len() {
                    assert(cur[k] == st.1[k]);
                }
            }
        }
    }
}

/// Wrapping loses nothing but newlines: every line is non-empty, holds no
/// newline and fits into `max` columns unless it is a single character, and
/// the lines together hold the characters of the text other than newlines,
/// in order.
pub proof fn lemma_wrap_lines(cells: Seq<Cell>, max: nat)
    ensures
        forall|i: int| 0 <= i < wrap_lines(cells, max).len() ==> wrapped_line_ok(#[trigger] wrap_lines(cells, max)[i], max),
        lines_chars(wrap_lines(cells, max)) == without_newlines(cell_chars(cells)),
{
    lemma_wrap_state_ok(cells, max);
    let st = wrap_state(cells, max);
    lemma_flush_line_ok(st.0, st.1, max);
}

/// The cells of each of several texts.
pub open spec fn texts_cells(ts: Seq<RText>) -> Seq<Seq<Cell>> {
    Seq::new(ts.len(), |i: int| cells_of(ts[i]@))
}

proof fn lemma_wrap_state_push(cells: Seq<Cell>, cell: Cell, max: nat)
    ensures
        wrap_state(cells.push(cell), max) == ({
            let st = wrap_state(cells, max);
            if cell.0 == '\n' {
                (flush_line(st.0, st.1), Seq::<Cell>::empty(), 0nat)
            } else if st.2 + cell_w(cell.0) > max {
                (flush_line(st.0, st.1), seq![cell], cell_w(cell.0))
            } else {
                (st.0, st.1.push(cell), st.2 + cell_w(cell.0))
            }
        }),
{
    assert(cells.push(cell).drop_last() =~= cells);
}

impl RText {
    /// Moves the current line, if it has cells, to the finished lines.
    fn flush_into(lines: &mut Vec<RText>, cur: &mut Vec<Run>)
        requires
            runs_wf(runs_view(old(cur)@)),
            forall|q: int| 0 <= q < old(lines)@.len() ==> runs_wf(#[trigger] old(lines)@[q]@),
        ensures
            forall|q: int| 0 <= q < final(lines)@.len() ==> runs_wf(#[trigger] final(lines)@[q]@),
            texts_cells(final(lines)@) == flush_line(texts_cells(old(lines)@), cells_of(runs_view(old(cur)@))),
            final(cur)@ == Seq::<Run>::empty(),
    {
        let ghost cv = cells_of(runs_view(cur@));
        let ghost lv = texts_cells(lines@);
        if cur.len() > 0 {
            let mut taken: Vec<Run> = Vec::new();
            std::mem::swap(&mut taken, cur);
            proof {
                let rv = runs_view(taken@);
                assert(rv.last().1.len() > 0);
                lemma_cells_push(rv.drop_last(), rv.last());
                assert(rv.drop_last().push(rv.last()) =~= rv);
            }
            let t = RText { runs: taken };
            lines.push(t);
            assert(texts_cells(lines@) =~= lv.push(cv));
        } else {
            assert(runs_view(cur@) =~= Seq::<(Seq<char>, Seq<char>)>::empty());
            assert(cur@ =~= Seq::<Run>::empty());
        }
    }

    /// Breaks the text into lines of at most `max_width` columns (a single
    /// character wider than that gets a line of its own); newlines end lines
    /// and are dropped, and no line is empty.
    #[verifier::rlimit(50)]
    #[verifier::spinoff_prover]
    pub fn wrap(&self, max_width: usize) -> (r: Vec<RText>)
        ensures
            forall|i: int| 0 <= i < r@.len() ==> runs_wf(#[trigger] r@[i]@),
            texts_cells(r@) == wrap_lines(cells_of(self@), max_width as nat),
    {
        proof {
            use_type_invariant(self);
        }
        let (cs, ix) = self.flatten();
        let ghost all = cells_of(self@);
        let mut lines: Vec<RText> = Vec::new();
        let mut cur: Vec<Run> = Vec::new();
        let mut cur_w: usize = 0;
        let mut k: usize = 0;
        assert(all.take(0) =~= Seq::<Cell>::empty());
        assert(runs_view(cur@) =~= Seq::<(Seq<char>, Seq<char>)>::empty());
        assert(texts_cells(lines@) =~= Seq::<Seq<Cell>>::empty());
        while k < cs.len()
            invariant
                all == cells_of(self@),
                runs_wf(self@),
                k <= cs@.len(),
                ix@.len() == cs@.len(),
                forall|q: int| 0 <= q < ix@.len() ==> (#[trigger] ix@[q]) < self@.len(),
                indexed_cells(self@, cs@, ix@) == all,
                runs_wf(runs_view(cur@)),
                forall|q: int| 0 <= q < lines@.len() ==> runs_wf(#[trigger] lines@[q]@),
                cur_w <= max_width || cur_w <= 255,
                wrap_state(all.take(k as int), max_width as nat) == (
                    texts_cells(lines@),
                    cells_of(runs_view(cur@)),
                    cur_w as nat,
                ),
            decreases cs.len() - k,
        {
            let c = cs[k];
            let ghost ri = ix@[k as int] as int;
            assert(indexed_cells(self@, cs@, ix@)[k as int] == all[k as int]);
            assert(self@[ri].0 == self.runs@[ri].0@);
            proof {
                lemma_take_push(all, k as int);
                lemma_wrap_state_push(all.take(k as int), all[k as int], max_width as nat);
            }
            if c == '\n' {
                RText::flush_into(&mut lines, &mut cur);
                assert(runs_view(cur@) =~= Seq::<(Seq<char>, Seq<char>)>::empty());
                cur_w = 0;
            } else {
                let w = match char_width(c) {
                    Some(w) => w,
                    None => 0,
                };
                if w > max_width || cur_w > max_width - w {
                    RText::flush_into(&mut lines, &mut cur);
                    assert(runs_view(cur@) =~= Seq::<(Seq<char>, Seq<char>)>::empty());
                    push_cell(&mut cur, &self.runs[ix[k]].0, c);
                    assert(Seq::<Cell>::empty().push(all[k as int]) =~= seq![all[k as int]]);
                    cur_w = w;
                } else {
                    push_cell(&mut cur, &self.runs[ix[k]].0, c);
                    cur_w = cur_w + w;
                }
            }
            k = k + 1;
        }
        assert(all.take(all.len() as int) =~= all);
        RText::flush_into(&mut lines, &mut cur);
        lines
    }
}

} // verus!

verus! {

// ───────────────────────── restyling and case ─────────────────────────

impl RText {
    /// Every text upper-cased, styles kept.
    pub fn to_upper(&self) -> (r: RText)
        ensures
            runs_wf(r@),
            cells_of(r@) == cells_of(upper_runs(self@)),
            all_ascii(cell_chars(cells_of(self@))) ==> cells_of(r@) == map_cells(cells_of(self@), |c: char| ascii_upper(c)),
    {
        proof {
            use_type_invariant(self);
        }
        let ghost target = upper_runs(self@);
        let mut out: Vec<Run> = Vec::new();
        let mut i: usize = 0;
        assert(runs_view(out@) =~= Seq::<(Seq<char>, Seq<char>)>::empty());
        assert(target.take(0) =~= Seq::<(Seq<char>, Seq<char>)>::empty());
        while i < self.runs.len()
            invariant
                target == upper_runs(self@),
                runs_wf(self@),
                i <= self@.len(),
                runs_wf(runs_view(out@)),
                cells_of(runs_view(out@)) == cells_of(target.take(i as int)),
                forall|q: int|
                    0 <= q < i ==> all_ascii(#[trigger] self@[q].1) ==> upper_form(self@[q].1) == self@[q].1.map_values(
                        |c: char| ascii_upper(c),
                    ),
            decreases self.runs.len() - i,
        {
            let t = to_upper(self.runs[i].1.as_str());
            assert(self@[i as int].0 == self.runs@[i as int].0@);
            push_text(&mut out, &self.runs[i].0, t.as_str());
            proof {
                lemma_take_push(target, i as int);
                lemma_cells_push(target.take(i as int), target[i as int]);
            }
            i = i + 1;
        }
        assert(target.take(target.len() as int) =~= target);
        proof {
            if all_ascii(cell_chars(cells_of(self@))) {
                lemma_runs_ascii(self@);
                let texts = Seq::new(self@.len(), |q: int| upper_form(self@[q].1));
                assert(target =~= Seq::new(self@.len(), |q: int| (self@[q].0, texts[q])));
                lemma_mapped_cells(self@, texts, |c: char| ascii_upper(c));
            }
        }
        RText { runs: out }
    }

    /// Every text lower-cased, styles kept.
    pub fn to_lower(&self) -> (r: RText)
        ensures
            runs_wf(r@),
            cells_of(r@) == cells_of(lower_runs(self@)),
            all_ascii(cell_chars(cells_of(self@))) ==> cells_of(r@) == map_cells(cells_of(self@), |c: char| ascii_lower(c)),
    {
        proof {
            use_type_invariant(self);
        }
        let ghost target = lower_runs(self@);
        let mut out: Vec<Run> = Vec::new();
        let mut i: usize = 0;
        assert(runs_view(out@) =~= Seq::<(Seq<char>, Seq<char>)>::empty());
        assert(target.take(0) =~= Seq::<(Seq<char>, Seq<char>)>::empty());
        while i < self.runs.len()
            invariant
                target == lower_runs(self@),
                runs_wf(self@),
                i <= self@.len(),
                runs_wf(runs_view(out@)),
                cells_of(runs_view(out@)) == cells_of(target.take(i as int)),
                forall|q: int|
                    0 <= q < i ==> all_ascii(#[trigger] self@[q].1) ==> lower_form(self@[q].1) == self@[q].1.map_values(
                        |c: char| ascii_lower(c),
                    ),
            decreases self.runs.len() - i,
        {
            let t = to_lower(self.runs[i].1.as_str());
            assert(self@[i as int].0 == self.runs@[i as int].0@);
            push_text(&mut out, &self.runs[i].0, t.as_str());
            proof {
                lemma_take_push(target, i as int);
                lemma_cells_push(target.take(i as int), target[i as int]);
            }
            i = i + 1;
        }
        assert(target.take(target.len() as int) =~= target);
        proof {
            if all_ascii(cell_chars(cells_of(self@))) {
                lemma_runs_ascii(self@);
                let texts = Seq::new(self@.len(), |q: int| lower_form(self@[q].1));
                assert(target =~= Seq::new(self@.len(), |q: int| (self@[q].0, texts[q])));
                lemma_mapped_cells(self@, texts, |c: char| ascii_lower(c));
            }
        }
        RText { runs: out }
    }

    /// Builds the runs of `runs` with each style replaced by the normalized
    /// `style` (or, when `add` holds, with `style` added to each style).
    fn restyled(&self, style: &str, add: bool) -> (r: RText)
        ensures
            !add ==> cells_of(r@) == cells_of(restyle(self@, normalized(style@))),
            add ==> cells_of(r@) == cells_of(add_to_styles(self@, style@)),
    {
        proof {
            use_type_invariant(self);
        }
        let ghost target = if add {
            add_to_styles(self@, style@)
        } else {
            restyle(self@, normalized(style@))
        };
        let fixed = normalize_style(style);
        proof {
            lemma_normalized_idempotent(style@);
        }
        let mut out: Vec<Run> = Vec::new();
        let mut i: usize = 0;
        assert(runs_view(out@) =~= Seq::<(Seq<char>, Seq<char>)>::empty());
        assert(target.take(0) =~= Seq::<(Seq<char>, Seq<char>)>::empty());
        while i < self.runs.len()
            invariant
                target == (if add {
                    add_to_styles(self@, style@)
                } else {
                    restyle(self@, normalized(style@))
                }),
                fixed@ == normalized(style@),
                normalized(fixed@) == fixed@,
                i <= self@.len(),
                runs_wf(runs_view(out@)),
                cells_of(runs_view(out@)) == cells_of(target.take(i as int)),
            decreases self.runs.len() - i,
        {
            assert(self@[i as int] == (self.runs@[i as int].0@, self.runs@[i as int].1@));
            if add {
                let mut both = copy_string(&self.runs[i].0);
                push_str(&mut both, style);
                let st = normalize_style(both.as_str());
                proof {
                    lemma_normalized_idempotent(both@);
                }
                push_text(&mut out, &st, self.runs[i].1.as_str());
            } else {
                push_text(&mut out, &fixed, self.runs[i].1.as_str());
            }
            proof {
                lemma_take_push(target, i as int);
                lemma_cells_push(target.take(i as int), target[i as int]);
            }
            i = i + 1;
        }
        assert(target.take(target.len() as int) =~= target);
        RText { runs: out }
    }

    /// Every cell shown in the normalized `style`.
    pub fn set_style(&self, style: &str) -> (r: RText)
        ensures
            runs_wf(r@),
            cells_of(r@) == cells_of(restyle(self@, normalized(style@))),
    {
        let r = self.restyled(style, false);
        proof {
            use_type_invariant(&r);
        }
        r
    }

    /// `style` added to the style of every run.
    pub fn add_style(&self, style: &str) -> (r: RText)
        ensures
            runs_wf(r@),
            cells_of(r@) == cells_of(add_to_styles(self@, style@)),
    {
        let r = self.restyled(style, true);
        proof {
            use_type_invariant(&r);
        }
        r
    }

    /// Every style removed.
    pub fn clear_style(&self) -> (r: RText)
        ensures
            runs_wf(r@),
            cells_of(r@) == cells_of(restyle(self@, Seq::empty())),
    {
        let r = self.restyled("", false);
        proof {
            use_type_invariant(&r);
            reveal_strlit("");
            assert(""@ =~= Seq::<char>::empty());
            assert(normalized(Seq::<char>::empty()) =~= Seq::<char>::empty());
        }
        r
    }

    /// A copy of the text.
    pub fn duplicate(&self) -> (r: RText)
        ensures
            runs_wf(r@),
            r@ == self@,
    {
        let mut out: Vec<Run> = Vec::new();
        let mut i: usize = 0;
        while i < self.runs.len()
            invariant
                i <= self.runs@.len(),
                runs_view(out@) == self@.take(i as int),
            decreases self.runs.len() - i,
        {
            let ghost before = out@;
            out.push((copy_string(&self.runs[i].0), copy_string(&self.runs[i].1)));
            proof {
                lemma_runs_view_push(before, out@[i as int]);
                lemma_take_push(self@, i as int);
            }
            i = i + 1;
        }
        proof {
            use_type_invariant(self);
            assert(self@.take(self@.len() as int) =~= self@);
        }
        RText { runs: out }
    }

    /// The text `n` times over.
    pub fn repeat(&self, n: usize) -> (r: RText)
        ensures
            runs_wf(r@),
            cells_of(r@) == repeat_cells(cells_of(self@), n as nat),
    {
        let mut out: Vec<Run> = Vec::new();
        let mut i: usize = 0;
        assert(runs_view(out@) =~= Seq::<(Seq<char>, Seq<char>)>::empty());
        while i < n
            invariant
                i <= n,
                runs_wf(runs_view(out@)),
                cells_of(runs_view(out@)) == repeat_cells(cells_of(self@), i as nat),
            decreases n - i,
        {
            RText::push_runs(&mut out, self);
            i = i + 1;
        }
        RText { runs: out }
    }

    /// Padded with copies of `fill` on both sides to `width` characters (the
    /// left side gets the smaller half); unchanged when already that long.
    pub fn center(&self, width: usize, fill: &RText) -> (r: RText)
        ensures
            runs_wf(r@),
            cells_of(self@).len() >= width ==> r@ == self@,
            cells_of(self@).len() < width ==> cells_of(r@) == ({
                let missing = (width - cells_of(self@).len()) as nat;
                repeat_cells(cells_of(fill@), missing / 2) + cells_of(self@) + repeat_cells(
                    cells_of(fill@),
                    (missing - missing / 2) as nat,
                )
            }),
    {
        let len = self.char_len();
        if len >= width {
            return self.duplicate();
        }
        let missing = width - len;
        let left = missing / 2;
        fill.repeat(left).append(self).append(&fill.repeat(missing - left))
    }

    /// Padded on the right with copies of `fill` to `width` characters.
    pub fn ljust(&self, width: usize, fill: &RText) -> (r: RText)
        ensures
            runs_wf(r@),
            cells_of(self@).len() >= width ==> r@ == self@,
            cells_of(self@).len() < width ==> cells_of(r@) == cells_of(self@) + repeat_cells(
                cells_of(fill@),
                (width - cells_of(self@).len()) as nat,
            ),
    {
        let len = self.char_len();
        if len >= width {
            return self.duplicate();
        }
        self.append(&fill.repeat(width - len))
    }

    /// Padded on the left with copies of `fill` to `width` characters.
    pub fn rjust(&self, width: usize, fill: &RText) -> (r: RText)
        ensures
            runs_wf(r@),
            cells_of(self@).len() >= width ==> r@ == self@,
            cells_of(self@).len() < width ==> cells_of(r@) == repeat_cells(
                cells_of(fill@),
                (width - cells_of(self@).len()) as nat,
            ) + cells_of(self@),
    {
        let len = self.char_len();
        if len >= width {
            return self.duplicate();
        }
        fill.repeat(width - len).append(self)
    }
}

} // verus!

verus! {

// ───────────────────────── rendering ─────────────────────────

/// How a text is turned into a string.
#[derive(Debug, Clone, Copy, PartialEq, Eq, Structural, Default)]
pub enum RenderMode {
    /// ANSI escape sequences around styled runs.
    #[default]
    Ansi,
    /// The characters only.
    Plain,
    /// Each run as `[style]text`.
    Debug,
}

/// The rendering settings a program carries: the mode used when none is
/// asked for, and whether styling is enabled at all.
#[derive(Debug, Clone, Copy)]
pub struct RenderConfig {
    mode: RenderMode,
    enabled: bool,
}

impl View for RenderConfig {
    type V = (RenderMode, bool);

    closed spec fn view(&self) -> (RenderMode, bool) {
        (self.mode, self.enabled)
    }
}

impl RenderConfig {
    /// ANSI mode, enabled.
    pub fn new() -> (r: RenderConfig)
        ensures
            r@ == (RenderMode::Ansi, true),
    {
        RenderConfig { mode: RenderMode::Ansi, enabled: true }
    }

    /// The mode used when a render names none.
    pub fn mode(&self) -> (r: RenderMode)
        ensures
            r == self@.0,
    {
        self.mode
    }

    /// Sets the mode used when a render names none.
    pub fn set_mode(&mut self, m: RenderMode)
        ensures
            final(self)@ == (m, old(self)@.1),
    {
        self.mode = m;
    }

    /// Whether styling is enabled.
    pub fn enabled(&self) -> (r: bool)
        ensures
            r == self@.1,
    {
        self.enabled
    }

    /// Enables or disables styling.
    pub fn set_enabled(&mut self, v: bool)
        ensures
            final(self)@ == (old(self)@.0, v),
    {
        self.enabled = v;
    }
}

/// The ANSI escape sequence of a style key.
pub open spec fn ansi_code_of(c: char) -> Option<Seq<char>> {
    if c == '.' {
        Some("\x1b[0m"@)
    } else if c == '*' {
        Some("\x1b[1m"@)
    } else if c == '_' {
        Some("\x1b[4m"@)
    } else if c == '/' {
        Some("\x1b[3m"@)
    } else if c == '~' {
        Some("\x1b[7m"@)
    } else if c == '!' {
        Some("\x1b[9m"@)
    } else if c == 'k' {
        Some("\x1b[30m"@)
    } else if c == 'r' {
        Some("\x1b[31m"@)
    } else if c == 'g' {
        Some("\x1b[32m"@)
    } else if c == 'y' {
        Some("\x1b[33m"@)
    } else if c == 'b' {
        Some("\x1b[34m"@)
    } else if c == 'm' {
        Some("\x1b[35m"@)
    } else if c == 'c' {
        Some("\x1b[36m"@)
    } else if c == 'w' {
        Some("\x1b[37m"@)
    } else if c == 'K' {
        Some("\x1b[40m"@)
    } else if c == 'R' {
        Some("\x1b[41m"@)
    } else if c == 'G' {
        Some("\x1b[42m"@)
    } else if c == 'Y' {
        Some("\x1b[43m"@)
    } else if c == 'B' {
        Some("\x1b[44m"@)
    } else if c == 'M' {
        Some("\x1b[45m"@)
    } else if c == 'C' {
        Some("\x1b[46m"@)
    } else if c == 'W' {
        Some("\x1b[47m"@)
    } else {
        None
    }
}

/// Rendering uses the standard SGR codes: the `i`-th foreground colour key
/// (black, red, green, yellow, blue, magenta, cyan, white) gives `ESC[3im`,
/// the `i`-th background key `ESC[4im`, and the attribute keys give reset,
/// bold, underline, italic, inverse and strike-through; so distinct colour
/// keys render differently.
pub proof fn lemma_ansi_codes()
    ensures
        forall|i: int| 0 <= i < 8 ==> ansi_code_of(#[trigger] fg_keys()[i]) == Some(sgr_code(seq!['3', sgr_digits()[i]])),
        forall|i: int| 0 <= i < 8 ==> ansi_code_of(#[trigger] bg_keys()[i]) == Some(sgr_code(seq!['4', sgr_digits()[i]])),
        ansi_code_of('.') == Some(sgr_code(seq!['0'])),
        ansi_code_of('*') == Some(sgr_code(seq!['1'])),
        ansi_code_of('_') == Some(sgr_code(seq!['4'])),
        ansi_code_of('/') == Some(sgr_code(seq!['3'])),
        ansi_code_of('~') == Some(sgr_code(seq!['7'])),
        ansi_code_of('!') == Some(sgr_code(seq!['9'])),
{
    reveal_strlit("\x1b[30m");
    reveal_strlit("\x1b[40m");
    assert(ansi_code_of('k').unwrap() =~= sgr_code(seq!['3', '0']));
    assert(ansi_code_of('K').unwrap() =~= sgr_code(seq!['4', '0']));
    reveal_strlit("\x1b[31m");
    reveal_strlit("\x1b[41m");
    assert(ansi_code_of('r').unwrap() =~= sgr_code(seq!['3', '1']));
    assert(ansi_code_of('R').unwrap() =~= sgr_code(seq!['4', '1']));
    reveal_strlit("\x1b[32m");
    reveal_strlit("\x1b[42m");
    assert(ansi_code_of('g').unwrap() =~= sgr_code(seq!['3', '2']));
    assert(ansi_code_of('G').unwrap() =~= sgr_code(seq!['4', '2']));
    reveal_strlit("\x1b[33m");
    reveal_strlit("\x1b[43m");
    assert(ansi_code_of('y').unwrap() =~= sgr_code(seq!['3', '3']));
    assert(ansi_code_of('Y').unwrap() =~= sgr_code(seq!['4', '3']));
    reveal_strlit("\x1b[34m");
    reveal_strlit("\x1b[44m");
    assert(ansi_code_of('b').unwrap() =~= sgr_code(seq!['3', '4']));
    assert(ansi_code_of('B').unwrap() =~= sgr_code(seq!['4', '4']));
    reveal_strlit("\x1b[35m");
    reveal_strlit("\x1b[45m");
    assert(ansi_code_of('m').unwrap() =~= sgr_code(seq!['3', '5']));
    assert(ansi_code_of('M').unwrap() =~= sgr_code(seq!['4', '5']));
    reveal_strlit("\x1b[36m");
    reveal_strlit("\x1b[46m");
    assert(ansi_code_of('c').unwrap() =~= sgr_code(seq!['3', '6']));
    assert(ansi_code_of('C').unwrap() =~= sgr_code(seq!['4', '6']));
    reveal_strlit("\x1b[37m");
    reveal_strlit("\x1b[47m");
    assert(ansi_code_of('w').unwrap() =~= sgr_code(seq!['3', '7']));
    assert(ansi_code_of('W').unwrap() =~= sgr_code(seq!['4', '7']));
    reveal_strlit("\x1b[0m");
    assert(ansi_code_of('.').unwrap() =~= sgr_code(seq!['0']));
    reveal_strlit("\x1b[1m");
    assert(ansi_code_of('*').unwrap() =~= sgr_code(seq!['1']));
    reveal_strlit("\x1b[4m");
    assert(ansi_code_of('_').unwrap() =~= sgr_code(seq!['4']));
    reveal_strlit("\x1b[3m");
    assert(ansi_code_of('/').unwrap() =~= sgr_code(seq!['3']));
    reveal_strlit("\x1b[7m");
    assert(ansi_code_of('~').unwrap() =~= sgr_code(seq!['7']));
    reveal_strlit("\x1b[9m");
    assert(ansi_code_of('!').unwrap() =~= sgr_code(seq!['9']));
    assert forall|i: int| 0 <= i < 8 implies ansi_code_of(#[trigger] fg_keys()[i]) == Some(sgr_code(seq!['3', sgr_digits()[i]]))
        && ansi_code_of(bg_keys()[i]) == Some(sgr_code(seq!['4', sgr_digits()[i]])) by {
        if i == 0 {
            assert(fg_keys()[i] == 'k' && bg_keys()[i] == 'K' && sgr_digits()[i] == '0');
        } else if i == 1 {
            assert(fg_keys()[i] == 'r' && bg_keys()[i] == 'R' && sgr_digits()[i] == '1');
        } else if i == 2 {
            assert(fg_keys()[i] == 'g' && bg_keys()[i] == 'G' && sgr_digits()[i] == '2');
        } else if i == 3 {
            assert(fg_keys()[i] == 'y' && bg_keys()[i] == 'Y' && sgr_digits()[i] == '3');
        } else if i == 4 {
            assert(fg_keys()[i] == 'b' && bg_keys()[i] == 'B' && sgr_digits()[i] == '4');
        } else if i == 5 {
            assert(fg_keys()[i] == 'm' && bg_keys()[i] == 'M' && sgr_digits()[i] == '5');
        } else if i == 6 {
            assert(fg_keys()[i] == 'c' && bg_keys()[i] == 'C' && sgr_digits()[i] == '6');
        } else if i == 7 {
            assert(fg_keys()[i] == 'w' && bg_keys()[i] == 'W' && sgr_digits()[i] == '7');
        }
    }
    assert forall|i: int| 0 <= i < 8 implies ansi_code_of(#[trigger] bg_keys()[i]) == Some(sgr_code(seq!['4', sgr_digits()[i]])) by {
        assert(ansi_code_of(fg_keys()[i]) == Some(sgr_code(seq!['3', sgr_digits()[i]])));
    }
}

/// A run styled with one foreground colour renders, in ANSI mode, as that
/// colour's SGR code, the text, and the reset code.
pub proof fn lemma_render_colour_run(i: int, text: Seq<char>)
    requires
        0 <= i < 8,
    ensures
        render_spec(seq![(seq![fg_keys()[i]], text)], RenderMode::Ansi, true) == sgr_code(seq!['3', sgr_digits()[i]])
            + text + sgr_code(seq!['0']),
{
    lemma_ansi_codes();
    let runs = seq![(seq![fg_keys()[i]], text)];
    let st = seq![fg_keys()[i]];
    let code = sgr_code(seq!['3', sgr_digits()[i]]);
    assert(ansi_code_of(fg_keys()[i]) == Some(code));
    assert(st.drop_last() =~= Seq::<char>::empty());
    assert(st.last() == fg_keys()[i]);
    assert(ansi_string_of(Seq::<char>::empty()) == Seq::<char>::empty());
    assert(ansi_string_of(st) =~= Seq::<char>::empty() + code);
    assert(runs.drop_last() =~= Seq::<(Seq<char>, Seq<char>)>::empty());
    assert(runs.last() == (st, text));
    assert(render_ansi(Seq::<(Seq<char>, Seq<char>)>::empty()) == Seq::<char>::empty());
    reveal_strlit("\x1b[0m");
    assert("\x1b[0m"@ =~= sgr_code(seq!['0']));
    assert(render_ansi(runs) =~= sgr_code(seq!['3', sgr_digits()[i]]) + text + sgr_code(seq!['0']));
}

/// The escape sequences of the keys of a style, in order.
pub open spec fn ansi_string_of(style: Seq<char>) -> Seq<char>
    decreases style.len(),
{
    if style.len() == 0 {
        Seq::empty()
    } else {
        ansi_string_of(style.drop_last()) + match ansi_code_of(style.last()) {
            Some(code) => code,
            None => Seq::empty(),
        }
    }
}

/// ANSI rendering: styled runs wrapped in their codes and a reset.
pub open spec fn render_ansi(runs: Seq<(Seq<char>, Seq<char>)>) -> Seq<char>
    decreases runs.len(),
{
    if runs.len() == 0 {
        Seq::empty()
    } else {
        let last = runs.last();
        render_ansi(runs.drop_last()) + if last.0.len() == 0 {
            last.1
        } else {
            ansi_string_of(last.0) + last.1 + "\x1b[0m"@
        }
    }
}

/// Debug rendering: each run as `[style]text`.
pub open spec fn render_debug(runs: Seq<(Seq<char>, Seq<char>)>) -> Seq<char>
    decreases runs.len(),
{
    if runs.len() == 0 {
        Seq::empty()
    } else {
        let last = runs.last();
        render_debug(runs.drop_last()) + seq!['['] + last.0 + seq![']'] + last.1
    }
}

/// The rendering of runs in a mode, styling enabled or not.
pub open spec fn render_spec(runs: Seq<(Seq<char>, Seq<char>)>, mode: RenderMode, enabled: bool) -> Seq<char> {
    if !enabled || mode == RenderMode::Plain {
        cell_chars(cells_of(runs))
    } else if mode == RenderMode::Debug {
        render_debug(runs)
    } else {
        render_ansi(runs)
    }
}

/// The ANSI escape sequence of a style key, if it has one.
fn ansi_code(c: char) -> (r: Option<&'static str>)
    ensures
        r is None <==> ansi_code_of(c) is None,
        r matches Some(code) ==> ansi_code_of(c) == Some(code@),
{
    match c {
        '.' => Some("\x1b[0m"),
        '*' => Some("\x1b[1m"),
        '_' => Some("\x1b[4m"),
        '/' => Some("\x1b[3m"),
        '~' => Some("\x1b[7m"),
        '!' => Some("\x1b[9m"),
        'k' => Some("\x1b[30m"),
        'r' => Some("\x1b[31m"),
        'g' => Some("\x1b[32m"),
        'y' => Some("\x1b[33m"),
        'b' => Some("\x1b[34m"),
        'm' => Some("\x1b[35m"),
        'c' => Some("\x1b[36m"),
        'w' => Some("\x1b[37m"),
        'K' => Some("\x1b[40m"),
        'R' => Some("\x1b[41m"),
        'G' => Some("\x1b[42m"),
        'Y' => Some("\x1b[43m"),
        'B' => Some("\x1b[44m"),
        'M' => Some("\x1b[45m"),
        'C' => Some("\x1b[46m"),
        'W' => Some("\x1b[47m"),
        _ => None,
    }
}

/// Appends the escape sequences of the keys of `style`.
fn push_ansi_string(out: &mut String, style: &str)
    ensures
        final(out)@ == old(out)@ + ansi_string_of(style@),
{
    let v = to_chars(style);
    let ghost start = out@;
    let mut i: usize = 0;
    assert(v@.take(0) =~= Seq::<char>::empty());
    assert(start + ansi_string_of(Seq::empty()) =~= start);
    while i < v.len()
        invariant
            v@ == style@,
            i <= v@.len(),
            out@ == start + ansi_string_of(v@.take(i as int)),
        decreases v.len() - i,
    {
        proof {
            lemma_take_push(v@, i as int);
            assert(v@.take(i + 1).drop_last() =~= v@.take(i as int));
        }
        match ansi_code(v[i]) {
            Some(code) => {
                push_str(out, code);
                assert(out@ =~= start + ansi_string_of(v@.take(i + 1)));
            },
            None => {
                assert(out@ =~= start + ansi_string_of(v@.take(i + 1)));
            },
        }
        i = i + 1;
    }
    assert(v@.take(v@.len() as int) =~= v@);
}

impl RText {
    /// Renders in `mode`, or in the mode of `config` when none is given;
    /// plain when styling is disabled.
    pub fn render_with(&self, mode: Option<RenderMode>, config: &RenderConfig) -> (r: String)
        ensures
            r@ == render_spec(
                self@,
                match mode {
                    Some(m) => m,
                    None => config@.0,
                },
                config@.1,
            ),
    {
        let m = match mode {
            Some(m) => m,
            None => config.mode(),
        };
        if !config.enabled() || m == RenderMode::Plain {
            return self.plain();
        }
        let mut out = String::new();
        let mut i: usize = 0;
        let ghost rv = self@;
        if m == RenderMode::Debug {
            assert(render_debug(rv.take(0)) =~= Seq::<char>::empty());
            while i < self.runs.len()
                invariant
                    rv == self@,
                    i <= rv.len(),
                    out@ == render_debug(rv.take(i as int)),
                decreases self.runs.len() - i,
            {
                proof {
                    lemma_take_push(rv, i as int);
                    assert(rv.take(i + 1).drop_last() =~= rv.take(i as int));
                }
                push_char(&mut out, '[');
                push_str(&mut out, self.runs[i].0.as_str());
                push_char(&mut out, ']');
                push_str(&mut out, self.runs[i].1.as_str());
                assert(out@ =~= render_debug(rv.take(i + 1)));
                i = i + 1;
            }
        } else {
            assert(render_ansi(rv.take(0)) =~= Seq::<char>::empty());
            while i < self.runs.len()
                invariant
                    rv == self@,
                    i <= rv.len(),
                    out@ == render_ansi(rv.take(i as int)),
                decreases self.runs.len() - i,
            {
                proof {
                    lemma_take_push(rv, i as int);
                    assert(rv.take(i + 1).drop_last() =~= rv.take(i as int));
                }
                if self.runs[i].0.as_str().is_empty() {
                    push_str(&mut out, self.runs[i].1.as_str());
                } else {
                    push_ansi_string(&mut out, self.runs[i].0.as_str());
                    push_str(&mut out, self.runs[i].1.as_str());
                    push_str(&mut out, "\x1b[0m");
                }
                assert(out@ =~= render_ansi(rv.take(i + 1)));
                i = i + 1;
            }
        }
        assert(rv.take(rv.len() as int) =~= rv);
        out
    }

    /// Renders in `mode`, or in ANSI mode when none is given, under the
    /// default switches (styling enabled). A program that keeps its own
    /// switches passes them to [`RText::render_with`].
    pub fn render(&self, mode: Option<RenderMode>) -> (r: String)
        ensures
            r@ == render_spec(
                self@,
                match mode {
                    Some(m) => m,
                    None => RenderMode::Ansi,
                },
                true,
            ),
    {
        self.render_with(mode, &RenderConfig::new())
    }
}

} // verus!

verus! {

// ───────────────────────── replace and split ─────────────────────────


proof fn lemma_replace_run_zero(cells: Seq<Cell>, k: int, old: Seq<char>, new: Seq<Cell>, acc: Seq<Cell>)
    requires
        0 <= k <= cells.len(),
        old.len() > 0,
    ensures
        replace_run(cells, k, old, new, 0, acc) == acc + cells.skip(k),
    decreases cells.len() - k,
{
    if k < cells.len() {
        lemma_replace_run_zero(cells, k + 1, old, new, acc.push(cells[k]));
        assert(acc.push(cells[k]) + cells.skip(k + 1) =~= acc + cells.skip(k));
    } else {
        assert(acc + cells.skip(k) =~= acc);
    }
}

/// Replacing at most no occurrence leaves the cells as they are.
pub proof fn lemma_replace_none(cells: Seq<Cell>, old: Seq<char>, new: Seq<Cell>)
    requires
        old.len() > 0,
    ensures
        replace_cells(cells, old, new, 0) == cells,
{
    lemma_replace_run_zero(cells, 0, old, new, Seq::empty());
    assert(Seq::<Cell>::empty() + cells.skip(0) =~= cells);
}

/// Parts joined by a separator, as characters.
pub open spec fn joined_chars(parts: Seq<Seq<Cell>>, sep: Seq<char>) -> Seq<char>
    decreases parts.len(),
{
    if parts.len() == 0 {
        Seq::empty()
    } else if parts.len() == 1 {
        cell_chars(parts[0])
    } else {
        joined_chars(parts.drop_last(), sep) + sep + cell_chars(parts.last())
    }
}

proof fn lemma_joined_extend(done: Seq<Seq<Cell>>, cur: Seq<Cell>, x: Cell, sep: Seq<char>)
    ensures
        joined_chars(done.push(cur.push(x)), sep) == joined_chars(done.push(cur), sep).push(x.0),
{
    let a = done.push(cur.push(x));
    let b = done.push(cur);
    assert(a.drop_last() =~= done);
    assert(b.drop_last() =~= done);
    assert(cell_chars(cur.push(x)) =~= cell_chars(cur).push(x.0));
    if done.len() == 0 {
        assert(a[0] == cur.push(x));
        assert(b[0] == cur);
    } else {
        assert(joined_chars(a, sep) =~= joined_chars(b, sep).push(x.0));
    }
}

proof fn lemma_split_run_join(cells: Seq<Cell>, k: int, sep: Seq<char>, done: Seq<Seq<Cell>>, cur: Seq<Cell>)
    requires
        0 <= k <= cells.len(),
        sep.len() > 0,
    ensures
        joined_chars(split_run(cells, k, sep, done, cur), sep) == joined_chars(done.push(cur), sep) + cell_chars(
            cells.skip(k),
        ),
    decreases cells.len() - k,
{
    if k >= cells.len() {
        assert(cell_chars(cells.skip(k)) =~= Seq::<char>::empty());
        assert(joined_chars(done.push(cur), sep) + Seq::<char>::empty() =~= joined_chars(done.push(cur), sep));
    } else if matches_at(cell_chars(cells), k, sep) {
        lemma_split_run_join(cells, k + sep.len(), sep, done.push(cur), Seq::empty());
        let d2 = done.push(cur).push(Seq::<Cell>::empty());
        assert(d2.drop_last() =~= done.push(cur));
        assert(cell_chars(Seq::<Cell>::empty()) =~= Seq::<char>::empty());
        assert(joined_chars(d2, sep) =~= joined_chars(done.push(cur), sep) + sep);
        assert(cell_chars(cells.skip(k)) =~= sep + cell_chars(cells.skip(k + sep.len()))) by {
            assert(cell_chars(cells).subrange(k, k + sep.len()) == sep);
            assert forall|q: int| 0 <= q < sep.len() implies cell_chars(cells.skip(k))[q] == sep[q] by {
                assert(cell_chars(cells).subrange(k, k + sep.len())[q] == cell_chars(cells)[k + q]);
            }
        }
    } else {
        lemma_split_run_join(cells, k + 1, sep, done, cur.push(cells[k]));
        lemma_joined_extend(done, cur, cells[k], sep);
        assert(cell_chars(cells.skip(k)) =~= seq![cells[k].0] + cell_chars(cells.skip(k + 1)));
    }
}

/// Splitting at a non-empty separator and joining the parts with it gives
/// back the characters.
pub proof fn lemma_split_join(cells: Seq<Cell>, sep: Seq<char>)
    requires
        sep.len() > 0,
    ensures
        joined_chars(split_cells(cells, sep), sep) == cell_chars(cells),
{
    lemma_split_run_join(cells, 0, sep, Seq::empty(), Seq::empty());
    let d = Seq::<Seq<Cell>>::empty().push(Seq::<Cell>::empty());
    assert(d[0] == Seq::<Cell>::empty());
    assert(cell_chars(Seq::<Cell>::empty()) =~= Seq::<char>::empty());
    assert(cells.skip(0) =~= cells);
    assert(Seq::<char>::empty() + cell_chars(cells) =~= cell_chars(cells));
}

/// Whether `pat` occurs in `s` at position `k`.
pub open spec fn matches_at(s: Seq<char>, k: int, pat: Seq<char>) -> bool {
    0 <= k && k + pat.len() <= s.len() && s.subrange(k, k + pat.len()) == pat
}

/// Replacement from position `k` on, with `left` replacements still allowed
/// and `acc` already produced: scanning left to right, an occurrence of
/// `old` is replaced by `new` and skipped over, any other cell is kept.
pub open spec fn replace_run(
    cells: Seq<Cell>,
    k: int,
    old: Seq<char>,
    new: Seq<Cell>,
    left: nat,
    acc: Seq<Cell>,
) -> Seq<Cell>
    decreases cells.len() - k,
{
    if k < 0 || k >= cells.len() || old.len() == 0 {
        acc
    } else if left > 0 && matches_at(cell_chars(cells), k, old) {
        replace_run(cells, k + old.len(), old, new, (left - 1) as nat, acc + new)
    } else {
        replace_run(cells, k + 1, old, new, left, acc.push(cells[k]))
    }
}

/// The cells with at most `max` occurrences of `old` replaced by `new`.
pub open spec fn replace_cells(cells: Seq<Cell>, old: Seq<char>, new: Seq<Cell>, max: nat) -> Seq<Cell> {
    replace_run(cells, 0, old, new, max, Seq::empty())
}

/// Splitting from position `k` on, with finished parts `done` and the
/// current part `cur`.
pub open spec fn split_run(
    cells: Seq<Cell>,
    k: int,
    sep: Seq<char>,
    done: Seq<Seq<Cell>>,
    cur: Seq<Cell>,
) -> Seq<Seq<Cell>>
    decreases cells.len() - k,
{
    if k < 0 || k >= cells.len() || sep.len() == 0 {
        done.push(cur)
    } else if matches_at(cell_chars(cells), k, sep) {
        split_run(cells, k + sep.len(), sep, done.push(cur), Seq::empty())
    } else {
        split_run(cells, k + 1, sep, done, cur.push(cells[k]))
    }
}

/// Whether `sep` occurs nowhere in the characters of some cells.
pub open spec fn free_of(p: Seq<Cell>, sep: Seq<char>) -> bool {
    forall|q: int| !#[trigger] matches_at(cell_chars(p), q, sep)
}

proof fn lemma_segment_free(cells: Seq<Cell>, s: int, k: int, sep: Seq<char>)
    requires
        sep.len() > 0,
        0 <= s <= k <= cells.len(),
        forall|p: int| s <= p < k ==> !#[trigger] matches_at(cell_chars(cells), p, sep),
    ensures
        free_of(cells.subrange(s, k), sep),
{
    let seg = cells.subrange(s, k);
    assert forall|q: int| !#[trigger] matches_at(cell_chars(seg), q, sep) by {
        if matches_at(cell_chars(seg), q, sep) {
            let n = sep.len() as int;
            assert(cell_chars(cells).subrange(s + q, s + q + n) =~= cell_chars(seg).subrange(q, q + n));
            assert(matches_at(cell_chars(cells), s + q, sep));
        }
    }
}

proof fn lemma_split_run_free(
    cells: Seq<Cell>,
    k: int,
    sep: Seq<char>,
    done: Seq<Seq<Cell>>,
    cur: Seq<Cell>,
    s: int,
)
    requires
        sep.len() > 0,
        0 <= s <= k <= cells.len(),
        cur == cells.subrange(s, k),
        forall|p: int| s <= p < k ==> !#[trigger] matches_at(cell_chars(cells), p, sep),
        forall|i: int| 0 <= i < done.len() ==> free_of(#[trigger] done[i], sep),
    ensures
        forall|i: int|
            0 <= i < split_run(cells, k, sep, done, cur).len() ==> free_of(
                #[trigger] split_run(cells, k, sep, done, cur)[i],
                sep,
            ),
    decreases cells.len() - k,
{
    lemma_segment_free(cells, s, k, sep);
    let d2 = done.push(cur);
    assert forall|i: int| 0 <= i < d2.len() implies free_of(#[trigger] d2[i], sep) by {
        if i < done.len() {
            assert(d2[i] == done[i]);
        }
    }
    if k >= cells.len() {
        assert(split_run(cells, k, sep, done, cur) == d2);
    } else if matches_at(cell_chars(cells), k, sep) {
        let k2 = k + sep.len();
        assert(k2 <= cells.len());
        assert(cells.subrange(k2, k2) =~= Seq::<Cell>::empty());
        assert(split_run(cells, k, sep, done, cur) == split_run(cells, k2, sep, d2, Seq::empty()));
        lemma_split_run_free(cells, k2, sep, d2, Seq::empty(), k2);
    } else {
        assert(cur.push(cells[k]) =~= cells.subrange(s, k + 1));
        assert(split_run(cells, k, sep, done, cur) == split_run(cells, k + 1, sep, done, cur.push(cells[k])));
        lemma_split_run_free(cells, k + 1, sep, done, cur.push(cells[k]), s);
    }
}

/// No part of a split holds the separator.
pub proof fn lemma_split_parts_free(cells: Seq<Cell>, sep: Seq<char>)
    requires
        sep.len() > 0,
    ensures
        forall|i: int| 0 <= i < split_cells(cells, sep).len() ==> free_of(#[trigger] split_cells(cells, sep)[i], sep),
{
    assert(cells.subrange(0, 0) =~= Seq::<Cell>::empty());
    lemma_split_run_free(cells, 0, sep, Seq::empty(), Seq::empty(), 0);
}

/// The parts of some cells between the occurrences of `sep`.
pub open spec fn split_cells(cells: Seq<Cell>, sep: Seq<char>) -> Seq<Seq<Cell>> {
    split_run(cells, 0, sep, Seq::empty(), Seq::empty())
}

proof fn lemma_cells_join_chars(ts: Seq<Seq<(Seq<char>, Seq<char>)>>, sep: Seq<Cell>)
    ensures
        cell_chars(cells_join(ts, sep)) == joined_chars(Seq::new(ts.len(), |i: int| cells_of(ts[i])), cell_chars(sep)),
    decreases ts.len(),
{
    let ps = Seq::new(ts.len(), |i: int| cells_of(ts[i]));
    if ts.len() > 1 {
        let init = ts.drop_last();
        lemma_cells_join_chars(init, sep);
        assert(ps.drop_last() =~= Seq::new(init.len(), |i: int| cells_of(init[i])));
        lemma_cell_chars_add(cells_join(init, sep), sep);
        lemma_cell_chars_add(cells_join(init, sep) + sep, cells_of(ts.last()));
    }
}

proof fn lemma_joined_plain(ps: Seq<Seq<Cell>>, sep: Seq<char>)
    ensures
        joined_chars(ps, sep) == crate::strs::join_spec(Seq::new(ps.len(), |i: int| cell_chars(ps[i])), sep),
    decreases ps.len(),
{
    let cs = Seq::new(ps.len(), |i: int| cell_chars(ps[i]));
    if ps.len() > 1 {
        lemma_joined_plain(ps.drop_last(), sep);
        assert(cs.drop_last() =~= Seq::new(ps.drop_last().len(), |i: int| cell_chars(ps.drop_last()[i])));
    }
}

/// The plain text of joined texts is their plain texts joined by the plain
/// text of the separator (as `[String]::join` joins them).
pub proof fn lemma_join_plain(texts: Seq<RText>, sep: RText)
    ensures
        cell_chars(cells_join(texts_view(texts), cells_of(sep@))) == crate::strs::join_spec(
            Seq::new(texts.len(), |i: int| cell_chars(cells_of(texts[i]@))),
            cell_chars(cells_of(sep@)),
        ),
{
    let tv = texts_view(texts);
    lemma_cells_join_chars(tv, cells_of(sep@));
    let ps = Seq::new(tv.len(), |i: int| cells_of(tv[i]));
    lemma_joined_plain(ps, cell_chars(cells_of(sep@)));
    assert(Seq::new(ps.len(), |i: int| cell_chars(ps[i])) =~= Seq::new(
        texts.len(),
        |i: int| cell_chars(cells_of(texts[i]@)),
    ));
}

/// The texts of runs, one after another.
pub open spec fn runs_text(runs: Seq<(Seq<char>, Seq<char>)>) -> Seq<char>
    decreases runs.len(),
{
    if runs.len() == 0 {
        Seq::empty()
    } else {
        runs_text(runs.drop_last()) + runs.last().1
    }
}

/// The plain text of runs is the concatenation of their texts, whatever the
/// styles; so normalizing the styles (as `RText::from_runs` does) keeps it.
pub proof fn lemma_runs_plain(runs: Seq<(Seq<char>, Seq<char>)>)
    ensures
        cell_chars(cells_of(runs)) == runs_text(runs),
        cell_chars(cells_of(normalize_runs(runs))) == runs_text(runs),
    decreases runs.len(),
{
    if runs.len() > 0 {
        let init = runs.drop_last();
        lemma_runs_plain(init);
        lemma_cell_chars_add(cells_of(init), run_cells(runs.last().0, runs.last().1));
        lemma_cell_chars_run(runs.last().0, runs.last().1);
        let nr = normalize_runs(runs);
        assert(nr.drop_last() =~= normalize_runs(init));
        lemma_cell_chars_add(cells_of(nr.drop_last()), run_cells(nr.last().0, nr.last().1));
        lemma_cell_chars_run(nr.last().0, nr.last().1);
    } else {
        assert(cell_chars(cells_of(runs)) =~= Seq::<char>::empty());
        assert(cell_chars(cells_of(normalize_runs(runs))) =~= Seq::<char>::empty());
    }
}

/// The number of occurrences of `sep` met scanning from position `k`, left
/// to right, each occurrence skipped over (as `str::matches` counts them).
pub open spec fn occurrences_from(s: Seq<char>, k: int, sep: Seq<char>) -> nat
    decreases s.len() - k,
{
    if k < 0 || k >= s.len() || sep.len() == 0 {
        0
    } else if matches_at(s, k, sep) {
        1 + occurrences_from(s, k + sep.len(), sep)
    } else {
        occurrences_from(s, k + 1, sep)
    }
}

proof fn lemma_split_run_count(cells: Seq<Cell>, k: int, sep: Seq<char>, done: Seq<Seq<Cell>>, cur: Seq<Cell>)
    requires
        sep.len() > 0,
        0 <= k,
    ensures
        split_run(cells, k, sep, done, cur).len() == done.len() + 1 + occurrences_from(cell_chars(cells), k, sep),
    decreases cells.len() - k,
{
    if k < cells.len() {
        if matches_at(cell_chars(cells), k, sep) {
            lemma_split_run_count(cells, k + sep.len(), sep, done.push(cur), Seq::empty());
        } else {
            lemma_split_run_count(cells, k + 1, sep, done, cur.push(cells[k]));
        }
    }
}

/// Splitting gives one part more than there are occurrences of the
/// separator.
pub proof fn lemma_split_count(cells: Seq<Cell>, sep: Seq<char>)
    requires
        sep.len() > 0,
    ensures
        split_cells(cells, sep).len() == occurrences_from(cell_chars(cells), 0, sep) + 1,
{
    lemma_split_run_count(cells, 0, sep, Seq::empty(), Seq::empty());
}

/// Splitting a text at a separator and joining the parts with a text of the
/// same characters gives back the characters of the text.
pub proof fn lemma_join_split(t: RText, sep: Seq<char>, parts: Seq<RText>, sep_text: RText)
    requires
        sep.len() > 0,
        texts_cells(parts) == split_cells(cells_of(t@), sep),
        cell_chars(cells_of(sep_text@)) == sep,
    ensures
        cell_chars(cells_join(texts_view(parts), cells_of(sep_text@))) == cell_chars(cells_of(t@)),
{
    let tv = texts_view(parts);
    lemma_cells_join_chars(tv, cells_of(sep_text@));
    assert(Seq::new(tv.len(), |i: int| cells_of(tv[i])) =~= texts_cells(parts));
    lemma_split_join(cells_of(t@), sep);
}

/// Whether `pat` occurs in `s` at position `k`.
fn match_at(s: &Vec<char>, k: usize, pat: &Vec<char>) -> (r: bool)
    ensures
        r == matches_at(s@, k as int, pat@),
{
    if k > s.len() || pat.len() > s.len() - k {
        return false;
    }
    let slen = s.len();
    let mut j: usize = 0;
    while j < pat.len()
        invariant
            slen == s@.len(),
            k + pat@.len() <= s@.len(),
            j <= pat@.len(),
            forall|q: int| 0 <= q < j ==> s@[k + q] == pat@[q],
        decreases pat.len() - j,
    {
        assert(k + j < s@.len());
        if s[k + j] != pat[j] {
            assert(s@.subrange(k as int, k + pat@.len())[j as int] == s@[k + j]);
            return false;
        }
        j = j + 1;
    }
    assert(s@.subrange(k as int, k + pat@.len()) =~= pat@);
    true
}

impl RText {
    /// Replaces occurrences of `old`, left to right and without overlap, by
    /// `replacement` (at most `count` of them when given); unchanged when `old` is
    /// empty.
    pub fn replace_text(&self, old: &str, replacement: &RText, count: Option<usize>) -> (r: RText)
        ensures
            runs_wf(r@),
            old@.len() == 0 ==> r@ == self@,
            old@.len() > 0 ==> cells_of(r@) == replace_cells(
                cells_of(self@),
                old@,
                cells_of(replacement@),
                match count {
                    Some(c) => c as nat,
                    None => usize::MAX as nat,
                },
            ),
    {
        if old.is_empty() {
            return self.duplicate();
        }
        proof {
            use_type_invariant(self);
        }
        let pat = to_chars(old);
        let n = pat.len();
        let (cs, ix) = self.flatten();
        let ghost all = cells_of(self@);
        let ghost chars = cell_chars(all);
        assert(cs@ =~= chars) by {
            assert forall|q: int| 0 <= q < cs@.len() implies cs@[q] == chars[q] by {
                assert(indexed_cells(self@, cs@, ix@)[q] == all[q]);
            }
        }
        let max = match count {
            Some(c) => c,
            None => usize::MAX,
        };
        let ghost newc = cells_of(replacement@);
        let mut out: Vec<Run> = Vec::new();
        let mut i: usize = 0;
        let mut replaced: usize = 0;
        assert(runs_view(out@) =~= Seq::<(Seq<char>, Seq<char>)>::empty());
        while i < cs.len()
            invariant
                all == cells_of(self@),
                newc == cells_of(replacement@),
                chars == cell_chars(all),
                cs@ == chars,
                pat@ == old@,
                n == pat@.len(),
                n > 0,
                runs_wf(self@),
                i <= cs@.len(),
                replaced <= max,
                ix@.len() == cs@.len(),
                forall|q: int| 0 <= q < ix@.len() ==> (#[trigger] ix@[q]) < self@.len(),
                indexed_cells(self@, cs@, ix@) == all,
                runs_wf(runs_view(out@)),
                replace_run(all, i as int, old@, newc, (max - replaced) as nat, cells_of(runs_view(out@)))
                    == replace_cells(all, old@, newc, max as nat),
            decreases cs.len() - i,
        {
            let ghost acc = cells_of(runs_view(out@));
            if replaced < max && match_at(&cs, i, &pat) {
                assert(replace_run(all, i as int, old@, newc, (max - replaced) as nat, acc) == replace_run(
                    all,
                    i + n,
                    old@,
                    newc,
                    (max - replaced - 1) as nat,
                    acc + newc,
                ));
                RText::push_runs(&mut out, replacement);
                assert(cells_of(runs_view(out@)) == acc + newc);
                i = i + n;
                replaced = replaced + 1;
                assert(replace_run(all, i as int, old@, newc, (max - replaced) as nat, cells_of(runs_view(out@)))
                    == replace_cells(all, old@, newc, max as nat));
            } else {
                let ghost ri = ix@[i as int] as int;
                assert(indexed_cells(self@, cs@, ix@)[i as int] == all[i as int]);
                assert(self@[ri].0 == self.runs@[ri].0@);
                assert(replace_run(all, i as int, old@, newc, (max - replaced) as nat, acc) == replace_run(
                    all,
                    i + 1,
                    old@,
                    newc,
                    (max - replaced) as nat,
                    acc.push(all[i as int]),
                ));
                push_cell(&mut out, &self.runs[ix[i]].0, cs[i]);
                assert(cells_of(runs_view(out@)) == acc.push(all[i as int]));
                i = i + 1;
            }
        }
        RText { runs: out }
    }

    /// The parts between the occurrences of `sep` (one part more than there
    /// are occurrences).  A non-empty text needs a non-empty separator.
    pub fn split_text(&self, sep: &str) -> (r: Vec<RText>)
        requires
            sep@.len() > 0 || cells_of(self@).len() == 0,
        ensures
            forall|i: int| 0 <= i < r@.len() ==> runs_wf(#[trigger] r@[i]@),
            texts_cells(r@) == split_cells(cells_of(self@), sep@),
    {
        proof {
            use_type_invariant(self);
        }
        let pat = to_chars(sep);
        let n = pat.len();
        let (cs, ix) = self.flatten();
        let ghost all = cells_of(self@);
        let ghost chars = cell_chars(all);
        assert(cs@ =~= chars) by {
            assert forall|q: int| 0 <= q < cs@.len() implies cs@[q] == chars[q] by {
                assert(indexed_cells(self@, cs@, ix@)[q] == all[q]);
            }
        }
        let mut parts: Vec<RText> = Vec::new();
        let mut cur: Vec<Run> = Vec::new();
        let mut i: usize = 0;
        assert(runs_view(cur@) =~= Seq::<(Seq<char>, Seq<char>)>::empty());
        assert(texts_cells(parts@) =~= Seq::<Seq<Cell>>::empty());
        while i < cs.len()
            invariant
                all == cells_of(self@),
                chars == cell_chars(all),
                cs@ == chars,
                pat@ == sep@,
                n == pat@.len(),
                n > 0 || all.len() == 0,
                runs_wf(self@),
                i <= cs@.len(),
                ix@.len() == cs@.len(),
                forall|q: int| 0 <= q < ix@.len() ==> (#[trigger] ix@[q]) < self@.len(),
                indexed_cells(self@, cs@, ix@) == all,
                runs_wf(runs_view(cur@)),
                forall|q: int| 0 <= q < parts@.len() ==> runs_wf(#[trigger] parts@[q]@),
                split_run(all, i as int, sep@, texts_cells(parts@), cells_of(runs_view(cur@)))
                    == split_cells(all, sep@),
            decreases cs.len() - i,
        {
            if match_at(&cs, i, &pat) {
                let mut taken: Vec<Run> = Vec::new();
                std::mem::swap(&mut taken, &mut cur);
                let ghost before = texts_cells(parts@);
                parts.push(RText { runs: taken });
                assert(texts_cells(parts@) =~= before.push(cells_of(runs_view(taken@))));
                assert(runs_view(cur@) =~= Seq::<(Seq<char>, Seq<char>)>::empty());
                i = i + n;
            } else {
                let ghost ri = ix@[i as int] as int;
                assert(indexed_cells(self@, cs@, ix@)[i as int] == all[i as int]);
                assert(self@[ri].0 == self.runs@[ri].0@);
                push_cell(&mut cur, &self.runs[ix[i]].0, cs[i]);
                i = i + 1;
            }
        }
        let ghost before = texts_cells(parts@);
        parts.push(RText { runs: cur });
        assert(texts_cells(parts@) =~= before.push(cells_of(runs_view(cur@))));
        parts
    }
}

} // verus!

verus! {

// ───────────────────────── templates ─────────────────────────

/// The first `]` at or after position `i`.
pub open spec fn find_close(t: Seq<char>, i: int) -> Option<int>
    decreases t.len() - i,
{
    if i < 0 || i >= t.len() {
        None
    } else if t[i] == ']' {
        Some(i)
    } else {
        find_close(t, i + 1)
    }
}

/// The cells of an argument whose runs are laid over `style`.
pub open spec fn arg_cells(runs: Seq<(Seq<char>, Seq<char>)>, style: Seq<char>) -> Seq<Cell> {
    cells_of(Seq::new(runs.len(), |k: int| (normalized(combined(style, runs[k].0)), runs[k].1)))
}

/// Reading a template from position `i` on, in the current `style`, with
/// `arg_i` arguments used and `acc` produced so far.
///
/// `[[` and `]]` stand for `[` and `]`; `[]` inserts the next argument laid
/// over the current style; `[.]` resets the style; `[.keys]` resets it to
/// `keys`; `[keys]` lays `keys` over it; a `[` without a closing `]` is text.
pub open spec fn parse_run(
    t: Seq<char>,
    i: int,
    style: Seq<char>,
    arg_i: nat,
    args: Seq<Seq<(Seq<char>, Seq<char>)>>,
    acc: Seq<Cell>,
) -> Seq<Cell>
    decreases t.len() - i,
{
    if i < 0 || i >= t.len() {
        acc
    } else if t[i] == '[' {
        if i + 1 < t.len() && t[i + 1] == '[' {
            parse_run(t, i + 2, style, arg_i, args, acc.push(('[', normalized(style))))
        } else {
            match find_close(t, i) {
                None => parse_run(t, i + 1, style, arg_i, args, acc.push(('[', normalized(style)))),
                Some(j) => {
                    if j <= i || j >= t.len() {
                        acc
                    } else {
                        let token = t.subrange(i + 1, j);
                        if token.len() == 0 {
                            if arg_i < args.len() {
                                parse_run(t, j + 1, style, arg_i + 1, args, acc + arg_cells(args[arg_i as int], style))
                            } else {
                                parse_run(t, j + 1, style, arg_i, args, acc)
                            }
                        } else if token == seq!['.'] {
                            parse_run(t, j + 1, Seq::empty(), arg_i, args, acc)
                        } else if token[0] == '.' {
                            parse_run(t, j + 1, normalized(token.skip(1)), arg_i, args, acc)
                        } else {
                            parse_run(t, j + 1, combined(style, token), arg_i, args, acc)
                        }
                    }
                },
            }
        }
    } else if t[i] == ']' && i + 1 < t.len() && t[i + 1] == ']' {
        parse_run(t, i + 2, style, arg_i, args, acc.push((']', normalized(style))))
    } else {
        parse_run(t, i + 1, style, arg_i, args, acc.push((t[i], normalized(style))))
    }
}

/// The cells of a template filled with arguments.
pub open spec fn parse_cells(t: Seq<char>, args: Seq<Seq<(Seq<char>, Seq<char>)>>) -> Seq<Cell> {
    parse_run(t, 0, Seq::empty(), 0, args, Seq::empty())
}

proof fn lemma_parse_plain_from(
    t: Seq<char>,
    i: int,
    arg_i: nat,
    args: Seq<Seq<(Seq<char>, Seq<char>)>>,
    acc: Seq<Cell>,
)
    requires
        0 <= i <= t.len(),
        forall|q: int| 0 <= q < t.len() ==> #[trigger] t[q] != '[' && t[q] != ']',
    ensures
        parse_run(t, i, Seq::empty(), arg_i, args, acc) == acc + run_cells(Seq::empty(), t.skip(i)),
    decreases t.len() - i,
{
    assert(normalized(Seq::<char>::empty()) =~= Seq::<char>::empty());
    if i < t.len() {
        assert(t[i] != '[' && t[i] != ']');
        lemma_parse_plain_from(t, i + 1, arg_i, args, acc.push((t[i], Seq::<char>::empty())));
        assert(acc.push((t[i], Seq::<char>::empty())) + run_cells(Seq::empty(), t.skip(i + 1)) =~= acc
            + run_cells(Seq::empty(), t.skip(i)));
    } else {
        assert(acc + run_cells(Seq::empty(), t.skip(i)) =~= acc);
    }
}

/// A template without brackets is its own text, unstyled, whatever the
/// arguments.
pub proof fn lemma_parse_plain(t: Seq<char>, args: Seq<Seq<(Seq<char>, Seq<char>)>>)
    requires
        forall|q: int| 0 <= q < t.len() ==> #[trigger] t[q] != '[' && t[q] != ']',
    ensures
        parse_cells(t, args) == run_cells(Seq::empty(), t),
{
    lemma_parse_plain_from(t, 0, 0, args, Seq::empty());
    assert(t.skip(0) =~= t);
    assert(Seq::<Cell>::empty() + run_cells(Seq::empty(), t) =~= run_cells(Seq::empty(), t));
}

proof fn lemma_find_close(t: Seq<char>, i: int)
    requires
        0 <= i,
    ensures
        find_close(t, i) matches Some(j) ==> i <= j < t.len() && t[j] == ']' && forall|q: int|
            i <= q < j ==> t[q] != ']',
        find_close(t, i) is None ==> forall|q: int| i <= q < t.len() ==> t[q] != ']',
    decreases t.len() - i,
{
    if i < t.len() && t[i] != ']' {
        lemma_find_close(t, i + 1);
    }
}

/// The first `]` at or after position `i`.
fn find_close_exec(t: &Vec<char>, i: usize) -> (r: Option<usize>)
    ensures
        r matches Some(j) ==> find_close(t@, i as int) == Some(j as int),
        r is None ==> find_close(t@, i as int) is None,
{
    let mut k = i;
    proof {
        lemma_find_close(t@, i as int);
    }
    while k < t.len()
        invariant
            i <= k,
            forall|q: int| i <= q < k ==> t@[q] != ']',
        decreases t.len() - k,
    {
        if t[k] == ']' {
            proof {
                lemma_find_close(t@, i as int);
                if let Some(j) = find_close(t@, i as int) {
                    if j < k {
                        assert(t@[j] != ']');
                    }
                }
            }
            return Some(k);
        }
        k = k + 1;
    }
    proof {
        lemma_find_close(t@, i as int);
    }
    None
}

impl RText {
    /// Adds the runs of `t` laid over `style`.
    fn push_arg(v: &mut Vec<Run>, t: &RText, style: &String)
        requires
            runs_wf(runs_view(old(v)@)),
        ensures
            runs_wf(runs_view(final(v)@)),
            cells_of(runs_view(final(v)@)) == cells_of(runs_view(old(v)@)) + arg_cells(t@, style@),
    {
        let ghost base = cells_of(runs_view(v@));
        let ghost target = Seq::new(t@.len(), |k: int| (normalized(combined(style@, t@[k].0)), t@[k].1));
        let mut j: usize = 0;
        assert(target.take(0) =~= Seq::<(Seq<char>, Seq<char>)>::empty());
        assert(base + cells_of(target.take(0)) =~= base);
        while j < t.runs.len()
            invariant
                target == Seq::new(t@.len(), |k: int| (normalized(combined(style@, t@[k].0)), t@[k].1)),
                j <= t@.len(),
                runs_wf(runs_view(v@)),
                cells_of(runs_view(v@)) == base + cells_of(target.take(j as int)),
            decreases t.runs.len() - j,
        {
            assert(t@[j as int] == (t.runs@[j as int].0@, t.runs@[j as int].1@));
            let both = combine_styles(style.as_str(), t.runs[j].0.as_str());
            let st = normalize_style(both.as_str());
            proof {
                lemma_normalized_idempotent(both@);
            }
            push_text(v, &st, t.runs[j].1.as_str());
            proof {
                lemma_take_push(target, j as int);
                lemma_cells_push(target.take(j as int), target[j as int]);
            }
            j = j + 1;
        }
        assert(target.take(target.len() as int) =~= target);
    }

    /// Fills a template: text is shown in the current style; `[keys]` lays
    /// style keys over it, `[.]` resets it, `[.keys]` resets it to `keys`,
    /// `[]` inserts the next argument laid over it, and `[[`, `]]` stand for
    /// brackets.
    pub fn parse(template: &str, args: &[RText]) -> (r: RText)
        ensures
            runs_wf(r@),
            cells_of(r@) == parse_cells(template@, texts_view(args@)),
    {
        let t = to_chars(template);
        let ghost av = texts_view(args@);
        let mut out: Vec<Run> = Vec::new();
        let mut style = String::new();
        let mut norm = String::new();
        let mut arg_i: usize = 0;
        let mut i: usize = 0;
        assert(runs_view(out@) =~= Seq::<(Seq<char>, Seq<char>)>::empty());
        assert(normalized(Seq::<char>::empty()) =~= Seq::<char>::empty());
        while i < t.len()
            invariant
                t@ == template@,
                av == texts_view(args@),
                i <= t@.len(),
                arg_i <= args@.len(),
                norm@ == normalized(style@),
                normalized(norm@) == norm@,
                runs_wf(runs_view(out@)),
                parse_run(t@, i as int, style@, arg_i as nat, av, cells_of(runs_view(out@)))
                    == parse_cells(template@, av),
            decreases t.len() - i,
        {
            let ghost acc = cells_of(runs_view(out@));
            let c = t[i];
            if c == '[' {
                if i + 1 < t.len() && t[i + 1] == '[' {
                    push_cell(&mut out, &norm, '[');
                    i = i + 2;
                } else {
                    match find_close_exec(&t, i) {
                        None => {
                            push_cell(&mut out, &norm, '[');
                            i = i + 1;
                        },
                        Some(j) => {
                            proof {
                                lemma_find_close(t@, i as int);
                            }
                            let ghost token = t@.subrange(i + 1, j as int);
                            if j == i + 1 {
                                if arg_i < args.len() {
                                    RText::push_arg(&mut out, &args[arg_i], &style);
                                    assert(av[arg_i as int] == args@[arg_i as int]@);
                                    arg_i = arg_i + 1;
                                }
                            } else if j == i + 2 && t[i + 1] == '.' {
                                assert(token =~= seq!['.']);
                                style = String::new();
                                norm = String::new();
                                assert(style@ =~= Seq::<char>::empty());
                            } else if t[i + 1] == '.' {
                                let rest = string_from_range(&t, i + 2, j);
                                assert(rest@ =~= token.skip(1));
                                style = normalize_style(rest.as_str());
                                proof {
                                    lemma_normalized_idempotent(rest@);
                                }
                                norm = copy_string(&style);
                            } else {
                                assert(token.len() != 0);
                                proof {
                                    if token.len() == 1 {
                                        assert(token[0] != '.');
                                        assert(token != seq!['.']);
                                    }
                                }
                                let tok = string_from_range(&t, i + 1, j);
                                style = combine_styles(style.as_str(), tok.as_str());
                                norm = normalize_style(style.as_str());
                                proof {
                                    lemma_normalized_idempotent(style@);
                                }
                            }
                            i = j + 1;
                        },
                    }
                }
            } else if c == ']' && i + 1 < t.len() && t[i + 1] == ']' {
                push_cell(&mut out, &norm, ']');
                i = i + 2;
            } else {
                push_cell(&mut out, &norm, c);
                i = i + 1;
            }
        }
        RText { runs: out }
    }
}

} // verus!

verus! {

// ───────────────────────── std traits ─────────────────────────

impl Clone for RText {
    fn clone(&self) -> (r: Self)
        ensures
            r@ == self@,
    {
        self.duplicate()
    }
}

impl Default for RText {
    fn default() -> (r: Self)
        ensures
            r@ == Seq::<(Seq<char>, Seq<char>)>::empty(),
    {
        RText::new()
    }
}

impl PartialEq for RText {
    fn eq(&self, other: &Self) -> (r: bool) {
        if self.runs.len() != other.runs.len() {
            assert(self@.len() != other@.len());
            return false;
        }
        let mut i: usize = 0;
        while i < self.runs.len()
            invariant
                self.runs@.len() == other.runs@.len(),
                i <= self.runs@.len(),
                forall|q: int| 0 <= q < i ==> self@[q] == other@[q],
            decreases self.runs.len() - i,
        {
            if !(self.runs[i].0 == other.runs[i].0) || !(self.runs[i].1 == other.runs[i].1) {
                assert(self@[i as int] != other@[i as int]);
                return false;
            }
            i = i + 1;
        }
        assert(self@ =~= other@);
        true
    }
}

impl vstd::std_specs::cmp::PartialEqSpecImpl for RText {
    open spec fn obeys_eq_spec() -> bool {
        true
    }

    open spec fn eq_spec(&self, other: &Self) -> bool {
        self@ == other@
    }
}

impl Eq for RText {

}

impl vstd::std_specs::ops::AddSpecImpl for RText {
    /// `+` is specified by the `ensures` of `add` below, not through this trait.
    open spec fn obeys_add_spec() -> bool {
        false
    }

    open spec fn add_req(self, rhs: RText) -> bool {
        true
    }

    open spec fn add_spec(self, rhs: RText) -> RText {
        self
    }
}

impl std::ops::Add for RText {
    type Output = RText;

    fn add(self, rhs: RText) -> (r: RText)
        ensures
            cells_of(r@) == cells_of(self@) + cells_of(rhs@),
    {
        self.append(&rhs)
    }
}

impl<'a> vstd::std_specs::ops::AddSpecImpl<&'a RText> for RText {
    /// `+` is specified by the `ensures` of `add` below, not through this trait.
    open spec fn obeys_add_spec() -> bool {
        false
    }

    open spec fn add_req(self, rhs: &'a RText) -> bool {
        true
    }

    open spec fn add_spec(self, rhs: &'a RText) -> RText {
        self
    }
}

impl<'a> std::ops::Add<&'a RText> for RText {
    type Output = RText;

    fn add(self, rhs: &'a RText) -> (r: RText)
        ensures
            cells_of(r@) == cells_of(self@) + cells_of(rhs@),
    {
        self.append(rhs)
    }
}

impl<'a> vstd::std_specs::ops::AddSpecImpl<&'a str> for RText {
    /// `+` is specified by the `ensures` of `add` below, not through this trait.
    open spec fn obeys_add_spec() -> bool {
        false
    }

    open spec fn add_req(self, rhs: &'a str) -> bool {
        true
    }

    open spec fn add_spec(self, rhs: &'a str) -> RText {
        self
    }
}

impl<'a> std::ops::Add<&'a str> for RText {
    type Output = RText;

    fn add(self, rhs: &'a str) -> (r: RText)
        ensures
            cells_of(r@) == cells_of(self@) + run_cells(normalized(Seq::empty()), rhs@),
    {
        let t = RText::plain_text(rhs);
        proof {
            reveal_strlit("");
            assert(""@ =~= Seq::<char>::empty());
            if rhs@.len() == 0 {
                assert(run_cells(normalized(Seq::empty()), rhs@) =~= Seq::<Cell>::empty());
            } else {
                lemma_cells_push(Seq::empty(), (normalized(Seq::empty()), rhs@));
                assert(Seq::<(Seq<char>, Seq<char>)>::empty().push((normalized(Seq::empty()), rhs@)) =~= t@);
            }
        }
        self.append(&t)
    }
}

// ───────────────────────── RBuffer ─────────────────────────

/// A mutable builder of rich text.
#[derive(Debug)]
pub struct RBuffer {
    runs: Vec<Run>,
}

impl View for RBuffer {
    type V = Seq<(Seq<char>, Seq<char>)>;

    closed spec fn view(&self) -> Seq<(Seq<char>, Seq<char>)> {
        runs_view(self.runs@)
    }
}

impl Default for RBuffer {
    fn default() -> (r: Self)
        ensures
            r@ == Seq::<(Seq<char>, Seq<char>)>::empty(),
    {
        RBuffer::new()
    }
}

impl RBuffer {
    #[verifier::type_invariant]
    spec fn inv(self) -> bool {
        runs_wf(runs_view(self.runs@))
    }

    /// An empty buffer.
    pub fn new() -> (r: RBuffer)
        ensures
            r@ == Seq::<(Seq<char>, Seq<char>)>::empty(),
    {
        let r = RBuffer { runs: Vec::new() };
        assert(r@ =~= Seq::<(Seq<char>, Seq<char>)>::empty());
        r
    }

    /// Adds `text` in the normalized `style`.
    fn push_run(&mut self, style: &str, text: &str)
        ensures
            cells_of(final(self)@) == cells_of(old(self)@) + run_cells(normalized(style@), text@),
    {
        proof {
            use_type_invariant(&*self);
        }
        let st = normalize_style(style);
        proof {
            lemma_normalized_idempotent(style@);
        }
        let mut runs: Vec<Run> = Vec::new();
        std::mem::swap(&mut runs, &mut self.runs);
        push_text(&mut runs, &st, text);
        self.runs = runs;
    }

    /// Adds `text` in the normalized `style`.
    pub fn add_str(&mut self, text: &str, style: &str) -> (r: &mut Self)
        ensures
            cells_of(r@) == cells_of(old(self)@) + run_cells(normalized(style@), text@),
            *final(self) == *final(r),
    {
        self.push_run(style, text);
        self
    }

    /// Adds `text` in the normalized `style` (arguments in the other order).
    pub fn run(&mut self, style: &str, text: &str) -> (r: &mut Self)
        ensures
            cells_of(r@) == cells_of(old(self)@) + run_cells(normalized(style@), text@),
            *final(self) == *final(r),
    {
        self.push_run(style, text);
        self
    }

    /// Adds the runs of a list of canonical runs.
    #[verifier::rlimit(40)]
    fn push_all(&mut self, runs: &Vec<Run>)
        requires
            runs_wf(runs_view(runs@)),
        ensures
            cells_of(final(self)@) == cells_of(old(self)@) + cells_of(runs_view(runs@)),
    {
        proof {
            use_type_invariant(&*self);
        }
        let mut mine: Vec<Run> = Vec::new();
        std::mem::swap(&mut mine, &mut self.runs);
        let ghost base = cells_of(runs_view(mine@));
        let ghost rv = runs_view(runs@);
        let mut j: usize = 0;
        assert(rv.take(0) =~= Seq::<(Seq<char>, Seq<char>)>::empty());
        assert(base + cells_of(rv.take(0)) =~= base);
        while j < runs.len()
            invariant
                rv == runs_view(runs@),
                runs_wf(rv),
                j <= rv.len(),
                runs_wf(runs_view(mine@)),
                cells_of(runs_view(mine@)) == base + cells_of(rv.take(j as int)),
            decreases runs.len() - j,
        {
            assert(rv[j as int] == (runs@[j as int].0@, runs@[j as int].1@));
            push_text(&mut mine, &runs[j].0, runs[j].1.as_str());
            proof {
                lemma_take_push(rv, j as int);
                lemma_cells_push(rv.take(j as int), rv[j as int]);
            }
            j = j + 1;
        }
        assert(rv.take(rv.len() as int) =~= rv);
        self.runs = mine;
    }

    /// Adds the runs of a text.
    pub fn add_text(&mut self, text: &RText) -> (r: &mut Self)
        ensures
            cells_of(r@) == cells_of(old(self)@) + cells_of(text@),
            *final(self) == *final(r),
    {
        let runs = text.runs();
        let mut copy: Vec<Run> = Vec::new();
        RText::push_runs(&mut copy, text);
        assert(runs_view(Seq::<Run>::empty()) =~= Seq::<(Seq<char>, Seq<char>)>::empty());
        self.push_all(&copy);
        self
    }

    /// Adds the runs of another buffer.
    pub fn add_buf(&mut self, other: &RBuffer) -> (r: &mut Self)
        ensures
            cells_of(r@) == cells_of(old(self)@) + cells_of(other@),
            *final(self) == *final(r),
    {
        proof {
            use_type_invariant(other);
        }
        self.push_all(&other.runs);
        self
    }

    /// Empties the buffer.
    pub fn clear(&mut self) -> (r: &mut Self)
        ensures
            r@ == Seq::<(Seq<char>, Seq<char>)>::empty(),
            *final(self) == *final(r),
    {
        self.runs = Vec::new();
        assert(self@ =~= Seq::<(Seq<char>, Seq<char>)>::empty());
        self
    }

    /// The text built so far.
    pub fn to_text(&self) -> (r: RText)
        ensures
            runs_wf(r@),
            cells_of(r@) == cells_of(self@),
    {
        proof {
            use_type_invariant(self);
        }
        let mut copy: Vec<Run> = Vec::new();
        let mut i: usize = 0;
        while i < self.runs.len()
            invariant
                i <= self.runs@.len(),
                runs_view(copy@) == self@.take(i as int),
            decreases self.runs.len() - i,
        {
            let ghost before = copy@;
            copy.push((copy_string(&self.runs[i].0), copy_string(&self.runs[i].1)));
            proof {
                lemma_runs_view_push(before, copy@[i as int]);
                lemma_take_push(self@, i as int);
            }
            i = i + 1;
        }
        assert(self@.take(self@.len() as int) =~= self@);
        RText::from_canonical(copy)
    }

    /// Whether the buffer is empty.
    pub fn is_empty(&self) -> (r: bool)
        ensures
            r == (self@.len() == 0),
    {
        self.runs.len() == 0
    }
}

impl RText {
    /// A text made of runs that are already canonical.
    fn from_canonical(runs: Vec<Run>) -> (r: RText)
        requires
            runs_wf(runs_view(runs@)),
        ensures
            r@ == runs_view(runs@),
    {
        RText { runs }
    }
}

} // verus!
