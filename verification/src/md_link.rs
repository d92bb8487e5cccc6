//! Markdown anchor links made from titles.

use crate::chars::{push_char, to_chars};
use crate::unicode::{all_ascii, ascii_lower, is_alphanumeric, lower_form, to_lower, unicode_alphanumeric};
use vstd::prelude::*;

verus! {

/// What one character of a lower-cased title becomes in its anchor: a space
/// or a hyphen gives `-`, an underscore stays, a letter or digit stays, and
/// anything else is dropped.
pub open spec fn link_char(c: char) -> Seq<char> {
    if c == ' ' || c == '-' {
        seq!['-']
    } else if c == '_' {
        seq!['_']
    } else if unicode_alphanumeric(c) {
        seq![c]
    } else {
        Seq::empty()
    }
}

/// The anchor characters of a lower-cased title, in order.
pub open spec fn link_chars(s: Seq<char>) -> Seq<char>
    decreases s.len(),
{
    if s.len() == 0 {
        Seq::empty()
    } else {
        link_chars(s.drop_last()) + link_char(s.last())
    }
}

/// An anchor holds only `-`, `_`, letters and digits.
pub proof fn lemma_link_alphabet(s: Seq<char>)
    ensures
        forall|k: int|
            0 <= k < link_chars(s).len() ==> {
                let c = #[trigger] link_chars(s)[k];
                c == '-' || c == '_' || unicode_alphanumeric(c)
            },
    decreases s.len(),
{
    if s.len() > 0 {
        lemma_link_alphabet(s.drop_last());
        let a = link_chars(s.drop_last());
        let b = link_char(s.last());
        assert forall|k: int| 0 <= k < link_chars(s).len() implies {
            let c = #[trigger] link_chars(s)[k];
            c == '-' || c == '_' || unicode_alphanumeric(c)
        } by {
            if k >= a.len() {
                assert(link_chars(s)[k] == b[k - a.len()]);
            } else {
                assert(link_chars(s)[k] == a[k]);
            }
        }
    }
}

/// Characters that an anchor keeps as they are: `-`, `_`, and lower-case
/// ASCII letters and digits.
pub open spec fn plain_anchor(s: Seq<char>) -> bool {
    forall|k: int|
        0 <= k < s.len() ==> {
            let c = #[trigger] s[k];
            c == '-' || c == '_' || ('a' <= c && c <= 'z') || ('0' <= c && c <= '9')
        }
}

proof fn lemma_link_fixed(s: Seq<char>)
    requires
        forall|k: int| 0 <= k < s.len() ==> {
            let c = #[trigger] s[k];
            c == '-' || c == '_' || (unicode_alphanumeric(c) && c != ' ')
        },
    ensures
        link_chars(s) == s,
    decreases s.len(),
{
    if s.len() > 0 {
        lemma_link_fixed(s.drop_last());
        let c = s.last();
        assert(s[s.len() - 1] == c);
        assert(link_char(c) == seq![c]);
        assert(s.drop_last().push(c) =~= s);
        assert(s.drop_last() + seq![c] =~= s);
    }
}

/// Making an anchor twice gives the anchor: for an ASCII title `t` whose
/// anchor is `r` (so that `r` holds only `-`, `_`, lower-case ASCII letters
/// and digits, and lower-casing it changes nothing), the anchor of `r` is
/// `r`. The facts on lower-casing are those that [`get_md_link`] states of
/// each call.
pub proof fn lemma_md_link_idempotent(r: Seq<char>)
    requires
        plain_anchor(r),
        lower_form(r) == r.map_values(|c: char| ascii_lower(c)),
        forall|k: int| 0 <= k < r.len() ==> (unicode_alphanumeric(#[trigger] r[k]) && r[k] != ' ') || r[k] == '-' || r[k] == '_',
    ensures
        link_chars(lower_form(r)) == r,
{
    assert(r.map_values(|c: char| ascii_lower(c)) =~= r) by {
        assert forall|k: int| 0 <= k < r.len() implies #[trigger] ascii_lower(r[k]) == r[k] by {
            let c = r[k];
            assert(c == '-' || c == '_' || ('a' <= c && c <= 'z') || ('0' <= c && c <= '9'));
        }
    }
    lemma_link_fixed(r);
}

/// The Markdown anchor of a title: the title lower-cased, spaces and
/// hyphens turned into `-`, underscores, letters and digits kept, all other
/// characters dropped. For an ASCII title, lower-casing is ASCII
/// lower-casing and the anchor holds only `-`, `_`, lower-case letters and
/// digits.
pub fn get_md_link(title: String) -> (r: String)
    ensures
        r@ == link_chars(lower_form(title@)),
        forall|k: int| 0 <= k < r@.len() ==> (unicode_alphanumeric(#[trigger] r@[k]) && r@[k] != ' ') || r@[k] == '-' || r@[k] == '_',
        all_ascii(title@) ==> lower_form(title@) == title@.map_values(|c: char| ascii_lower(c)),
        all_ascii(title@) ==> plain_anchor(r@),
{
    let lower = to_lower(title.as_str());
    let v = to_chars(lower.as_str());
    let ghost ascii = all_ascii(title@);
    let mut out = String::new();
    let mut i: usize = 0;
    while i < v.len()
        invariant
            i <= v@.len(),
            v@ == lower_form(title@),
            out@ == link_chars(v@.take(i as int)),
            ascii ==> v@ == title@.map_values(|c: char| ascii_lower(c)),
            ascii == all_ascii(title@),
            forall|k: int| 0 <= k < out@.len() ==> (unicode_alphanumeric(#[trigger] out@[k]) && out@[k] != ' ') || out@[k] == '-' || out@[k] == '_',
            ascii ==> plain_anchor(out@),
        decreases v.len() - i,
    {
        let c = v[i];
        let ghost before = out@;
        proof {
            if ascii {
                assert(c == ascii_lower(title@[i as int]));
                assert((title@[i as int] as u32) < 128);
            }
        }
        if c == ' ' || c == '-' {
            push_char(&mut out, '-');
        } else if c == '_' {
            push_char(&mut out, '_');
        } else if is_alphanumeric(c) {
            push_char(&mut out, c);
        }
        assert(v@.take(i + 1).drop_last() =~= v@.take(i as int));
        i = i + 1;
        assert(out@ =~= link_chars(v@.take(i as int)));
        proof {
            assert forall|k: int| 0 <= k < out@.len() implies (unicode_alphanumeric(#[trigger] out@[k]) && out@[k] != ' ') || out@[k] == '-' || out@[k] == '_' by {
                if k < before.len() {
                    assert(out@[k] == before[k]);
                }
            }
            if ascii {
                assert forall|k: int| 0 <= k < out@.len() implies {
                    let d = #[trigger] out@[k];
                    d == '-' || d == '_' || ('a' <= d && d <= 'z') || ('0' <= d && d <= '9')
                } by {
                    if k < before.len() {
                        assert(out@[k] == before[k]);
                    }
                }
            }
        }
    }
    assert(v@.take(v@.len() as int) =~= v@);
    out
}

} // verus!
