//! A plain list of styled runs, kept canonical.

pub use crate::rtext::normalize_style;

use crate::rtext::{cells_of, lemma_cells_push, lemma_normalized_idempotent, normalize_runs, normalized, push_text, runs_view, runs_wf, Run};
use vstd::prelude::*;

verus! {

/// Styled runs: normalized styles, no empty run, no two neighbours of one
/// style.
pub struct RT {
    runs: Vec<Run>,
}

impl View for RT {
    type V = Seq<(Seq<char>, Seq<char>)>;

    closed spec fn view(&self) -> Seq<(Seq<char>, Seq<char>)> {
        runs_view(self.runs@)
    }
}

impl RT {
    #[verifier::type_invariant]
    spec fn inv(self) -> bool {
        runs_wf(runs_view(self.runs@))
    }

    /// Runs built from `runs` when given, else from `text` in `style`, else
    /// none.
    pub fn new(text: Option<&str>, style: &str, runs: Option<Vec<Run>>) -> (r: RT)
        ensures
            runs_wf(r@),
            cells_of(r@) == cells_of(normalize_runs(match runs {
                Some(v) => runs_view(v@),
                None => match text {
                    Some(t) => seq![(style@, t@)],
                    None => Seq::empty(),
                },
            })),
    {
        let empty = RT { runs: Vec::new() };
        assert(runs_view(empty.runs@) =~= Seq::<(Seq<char>, Seq<char>)>::empty());
        let merged = match runs {
            Some(v) => empty._merge(&v),
            None => match text {
                Some(t) => {
                    let one: Vec<Run> = vec![(style.to_string(), t.to_string())];
                    assert(runs_view(one@) =~= seq![(style@, t@)]);
                    empty._merge(&one)
                },
                None => {
                    let none: Vec<Run> = Vec::new();
                    assert(runs_view(none@) =~= Seq::<(Seq<char>, Seq<char>)>::empty());
                    empty._merge(&none)
                },
            },
        };
        RT { runs: merged }
    }

    /// `runs` made canonical: each style normalized, empty runs dropped and
    /// neighbours of one style merged.
    pub fn _merge(&self, runs: &Vec<Run>) -> (r: Vec<Run>)
        ensures
            runs_wf(runs_view(r@)),
            cells_of(runs_view(r@)) == cells_of(normalize_runs(runs_view(runs@))),
    {
        let mut merged: Vec<Run> = Vec::new();
        let mut i: usize = 0;
        assert(normalize_runs(runs_view(runs@.take(0))) =~= Seq::<(Seq<char>, Seq<char>)>::empty());
        assert(runs_view(merged@) =~= Seq::<(Seq<char>, Seq<char>)>::empty());
        while i < runs.len()
            invariant
                i <= runs@.len(),
                runs_wf(runs_view(merged@)),
                cells_of(runs_view(merged@)) == cells_of(normalize_runs(runs_view(runs@.take(i as int)))),
            decreases runs.len() - i,
        {
            let st = normalize_style(runs[i].0.as_str());
            proof {
                lemma_normalized_idempotent(runs@[i as int].0@);
            }
            push_text(&mut merged, &st, runs[i].1.as_str());
            proof {
                let a = normalize_runs(runs_view(runs@.take(i as int)));
                let b = normalize_runs(runs_view(runs@.take(i + 1)));
                assert(b =~= a.push((normalized(runs@[i as int].0@), runs@[i as int].1@)));
                lemma_cells_push(a, (normalized(runs@[i as int].0@), runs@[i as int].1@));
            }
            i = i + 1;
        }
        assert(runs@.take(runs@.len() as int) =~= runs@);
        merged
    }
}

} // verus!
