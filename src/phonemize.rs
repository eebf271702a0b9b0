//! Assembling the phoneme engine's per-clause output into one phonetic
//! string.

use vstd::prelude::*;
use crate::text::{join, join_strings, trim, trimmed, views};

verus! {

/// The trimmed clauses that are not empty, in order.
pub open spec fn kept_clauses(cs: Seq<Seq<char>>) -> Seq<Seq<char>>
    decreases cs.len(),
{
    if cs.len() == 0 {
        Seq::empty()
    } else if trimmed(cs.last()).len() == 0 {
        kept_clauses(cs.drop_last())
    } else {
        kept_clauses(cs.drop_last()).push(trimmed(cs.last()))
    }
}

/// Joins the engine's clause outputs: each trimmed, empty ones dropped, the
/// rest separated by single spaces.
pub fn join_clauses(clauses: &Vec<String>) -> (r: String)
    ensures
        r@ == join(kept_clauses(views(clauses@)), " "@),
{
    let ghost cv = views(clauses@);
    let mut parts: Vec<String> = Vec::new();
    let mut i: usize = 0;
    while i < clauses.len()
        invariant
            i <= clauses.len(),
            cv == views(clauses@),
            views(parts@) == kept_clauses(cv.take(i as int)),
        decreases clauses.len() - i,
    {
        assert(cv.take(i + 1).drop_last() =~= cv.take(i as int));
        let t = trim(clauses[i].as_str());
        if t.as_str().unicode_len() > 0 {
            let ghost before = views(parts@);
            parts.push(t);
            assert(views(parts@) =~= before.push(trimmed(cv[i as int])));
        }
        i += 1;
    }
    assert(cv.take(i as int) =~= cv);
    join_strings(&parts, " ")
}

} // verus!
