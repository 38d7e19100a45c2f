//! Full-text search over events and tasks.
use crate::text::{chars_of, push_char};
use vstd::prelude::*;

verus! {

/// The ids of the events and the tasks that match a search.
#[derive(Debug)]
pub struct SearchResults {
    pub event_ids: Vec<String>,
    pub task_ids: Vec<String>,
}

/// The text without its double quotes.
pub open spec fn without_quotes(s: Seq<char>) -> Seq<char>
    decreases s.len(),
{
    if s.len() == 0 {
        seq![]
    } else {
        let p = without_quotes(s.drop_last());
        if s.last() == '"' {
            p
        } else {
            p.push(s.last())
        }
    }
}

/// The query without its double quotes, as a prefix search (`*` at the end).
pub open spec fn spec_fts_query(query: Seq<char>) -> Seq<char> {
    without_quotes(query).push('*')
}

/// The full-text query for what the person typed: double quotes are dropped, so
/// that the text cannot close a phrase, and the last word matches as a prefix.
pub fn fts_query(query: &str) -> (q: String)
    ensures
        q@ == spec_fts_query(query@),
{
    let v = chars_of(query);
    let mut q = String::new();
    let mut i: usize = 0;
    while i < v.len()
        invariant
            i <= v@.len(),
            q@ == without_quotes(v@.take(i as int)),
        decreases v@.len() - i,
    {
        assert(v@.take(i + 1).drop_last() =~= v@.take(i as int));
        if v[i] != '"' {
            push_char(&mut q, v[i]);
        }
        i += 1;
    }
    assert(v@.take(v@.len() as int) =~= v@);
    push_char(&mut q, '*');
    q
}

proof fn lemma_without_quotes(s: Seq<char>)
    ensures
        !without_quotes(s).contains('"'),
    decreases s.len(),
{
    if s.len() > 0 {
        lemma_without_quotes(s.drop_last());
        let p = without_quotes(s.drop_last());
        if s.last() != '"' {
            assert forall|i: int| 0 <= i < p.push(s.last()).len() implies p.push(s.last())[i] != '"' by {
                if i < p.len() {
                    assert(p.push(s.last())[i] == p[i]);
                }
            }
        }
    }
}

/// A search query holds no double quote, so the text typed cannot end a phrase
/// early, and it ends in the prefix marker.
pub proof fn law_fts_query_is_safe(query: Seq<char>)
    ensures
        !spec_fts_query(query).drop_last().contains('"'),
        spec_fts_query(query).last() == '*',
{
    lemma_without_quotes(query);
    assert(spec_fts_query(query).drop_last() =~= without_quotes(query));
}

} // verus!
