//! Planning of a romanize request over basic splits: the texts ichiran is
//! asked about, the ones the segment cache does not answer, and the place
//! of each split's segment in the reply.

use vstd::prelude::*;

use crate::text::{
    lemma_text_le_antisymmetric, lemma_text_le_total, lemma_text_le_transitive, sort_texts, text_le, views,
};

verus! {

/// How a basic split treats its text: glossed, or passed through as it is.
#[derive(Debug, Clone, Copy, PartialEq, Eq, Structural)]
pub enum Split {
    Text,
    Skip,
}

/// `t` is the text of one of the `Text` splits.
pub open spec fn is_query_text(splits: Seq<(Split, String)>, t: Seq<char>) -> bool {
    exists|i: int| 0 <= i < splits.len() && (#[trigger] splits[i]).0 == Split::Text && splits[i].1@ == t
}

/// The texts strictly ascend (see [`text_le`]).
pub open spec fn strictly_ascending(r: Seq<Seq<char>>) -> bool {
    forall|i: int, j: int| 0 <= i < j < r.len() ==> text_le(#[trigger] r[i], #[trigger] r[j]) && r[i] != r[j]
}

/// The texts ichiran is asked about: those of the `Text` splits, each once,
/// in ascending order.
pub fn split_queries(splits: &Vec<(Split, String)>) -> (r: Vec<String>)
    ensures
        strictly_ascending(views(r@)),
        forall|k: int| 0 <= k < r@.len() ==> is_query_text(splits@, #[trigger] r@[k]@),
        forall|i: int|
            #![trigger splits@[i]]
            0 <= i < splits@.len() && splits@[i].0 == Split::Text ==> views(r@).contains(splits@[i].1@),
{
    broadcast use vstd::seq_lib::group_to_multiset_ensures, vstd::multiset::group_multiset_axioms;

    let mut texts: Vec<String> = Vec::new();
    let mut i: usize = 0;
    while i < splits.len()
        invariant
            i <= splits@.len(),
            forall|k: int| 0 <= k < texts@.len() ==> is_query_text(splits@, #[trigger] texts@[k]@),
            forall|j: int|
                #![trigger splits@[j]]
                0 <= j < i && splits@[j].0 == Split::Text ==> views(texts@).contains(splits@[j].1@),
        decreases splits@.len() - i,
    {
        if splits[i].0 == Split::Text {
            let ghost before = texts@;
            let t = splits[i].1.clone();
            texts.push(t);
            proof {
                assert(texts@[before.len() as int] == t);
                assert(views(texts@)[before.len() as int] == splits@[i as int].1@);
                assert forall|j: int|
                    #![trigger splits@[j]]
                    0 <= j < i + 1 && splits@[j].0 == Split::Text implies views(texts@).contains(splits@[j].1@) by {
                    if j < i {
                        let k = choose|k: int| 0 <= k < views(before).len() && views(before)[k] == splits@[j].1@;
                        assert(views(texts@)[k] == views(before)[k]);
                    }
                }
                assert forall|k: int| 0 <= k < texts@.len() implies is_query_text(splits@, #[trigger] texts@[k]@) by {
                    if k == before.len() {
                        assert(splits@[i as int].0 == Split::Text);
                    } else {
                        assert(texts@[k] == before[k]);
                    }
                }
            }
        }
        i = i + 1;
    }
    let sorted = sort_texts(texts);
    proof {
        assert forall|k: int| 0 <= k < sorted@.len() implies is_query_text(splits@, #[trigger] sorted@[k]@) by {
            assert(sorted@.contains(sorted@[k]));
            vstd::seq_lib::to_multiset_contains(sorted@, sorted@[k]);
            vstd::seq_lib::to_multiset_contains(texts@, sorted@[k]);
            assert(texts@.contains(sorted@[k]));
            let j = choose|j: int| 0 <= j < texts@.len() && texts@[j] == sorted@[k];
            assert(is_query_text(splits@, texts@[j]@));
        }
    }
    let mut r: Vec<String> = Vec::new();
    let mut k: usize = 0;
    while k < sorted.len()
        invariant
            k <= sorted@.len(),
            forall|a: int, b: int| 0 <= a < b < sorted@.len() ==> text_le(#[trigger] sorted@[a]@, #[trigger] sorted@[b]@),
            strictly_ascending(views(r@)),
            forall|a: int| 0 <= a < r@.len() ==> exists|b: int| 0 <= b < k && #[trigger] r@[a]@ == sorted@[b]@,
            forall|b: int| 0 <= b < k ==> views(r@).contains(#[trigger] sorted@[b]@),
            k > 0 ==> r@.len() > 0 && r@.last()@ == sorted@[k - 1]@,
        decreases sorted@.len() - k,
    {
        let ghost before = r@;
        let fresh = r.len() == 0 || !(r[r.len() - 1] == sorted[k]);
        if fresh {
            let t = sorted[k].clone();
            r.push(t);
            proof {
                assert(views(r@)[before.len() as int] == sorted@[k as int]@);
                assert forall|a: int, b: int| 0 <= a < b < views(r@).len() implies text_le(
                    #[trigger] views(r@)[a],
                    #[trigger] views(r@)[b],
                ) && views(r@)[a] != views(r@)[b] by {
                    assert(views(r@)[a] == r@[a]@);
                    assert(views(r@)[b] == r@[b]@);
                    if b == before.len() {
                        let last = before.len() - 1;
                        assert(r@[last]@ == sorted@[k - 1]@);
                        assert(text_le(sorted@[k - 1]@, sorted@[k as int]@));
                        if a < last {
                            assert(views(before)[a] == r@[a]@ && views(before)[last] == r@[last]@);
                            lemma_text_le_transitive(r@[a]@, r@[last]@, sorted@[k as int]@);
                            if r@[a]@ == sorted@[k as int]@ {
                                lemma_text_le_antisymmetric(r@[a]@, r@[last]@);
                            }
                        }
                    } else {
                        assert(views(before)[a] == r@[a]@ && views(before)[b] == r@[b]@);
                    }
                }
                assert forall|a: int| 0 <= a < r@.len() implies exists|b: int| 0 <= b < k + 1 && #[trigger] r@[a]@ == sorted@[b]@ by {
                    if a < before.len() {
                        let b = choose|b: int| 0 <= b < k && before[a]@ == sorted@[b]@;
                        assert(r@[a]@ == sorted@[b]@);
                    } else {
                        assert(r@[a]@ == sorted@[k as int]@);
                    }
                }
                assert forall|b: int| 0 <= b < k + 1 implies views(r@).contains(#[trigger] sorted@[b]@) by {
                    if b < k {
                        let a = choose|a: int| 0 <= a < views(before).len() && views(before)[a] == sorted@[b]@;
                        assert(views(r@)[a] == views(before)[a]);
                    } else {
                        assert(views(r@)[before.len() as int] == sorted@[b]@);
                    }
                }
            }
        } else {
            proof {
                assert(r@.last()@ == sorted@[k as int]@);
                assert(views(r@)[r@.len() - 1] == sorted@[k as int]@);
            }
        }
        k = k + 1;
    }
    proof {
        assert forall|a: int| 0 <= a < r@.len() implies is_query_text(splits@, #[trigger] r@[a]@) by {
            let b = choose|b: int| 0 <= b < k && #[trigger] r@[a]@ == sorted@[b]@;
            assert(is_query_text(splits@, sorted@[b]@));
        }
        assert forall|i: int|
            #![trigger splits@[i]]
            0 <= i < splits@.len() && splits@[i].0 == Split::Text implies views(r@).contains(splits@[i].1@) by {
            let j = choose|j: int| 0 <= j < views(texts@).len() && views(texts@)[j] == splits@[i].1@;
            assert(texts@.contains(texts@[j]));
            vstd::seq_lib::to_multiset_contains(sorted@, texts@[j]);
            vstd::seq_lib::to_multiset_contains(texts@, texts@[j]);
            assert(sorted@.contains(texts@[j]));
            let b = choose|b: int| 0 <= b < sorted@.len() && sorted@[b] == texts@[j];
            assert(views(r@).contains(sorted@[b]@));
        }
    }
    r
}

/// A text the segment cache did not answer.
pub open spec fn not_among(hits: Seq<Seq<char>>) -> spec_fn(Seq<char>) -> bool {
    |q: Seq<char>| !hits.contains(q)
}

/// The queries left to send to ichiran: those the segment cache did not
/// answer (`hits` are the texts it answered), in order.
pub fn queries_to_fetch(queries: &Vec<String>, hits: &Vec<String>) -> (r: Vec<String>)
    ensures
        views(r@) == views(queries@).filter(not_among(views(hits@))),
{
    let ghost qs = views(queries@);
    let ghost hs = views(hits@);
    let mut r: Vec<String> = Vec::new();
    let mut k: usize = 0;
    proof {
        reveal(Seq::filter);
        assert(qs.take(0) =~= Seq::<Seq<char>>::empty());
    }
    while k < queries.len()
        invariant
            k <= queries@.len(),
            qs == views(queries@),
            hs == views(hits@),
            views(r@) == qs.take(k as int).filter(not_among(hs)),
        decreases queries@.len() - k,
    {
        let mut hit = false;
        let mut h: usize = 0;
        while h < hits.len()
            invariant
                h <= hits@.len(),
                k < queries@.len(),
                hs == views(hits@),
                hit == exists|j: int| 0 <= j < h && #[trigger] hs[j] == queries@[k as int]@,
            decreases hits@.len() - h,
        {
            if hits[h] == queries[k] {
                hit = true;
                assert(hs[h as int] == queries@[k as int]@);
            }
            h = h + 1;
        }
        proof {
            assert(qs.take(k + 1).drop_last() =~= qs.take(k as int));
            assert(qs.take(k + 1).last() == queries@[k as int]@);
            assert(hit == hs.contains(queries@[k as int]@));
            reveal(Seq::filter);
        }
        if !hit {
            let t = queries[k].clone();
            r.push(t);
            proof {
                assert(views(r@) =~= qs.take(k as int).filter(not_among(hs)).push(queries@[k as int]@));
            }
        }
        k = k + 1;
    }
    assert(qs.take(k as int) =~= qs);
    r
}

/// Where a split's segment comes from: the reply (or cache entry) for the
/// query at that index, or the split's own text, skipped.
#[derive(Debug)]
pub enum SegmentSource {
    Queried(usize),
    Skipped(String),
}

/// The segments of the whole reply in split order: a `Text` split takes the
/// segment found for the first query with its text, a `Skip` split stays as
/// it is. Every `Text` split's text must be among the queries.
pub fn assemble_segments(splits: &Vec<(Split, String)>, queries: &Vec<String>) -> (r: Vec<SegmentSource>)
    requires
        forall|i: int|
            #![trigger splits@[i]]
            0 <= i < splits@.len() && splits@[i].0 == Split::Text ==> views(queries@).contains(splits@[i].1@),
    ensures
        r@.len() == splits@.len(),
        forall|i: int|
            #![trigger r@[i]]
            0 <= i < splits@.len() ==> match splits@[i].0 {
                Split::Text => r@[i] matches SegmentSource::Queried(k) && k < queries@.len() && queries@[k as int]@
                    == splits@[i].1@ && forall|j: int| 0 <= j < k ==> queries@[j]@ != splits@[i].1@,
                Split::Skip => r@[i] matches SegmentSource::Skipped(t) && t@ == splits@[i].1@,
            },
{
    let mut r: Vec<SegmentSource> = Vec::new();
    let mut i: usize = 0;
    while i < splits.len()
        invariant
            i <= splits@.len(),
            r@.len() == i,
            forall|i: int|
                #![trigger splits@[i]]
                0 <= i < splits@.len() && splits@[i].0 == Split::Text ==> views(queries@).contains(splits@[i].1@),
            forall|a: int|
                #![trigger r@[a]]
                0 <= a < i ==> match splits@[a].0 {
                    Split::Text => r@[a] matches SegmentSource::Queried(k) && k < queries@.len() && queries@[k as int]@
                        == splits@[a].1@ && forall|j: int| 0 <= j < k ==> queries@[j]@ != splits@[a].1@,
                    Split::Skip => r@[a] matches SegmentSource::Skipped(t) && t@ == splits@[a].1@,
                },
        decreases splits@.len() - i,
    {
        match splits[i].0 {
            Split::Text => {
                proof {
                    assert(splits@[i as int].0 == Split::Text);
                    let j = choose|j: int| 0 <= j < views(queries@).len() && views(queries@)[j] == splits@[i as int].1@;
                    assert(queries@[j]@ == splits@[i as int].1@);
                }
                let mut k: usize = 0;
                while k < queries.len() && !(queries[k] == splits[i].1)
                    invariant
                        k <= queries@.len(),
                        i < splits@.len(),
                        exists|j: int| 0 <= j < queries@.len() && queries@[j]@ == splits@[i as int].1@,
                        forall|j: int| 0 <= j < k ==> queries@[j]@ != splits@[i as int].1@,
                    decreases queries@.len() - k,
                {
                    k = k + 1;
                }
                if k == queries.len() {
                    proof {
                        let j = choose|j: int| 0 <= j < queries@.len() && queries@[j]@ == splits@[i as int].1@;
                        assert(queries@[j]@ != splits@[i as int].1@);
                    }
                }
                r.push(SegmentSource::Queried(k));
            },
            Split::Skip => {
                let t = splits[i].1.clone();
                r.push(SegmentSource::Skipped(t));
            },
        }
        i = i + 1;
    }
    r
}

} // verus!
