//! What holds of searching and inserting, for every store and request.

use crate::quote::{
    carries, entry_with_id, has_id, index_with_id, insert_outcome, lemma_index_with_id,
    matching_ids, tag_match, well_formed, Entry, QuoteError, QuoteView, TagMatchView,
};
use crate::tags::{normalized_tags, tag_normal_form};
use vstd::prelude::*;

verus! {

/// A search returns only a stored quote whose tags include every requested
/// tag.
pub proof fn lemma_found_quote_carries_request(entries: Seq<Entry>, raw: Seq<Seq<char>>, draw: int)
    requires
        well_formed(entries),
    ensures
        tag_match(entries, raw, draw) matches TagMatchView::Found(id) ==> has_id(entries, id)
            && normalized_tags(raw).subset_of(entry_with_id(entries, id).tags),
{
    let wanted = normalized_tags(raw);
    let kept = entries.filter(carries(wanted));
    if let TagMatchView::Found(id) = tag_match(entries, raw, draw) {
        let k = draw % (kept.len() as int);
        assert(id == kept[k].quote.id);
        entries.lemma_filter_pred(carries(wanted), k);
        assert(carries(wanted)(kept[k]));
        assert(kept.contains(kept[k]));
        entries.lemma_filter_contains_rev(carries(wanted), kept[k]);
        let i = choose|i: int| 0 <= i < entries.len() && entries[i] == kept[k];
        lemma_index_with_id(entries, i);
    }
}

/// A search has no criteria exactly when no raw tag has a non-empty stored
/// form, and finds no match exactly when there are criteria and no stored
/// quote carries all the requested tags.
pub proof fn lemma_search_outcomes(entries: Seq<Entry>, raw: Seq<Seq<char>>, draw: int)
    ensures
        tag_match(entries, raw, draw) is NoCriteria <==> normalized_tags(raw)
            == Set::<Seq<char>>::empty(),
        tag_match(entries, raw, draw) is NoMatch <==> normalized_tags(raw) != Set::<
            Seq<char>,
        >::empty() && forall|i: int|
            0 <= i < entries.len() ==> !normalized_tags(raw).subset_of(
                (#[trigger] entries[i]).tags,
            ),
{
    let wanted = normalized_tags(raw);
    let kept = entries.filter(carries(wanted));
    if kept.len() > 0 {
        entries.lemma_filter_pred(carries(wanted), 0);
        assert(kept.contains(kept[0]));
        entries.lemma_filter_contains_rev(carries(wanted), kept[0]);
        let i = choose|i: int| 0 <= i < entries.len() && entries[i] == kept[0];
        assert(wanted.subset_of(entries[i].tags));
    } else {
        assert forall|i: int| 0 <= i < entries.len() implies !wanted.subset_of(
            (#[trigger] entries[i]).tags,
        ) by {
            if wanted.subset_of(entries[i].tags) {
                entries.lemma_filter_contains(carries(wanted), i);
            }
        }
    }
}

/// Every stored quote that carries all the requested tags is found by some
/// draw: the pick is not tied to a position.
pub proof fn lemma_every_match_can_be_drawn(entries: Seq<Entry>, raw: Seq<Seq<char>>, i: int)
    requires
        0 <= i < entries.len(),
        normalized_tags(raw) != Set::<Seq<char>>::empty(),
        normalized_tags(raw).subset_of(entries[i].tags),
    ensures
        exists|draw: int|
            0 <= draw < matching_ids(entries, normalized_tags(raw)).len() && #[trigger] tag_match(
                entries,
                raw,
                draw,
            ) == TagMatchView::Found(entries[i].quote.id),
{
    let wanted = normalized_tags(raw);
    let kept = entries.filter(carries(wanted));
    entries.lemma_filter_contains(carries(wanted), i);
    let k = choose|k: int| 0 <= k < kept.len() && kept[k] == entries[i];
    let n = kept.len() as int;
    assert(k % n == k) by (nonlinear_arith)
        requires
            0 <= k < n,
    ;
    assert(tag_match(entries, raw, k) == TagMatchView::Found(entries[i].quote.id));
}

/// Where two stored quotes carry all the requested tags, two draws find
/// different quotes.
pub proof fn lemma_two_matches_two_results(
    entries: Seq<Entry>,
    raw: Seq<Seq<char>>,
    i: int,
    j: int,
)
    requires
        well_formed(entries),
        0 <= i < j < entries.len(),
        normalized_tags(raw) != Set::<Seq<char>>::empty(),
        normalized_tags(raw).subset_of(entries[i].tags),
        normalized_tags(raw).subset_of(entries[j].tags),
    ensures
        exists|d1: int, d2: int|
            0 <= d1 < entries.len() && 0 <= d2 < entries.len() && #[trigger] tag_match(
                entries,
                raw,
                d1,
            ) != #[trigger] tag_match(entries, raw, d2),
{
    lemma_every_match_can_be_drawn(entries, raw, i);
    lemma_every_match_can_be_drawn(entries, raw, j);
    let wanted = normalized_tags(raw);
    entries.lemma_filter_len(carries(wanted));
    let d1 = choose|d: int|
        0 <= d < matching_ids(entries, wanted).len() && #[trigger] tag_match(entries, raw, d)
            == TagMatchView::Found(entries[i].quote.id);
    let d2 = choose|d: int|
        0 <= d < matching_ids(entries, wanted).len() && #[trigger] tag_match(entries, raw, d)
            == TagMatchView::Found(entries[j].quote.id);
    assert(entries[i].quote.id != entries[j].quote.id);
    assert(tag_match(entries, raw, d1) != tag_match(entries, raw, d2));
}

/// No quote is listed twice among those that carry the requested tags, so
/// that each of them is picked by as many draws as any other, give or take
/// one.
pub proof fn lemma_each_match_once(entries: Seq<Entry>, wanted: Set<Seq<char>>)
    requires
        well_formed(entries),
    ensures
        matching_ids(entries, wanted).no_duplicates(),
    decreases entries.len(),
{
    let test = carries(wanted);
    if entries.len() == 0 {
        entries.lemma_filter_len(test);
    } else {
        let front = entries.drop_last();
        let last = entries.last();
        assert(front.push(last) =~= entries);
        front.lemma_filter_push(last, test);
        assert forall|i: int, j: int| 0 <= i < j < front.len() implies (#[trigger] front[i]).quote.id
            != (#[trigger] front[j]).quote.id by {
            assert(entries[i].quote.id != entries[j].quote.id);
        }
        assert forall|i: int| 0 <= i < front.len() implies (#[trigger] front[i]).tags.finite() by {
            assert(entries[i].tags.finite());
        }
        assert forall|i: int, t: Seq<char>|
            0 <= i < front.len() && #[trigger] front[i].tags.contains(t) implies
            crate::quote::is_stored_tag(t) by {
            assert(entries[i].tags.contains(t));
        }
        lemma_each_match_once(front, wanted);
        if test(last) {
            let kept = front.filter(test);
            let ids = matching_ids(entries, wanted);
            assert(ids =~= matching_ids(front, wanted).push(last.quote.id));
            assert forall|i: int, j: int| 0 <= i < j < ids.len() implies ids[i] != ids[j] by {
                if j == ids.len() - 1 {
                    assert(kept.contains(kept[i]));
                    front.lemma_filter_contains_rev(test, kept[i]);
                    let k = choose|k: int| 0 <= k < front.len() && front[k] == kept[i];
                    assert(entries[k].quote.id != entries[entries.len() - 1].quote.id);
                } else {
                    assert(matching_ids(front, wanted)[i] != matching_ids(front, wanted)[j]);
                }
            }
        }
    }
}

/// A search depends on the raw tags only through the set of tags that they
/// normalize to: their order, their case, the space around them and
/// repetitions among them change nothing.
pub proof fn lemma_search_by_normalized_tags(
    entries: Seq<Entry>,
    raw1: Seq<Seq<char>>,
    raw2: Seq<Seq<char>>,
    draw: int,
)
    requires
        normalized_tags(raw1) == normalized_tags(raw2),
    ensures
        tag_match(entries, raw1, draw) == tag_match(entries, raw2, draw),
{
}

/// Two lists with the same raw tags ask for the same tags.
pub proof fn lemma_request_is_a_set(raw1: Seq<Seq<char>>, raw2: Seq<Seq<char>>)
    requires
        raw1.to_set() == raw2.to_set(),
    ensures
        normalized_tags(raw1) == normalized_tags(raw2),
{
    assert forall|t: Seq<char>| normalized_tags(raw1).contains(t) <==> normalized_tags(
        raw2,
    ).contains(t) by {
        if normalized_tags(raw1).contains(t) {
            lemma_request_subset(raw1, raw2, t);
        }
        if normalized_tags(raw2).contains(t) {
            lemma_request_subset(raw2, raw1, t);
        }
    }
    assert(normalized_tags(raw1) =~= normalized_tags(raw2));
}

proof fn lemma_request_subset(raw1: Seq<Seq<char>>, raw2: Seq<Seq<char>>, t: Seq<char>)
    requires
        raw1.to_set() == raw2.to_set(),
        normalized_tags(raw1).contains(t),
    ensures
        normalized_tags(raw2).contains(t),
{
    let i = choose|i: int|
        0 <= i < raw1.len() && t == tag_normal_form(#[trigger] raw1[i]);
    assert(raw1.to_set().contains(raw1[i]));
    assert(raw2.contains(raw1[i]));
    let j = choose|j: int| 0 <= j < raw2.len() && raw2[j] == raw1[i];
    assert(t == tag_normal_form(raw2[j]));
}

/// Inserting under one id twice: where the first insertion succeeds, the
/// second is a conflict, whatever it brings, and the quote keeps the tags of
/// the first.
pub proof fn lemma_second_insert_conflicts(
    entries: Seq<Entry>,
    first: QuoteView,
    first_raw: Seq<Seq<char>>,
    second: QuoteView,
    second_raw: Seq<Seq<char>>,
)
    requires
        well_formed(entries),
        insert_outcome(entries, first, first_raw) is Ok,
        second.id == first.id,
    ensures
        insert_outcome(insert_outcome(entries, first, first_raw)->Ok_0, second, second_raw) == Err::<
            Seq<Entry>,
            QuoteError,
        >(QuoteError::Conflict),
        entry_with_id(insert_outcome(entries, first, first_raw)->Ok_0, first.id) == (Entry {
            quote: first,
            tags: normalized_tags(first_raw),
        }),
{
    let after = insert_outcome(entries, first, first_raw)->Ok_0;
    let k = entries.len() as int;
    assert(after[k].quote.id == first.id);
    let found = index_with_id(after, first.id);
    assert(0 <= found < after.len() && after[found].quote.id == first.id);
    if found < k {
        assert(entries[found].quote.id == first.id);
    }
}

/// A quote that was inserted is found under its id, and a search for any of
/// its tags can find it.
pub proof fn lemma_inserted_quote_is_found(
    entries: Seq<Entry>,
    quote: QuoteView,
    raw: Seq<Seq<char>>,
)
    requires
        insert_outcome(entries, quote, raw) is Ok,
    ensures
        has_id(insert_outcome(entries, quote, raw)->Ok_0, quote.id),
        normalized_tags(raw) != Set::<Seq<char>>::empty() ==> exists|draw: int| #[trigger]
            tag_match(insert_outcome(entries, quote, raw)->Ok_0, raw, draw) == TagMatchView::Found(
                quote.id,
            ),
{
    let after = insert_outcome(entries, quote, raw)->Ok_0;
    let k = entries.len() as int;
    assert(after[k].quote.id == quote.id);
    if normalized_tags(raw) != Set::<Seq<char>>::empty() {
        lemma_every_match_can_be_drawn(after, raw, k);
    }
}

} // verus!
