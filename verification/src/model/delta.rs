//! How a composition differs from the one before.
use vstd::prelude::*;

use crate::layout::laws;
use crate::layout::place;
use crate::layout::{BarSpec, Element, ItemId, ItemSpec};
use crate::text;
use crate::text::{TextKey, TextSet};

verus! {

/// The items that stay, come and go.
#[derive(Clone, Debug, PartialEq, Eq)]
pub struct CompositionDelta {
    pub retained_items: Vec<ItemId>,
    pub entering_items: Vec<ItemId>,
    pub leaving_items: Vec<ItemId>,
}

impl Default for CompositionDelta {
    fn default() -> (delta: Self)
        ensures
            delta.retained_items@.len() == 0,
            delta.entering_items@.len() == 0,
            delta.leaving_items@.len() == 0,
    {
        CompositionDelta {
            retained_items: Vec::new(),
            entering_items: Vec::new(),
            leaving_items: Vec::new(),
        }
    }
}

/// The texts of identifiers.
pub open spec fn texts(ids: Seq<ItemId>) -> Seq<Seq<char>> {
    Seq::new(ids.len(), |i: int| ids[i]@)
}

/// The bar has the item.
pub open spec fn has_item(elements: Seq<Element>, id: Seq<char>) -> bool {
    place::holds(laws::all_items(elements, elements.len() as int), id)
}

/// Whether the bar before has the item; where there is none, it has not.
pub open spec fn had_item(previous: Option<Seq<Element>>, id: Seq<char>) -> bool {
    match previous {
        Some(elements) => has_item(elements, id),
        None => false,
    }
}

/// The identifiers stand in order, none twice, and are those of which a
/// condition holds.
pub open spec fn lists(ids: Seq<ItemId>, wanted: spec_fn(Seq<char>) -> bool) -> bool {
    &&& text::sorted(texts(ids))
    &&& forall|id: Seq<char>| #[trigger] texts(ids).contains(id) <==> wanted(id)
}

/// The delta from one bar to the next.
pub open spec fn is_delta(
    delta: CompositionDelta,
    previous: Option<Seq<Element>>,
    next: Seq<Element>,
) -> bool {
    &&& lists(
        delta.retained_items@,
        |id: Seq<char>| had_item(previous, id) && has_item(next, id),
    )
    &&& lists(
        delta.entering_items@,
        |id: Seq<char>| has_item(next, id) && !had_item(previous, id),
    )
    &&& lists(
        delta.leaving_items@,
        |id: Seq<char>| had_item(previous, id) && !has_item(next, id),
    )
}

/// The set holds the items of the elements.
spec fn collects(ids: TextSet<ItemId>, elements: Seq<Element>, n: int) -> bool {
    ids.wf() && forall|id: Seq<char>|
        #[trigger] ids@.contains(id) <==> place::holds(laws::all_items(elements, n), id)
}

fn item_ids(elements: &Vec<Element>) -> (ids: TextSet<ItemId>)
    ensures
        ids.wf(),
        forall|id: Seq<char>| #[trigger] ids@.contains(id) <==> has_item(elements@, id),
{
    let mut ids: TextSet<ItemId> = TextSet::new();
    let mut i: usize = 0;
    while i < elements.len()
        invariant
            i <= elements@.len(),
            collects(ids, elements@, i as int),
        decreases elements@.len() - i,
    {
        let mut found: Vec<ItemId> = Vec::new();
        place::collect_item_ids(&elements[i], &mut found);
        let ghost items = place::element_items(elements@[i as int]);
        let ghost before = laws::all_items(elements@, i as int);
        proof {
            assert(found@ =~= place::identifiers(items));
            assert(items.subrange(0, 0) =~= Seq::empty());
            assert forall|id: Seq<char>| #[trigger] ids@.contains(id) <==> place::holds(before, id)
                || place::holds(items.subrange(0, 0), id) by {
                assert(!place::holds(Seq::<ItemSpec>::empty(), id));
            }
        }
        let mut k: usize = 0;
        while k < found.len()
            invariant
                i < elements@.len(),
                items == place::element_items(elements@[i as int]),
                before == laws::all_items(elements@, i as int),
                found@ == place::identifiers(items),
                k <= found@.len(),
                ids.wf(),
                forall|id: Seq<char>| #[trigger]
                    ids@.contains(id) <==> place::holds(before, id) || place::holds(
                        items.subrange(0, k as int),
                        id,
                    ),
            decreases found@.len() - k,
        {
            let ghost old_ids = ids@;
            let ghost added = items[k as int].id@;
            ids.insert(found[k].clone());
            proof {
                text::lemma_rank(old_ids, added);
                assert(items.subrange(0, k + 1) =~= items.subrange(0, k as int) + seq![
                    items[k as int],
                ]);
                assert forall|id: Seq<char>| #[trigger]
                    ids@.contains(id) <==> place::holds(before, id) || place::holds(
                        items.subrange(0, k + 1),
                        id,
                    ) by {
                    place::lemma_holds_append(
                        items.subrange(0, k as int),
                        seq![items[k as int]],
                        id,
                    );
                    assert(seq![items[k as int]][0].id@ == added);
                    assert(place::holds(seq![items[k as int]], id) <==> id == added);
                    text::lemma_insert_contains(
                        old_ids,
                        text::rank(old_ids, added) as int,
                        added,
                        id,
                    );
                    assert(old_ids.contains(id) <==> place::holds(before, id) || place::holds(
                        items.subrange(0, k as int),
                        id,
                    ));
                }
            }
            k = k + 1;
        }
        proof {
            assert(items.subrange(0, items.len() as int) =~= items);
            assert forall|id: Seq<char>| #[trigger] ids@.contains(id) <==> place::holds(
                laws::all_items(elements@, i + 1),
                id,
            ) by {
                place::lemma_holds_append(before, items, id);
            }
        }
        i = i + 1;
    }
    ids
}

/// The members of one set that are, or are not, in another.
fn filtered(from: &TextSet<ItemId>, by: &TextSet<ItemId>, keep: bool) -> (ids: Vec<ItemId>)
    requires
        from.wf(),
        by.wf(),
    ensures
        text::sorted(texts(ids@)),
        forall|id: Seq<char>| #[trigger]
            texts(ids@).contains(id) <==> from@.contains(id) && (by@.contains(id) == keep),
{
    let mut ids: Vec<ItemId> = Vec::new();
    let mut i: usize = 0;
    proof {
        from.lemma_items();
    }
    while i < from.len()
        invariant
            from.wf(),
            by.wf(),
            i <= from@.len(),
            from.items().len() == from@.len(),
            text::sorted(texts(ids@)),
            forall|k: int|
                0 <= k < ids@.len() ==> exists|m: int|
                    0 <= m < i && from@[m] == (#[trigger] ids@[k])@,
            forall|k: int|
                0 <= k < ids@.len() ==> (by@.contains((#[trigger] ids@[k])@) == keep),
            forall|m: int|
                0 <= m < i && (by@.contains(#[trigger] from@[m]) == keep) ==> texts(
                    ids@,
                ).contains(from@[m]),
        decreases from@.len() - i,
    {
        let id: &ItemId = from.get(i);
        if by.contains(id.as_str()) == keep {
            let ghost before = ids@;
            ids.push(id.clone());
            proof {
                let t = texts(ids@);
                let s = texts(before);
                assert(t =~= s.push(id@));
                assert forall|a: int, b: int| 0 <= a < b < t.len() implies text::text_less(
                    #[trigger] t[a],
                    #[trigger] t[b],
                ) by {
                    if b < s.len() {
                        assert(t[a] == s[a] && t[b] == s[b]);
                    } else {
                        assert(t[a] == s[a]);
                        assert(before[a]@ == s[a]);
                        let m = choose|m: int| 0 <= m < i && from@[m] == before[a]@;
                        assert(text::text_less(from@[m], from@[i as int]));
                    }
                }
                assert forall|k: int| 0 <= k < ids@.len() implies exists|m: int|
                    0 <= m < i + 1 && from@[m] == (#[trigger] ids@[k])@ by {
                    if k < before.len() {
                        assert(ids@[k] == before[k]);
                        let m = choose|m: int| 0 <= m < i && from@[m] == before[k]@;
                        assert(from@[m] == ids@[k]@);
                    } else {
                        assert(from@[i as int] == ids@[k]@);
                    }
                }
                assert forall|m: int|
                    0 <= m < i + 1
                        && (by@.contains(#[trigger] from@[m]) == keep) implies t.contains(
                    from@[m],
                ) by {
                    if m < i {
                        assert(s.contains(from@[m]));
                        let k = choose|k: int| 0 <= k < s.len() && s[k] == from@[m];
                        assert(t[k] == from@[m]);
                    } else {
                        assert(t[s.len() as int] == from@[m]);
                    }
                }
            }
        }
        i = i + 1;
    }
    proof {
        assert forall|id: Seq<char>| #[trigger]
            texts(ids@).contains(id) <==> from@.contains(id) && (by@.contains(id) == keep) by {
            if texts(ids@).contains(id) {
                let k = choose|k: int| 0 <= k < texts(ids@).len() && texts(ids@)[k] == id;
                assert(ids@[k]@ == id);
            }
            if from@.contains(id) && (by@.contains(id) == keep) {
                let m = choose|m: int| 0 <= m < from@.len() && from@[m] == id;
                assert(texts(ids@).contains(from@[m]));
            }
        }
    }
    ids
}

impl CompositionDelta {
    /// Which items stay, come and go from one bar to the next.
    pub fn between(previous: Option<&BarSpec>, next: &BarSpec) -> (delta: Self)
        ensures
            is_delta(
                delta,
                (match previous {
                    Some(bar) => Some(bar.elements@),
                    None => None,
                }),
                next.elements@,
            ),
    {
        let ghost old_elements = match previous {
            Some(bar) => Some(bar.elements@),
            None => None,
        };
        let before: TextSet<ItemId> = match previous {
            Some(bar) => item_ids(&bar.elements),
            None => TextSet::new(),
        };
        proof {
            assert forall|id: Seq<char>| #[trigger] before@.contains(id) <==> had_item(
                old_elements,
                id,
            ) by {}
        }
        let after: TextSet<ItemId> = item_ids(&next.elements);
        let retained_items: Vec<ItemId> = filtered(&before, &after, true);
        let entering_items: Vec<ItemId> = filtered(&after, &before, false);
        let leaving_items: Vec<ItemId> = filtered(&before, &after, false);
        CompositionDelta { retained_items, entering_items, leaving_items }
    }
}

/// Every item of either bar stays, comes or goes, and only one of these.
pub proof fn deltas_are_partitions(
    delta: CompositionDelta,
    previous: Option<Seq<Element>>,
    next: Seq<Element>,
    id: Seq<char>,
)
    requires
        is_delta(delta, previous, next),
    ensures
        had_item(previous, id) <==> texts(delta.retained_items@).contains(id) || texts(
            delta.leaving_items@,
        ).contains(id),
        has_item(next, id) <==> texts(delta.retained_items@).contains(id) || texts(
            delta.entering_items@,
        ).contains(id),
        !(texts(delta.retained_items@).contains(id) && texts(delta.entering_items@).contains(id)),
        !(texts(delta.retained_items@).contains(id) && texts(delta.leaving_items@).contains(id)),
        !(texts(delta.entering_items@).contains(id) && texts(delta.leaving_items@).contains(id)),
{
}

/// An item of this name is one of the elements or stands in one of them.
pub open spec fn appears(elements: Seq<Element>, id: Seq<char>) -> bool {
    exists|i: int, item: ItemSpec|
        0 <= i < elements.len() && #[trigger] laws::stands_at(elements[i], item) && item.id@ == id
}

/// Each identifier comes before those behind it.
pub open spec fn in_sequence(ids: Seq<ItemId>) -> bool {
    forall|i: int, j: int|
        0 <= i < j < ids.len() ==> text::text_less((#[trigger] ids[i])@, (#[trigger] ids[j])@)
}

proof fn lemma_in_sequence(ids: Seq<ItemId>)
    requires
        text::sorted(texts(ids)),
    ensures
        in_sequence(ids),
{
    assert forall|i: int, j: int| 0 <= i < j < ids.len() implies text::text_less(
        (#[trigger] ids[i])@,
        (#[trigger] ids[j])@,
    ) by {
        assert(text::text_less(texts(ids)[i], texts(ids)[j]));
    }
}

/// What stays stood in the bar before and stands in the next one, at whatever
/// depth; what comes stands in the next one only, and what goes stood in the
/// one before only. Each is listed once, in order.
pub proof fn deltas_tell_what_stays_comes_and_goes(
    delta: CompositionDelta,
    previous: Option<Seq<Element>>,
    next: Seq<Element>,
    id: Seq<char>,
)
    requires
        is_delta(delta, previous, next),
    ensures
        ({
            let before = previous is Some && appears(previous->0, id);
            let after = appears(next, id);
            &&& texts(delta.retained_items@).contains(id) <==> before && after
            &&& texts(delta.entering_items@).contains(id) <==> after && !before
            &&& texts(delta.leaving_items@).contains(id) <==> before && !after
        }),
        in_sequence(delta.retained_items@),
        in_sequence(delta.entering_items@),
        in_sequence(delta.leaving_items@),
{
    lemma_appears(next, id);
    if let Some(elements) = previous {
        lemma_appears(elements, id);
    }
    deltas_are_partitions(delta, previous, next, id);
    lemma_in_sequence(delta.retained_items@);
    lemma_in_sequence(delta.entering_items@);
    lemma_in_sequence(delta.leaving_items@);
}

proof fn lemma_appears(elements: Seq<Element>, id: Seq<char>)
    ensures
        has_item(elements, id) == appears(elements, id),
{
    let n = elements.len() as int;
    let items = laws::all_items(elements, n);
    if has_item(elements, id) {
        let k = choose|k: int| 0 <= k < items.len() && (#[trigger] items[k]).id@ == id;
        let item = items[k];
        assert(items.contains(item));
        laws::bars_hold_items_at_any_depth(elements, n, item);
        let i = choose|i: int| 0 <= i < n && laws::stands_at(#[trigger] elements[i], item);
        assert(laws::stands_at(elements[i], item));
    }
    if appears(elements, id) {
        let (i, item) = choose|i: int, item: ItemSpec|
            0 <= i < elements.len() && #[trigger] laws::stands_at(elements[i], item) && item.id@
                == id;
        laws::bars_hold_items_at_any_depth(elements, n, item);
        assert(items.contains(item));
        let k = choose|k: int| 0 <= k < items.len() && items[k] == item;
        assert(items[k].id@ == id);
    }
}

} // verus!
