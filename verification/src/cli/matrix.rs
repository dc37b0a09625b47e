//! The widths that every item of a plugin is rendered at in a test.
use vstd::prelude::*;

use crate::layout::REFERENCE_CANVAS_WIDTH;
use crate::text;

verus! {

/// What stands in a presentation.
#[derive(Debug)]
pub enum PresentationElement {
    Item { item: String, minimum_width: u32, preferred_width: u32, maximum_width: u32 },
    Group { elements: Vec<PresentationElement> },
    Space,
}

/// The places of items in a presentation, one after the other.
pub open spec fn places(elements: Seq<PresentationElement>) -> Seq<(Seq<char>, Seq<u32>)>
    decreases elements,
{
    if elements.len() == 0 {
        Seq::empty()
    } else {
        places(elements.drop_last()) + place(elements.last())
    }
}

/// The places of items in one element.
pub open spec fn place(element: PresentationElement) -> Seq<(Seq<char>, Seq<u32>)>
    decreases element,
{
    match element {
        PresentationElement::Item { item, minimum_width, preferred_width, maximum_width } => seq![
            (item@, seq![minimum_width, preferred_width, maximum_width]),
        ],
        PresentationElement::Group { elements } => places(elements@),
        PresentationElement::Space => Seq::empty(),
    }
}

/// The widths that every item is rendered at.
pub open spec fn standard() -> Set<u32> {
    set![80u32, 160, 320, 1004, REFERENCE_CANVAS_WIDTH]
}

/// The widths that an item is rendered at: the standard ones, and those of its
/// places.
pub open spec fn tested(id: Seq<char>, at: Seq<(Seq<char>, Seq<u32>)>) -> Set<u32> {
    Set::new(
        |width: u32|
            standard().contains(width) || exists|i: int|
                0 <= i < at.len() && (#[trigger] at[i]).0 == id && at[i].1.contains(width),
    )
}

/// Every place is one of a known item.
pub open spec fn declared(ids: Seq<Seq<char>>, at: Seq<(Seq<char>, Seq<u32>)>) -> bool {
    forall|i: int| 0 <= i < at.len() ==> ids.contains((#[trigger] at[i]).0)
}

/// Numbers in increasing order, each once.
pub open spec fn increasing(widths: Seq<u32>) -> bool {
    forall|i: int, j: int| 0 <= i < j < widths.len() ==> widths[i] < widths[j]
}

/// An item, and the widths that it is rendered at.
#[derive(Debug, PartialEq, Eq)]
pub struct TestedItem {
    pub id: String,
    pub widths: Vec<u32>,
}

fn add_width(widths: &mut Vec<u32>, width: u32)
    requires
        increasing(old(widths)@),
    ensures
        increasing(final(widths)@),
        final(widths)@.to_set() == old(widths)@.to_set().insert(width),
{
    let ghost before = widths@;
    let mut at: usize = 0;
    while at < widths.len() && widths[at] < width
        invariant
            at <= widths@.len(),
            widths@ == before,
            increasing(before),
            forall|k: int| 0 <= k < at ==> before[k] < width,
        decreases widths@.len() - at,
    {
        at = at + 1;
    }
    if at < widths.len() && widths[at] == width {
        proof {
            assert(before.contains(width));
            assert(before.to_set().insert(width) =~= before.to_set());
        }
        return;
    }
    widths.insert(at, width);
    proof {
        let after = widths@;
        assert forall|i: int, j: int| 0 <= i < j < after.len() implies after[i] < after[j] by {
            if at < before.len() {
                assert(width < before[at as int]);
            }
            if j < at {
                assert(after[i] == before[i] && after[j] == before[j]);
            } else if i >= at && j > at {
                assert(after[j] == before[j - 1]);
                if i > at {
                    assert(after[i] == before[i - 1]);
                }
            } else if j > at {
                assert(after[j] == before[j - 1]);
            }
        }
        assert(after.to_set() =~= before.to_set().insert(width)) by {
            assert forall|w: u32| after.to_set().contains(w) == before.to_set().insert(
                width,
            ).contains(w) by {
                if after.contains(w) {
                    let i = choose|i: int| 0 <= i < after.len() && after[i] == w;
                    if i < at {
                        assert(before[i] == w);
                    } else if i > at {
                        assert(before[i - 1] == w);
                    }
                }
                if before.contains(w) {
                    let i = choose|i: int| 0 <= i < before.len() && before[i] == w;
                    if i < at {
                        assert(after[i] == w);
                    } else {
                        assert(after[i + 1] == w);
                    }
                }
                if w == width {
                    assert(after[at as int] == w);
                }
            }
        }
    }
}

fn standard_widths() -> (widths: Vec<u32>)
    ensures
        increasing(widths@),
        widths@.to_set() == standard(),
{
    let mut widths: Vec<u32> = Vec::new();
    widths.push(80);
    widths.push(160);
    widths.push(320);
    widths.push(1004);
    widths.push(REFERENCE_CANVAS_WIDTH);
    proof {
        let found = widths@.to_set();
        assert forall|w: u32| found.contains(w) == standard().contains(w) by {
            if standard().contains(w) {
                assert(w == widths@[0] || w == widths@[1] || w == widths@[2] || w == widths@[3] || w
                    == widths@[4]);
            }
        }
        assert(found =~= standard());
    }
    widths
}

/// The widths of one item are those of its places so far.
pub open spec fn covers(row: TestedItem, id: Seq<char>, at: Seq<(Seq<char>, Seq<u32>)>) -> bool {
    &&& row.id@ == id
    &&& increasing(row.widths@)
    &&& row.widths@.to_set() == tested(id, at)
}

/// The widths of all items are those of their places so far.
pub open spec fn covered(
    rows: Seq<TestedItem>,
    ids: Seq<Seq<char>>,
    at: Seq<(Seq<char>, Seq<u32>)>,
) -> bool {
    &&& rows.len() == ids.len()
    &&& forall|i: int| 0 <= i < rows.len() ==> covers(#[trigger] rows[i], ids[i], at)
}

proof fn lemma_tested_push(
    id: Seq<char>,
    at: Seq<(Seq<char>, Seq<u32>)>,
    more: (Seq<char>, Seq<u32>),
)
    ensures
        tested(id, at.push(more)) == (if more.0 == id {
            tested(id, at).union(more.1.to_set())
        } else {
            tested(id, at)
        }),
{
    let longer = at.push(more);
    assert forall|w: u32| tested(id, longer).contains(w) == (if more.0 == id {
        tested(id, at).union(more.1.to_set())
    } else {
        tested(id, at)
    }).contains(w) by {
        if tested(id, longer).contains(w) && !standard().contains(w) {
            let i = choose|i: int|
                0 <= i < longer.len() && (#[trigger] longer[i]).0 == id && longer[i].1.contains(w);
            if i < at.len() {
                assert(at[i].0 == id && at[i].1.contains(w));
            }
        }
        if tested(id, at).contains(w) && !standard().contains(w) {
            let i = choose|i: int|
                0 <= i < at.len() && (#[trigger] at[i]).0 == id && at[i].1.contains(w);
            assert(longer[i].0 == id && longer[i].1.contains(w));
        }
        if more.0 == id && more.1.contains(w) {
            assert(longer[at.len() as int].0 == id && longer[at.len() as int].1.contains(w));
        }
    }
    assert(tested(id, longer) =~= (if more.0 == id {
        tested(id, at).union(more.1.to_set())
    } else {
        tested(id, at)
    }));
}

fn extend_test_widths(
    rows: &mut Vec<TestedItem>,
    Ghost(ids): Ghost<Seq<Seq<char>>>,
    Ghost(at): Ghost<Seq<(Seq<char>, Seq<u32>)>>,
    item: &str,
    minimum_width: u32,
    preferred_width: u32,
    maximum_width: u32,
)
    requires
        covered(old(rows)@, ids, at),
    ensures
        covered(
            final(rows)@,
            ids,
            at.push((item@, seq![minimum_width, preferred_width, maximum_width])),
        ),
{
    let ghost more = (item@, seq![minimum_width, preferred_width, maximum_width]);
    let mut i: usize = 0;
    while i < rows.len()
        invariant
            i <= rows@.len() == ids.len(),
            more == (item@, seq![minimum_width, preferred_width, maximum_width]),
            forall|k: int| 0 <= k < i ==> covers(#[trigger] rows@[k], ids[k], at.push(more)),
            forall|k: int| i <= k < rows@.len() ==> covers(#[trigger] rows@[k], ids[k], at),
        decreases rows@.len() - i,
    {
        let ghost before = rows@;
        proof {
            lemma_tested_push(ids[i as int], at, more);
            assert(covers(rows@[i as int], ids[i as int], at));
        }
        if text::same(rows[i].id.as_str(), item) {
            let id = text::copied(rows[i].id.as_str());
            let mut widths: Vec<u32> = copy_widths(&rows[i].widths);
            let ghost old_widths = widths@.to_set();
            add_width(&mut widths, minimum_width);
            add_width(&mut widths, preferred_width);
            add_width(&mut widths, maximum_width);
            proof {
                let wanted = old_widths.union(more.1.to_set());
                assert forall|w: u32| widths@.to_set().contains(w) == wanted.contains(w) by {
                    if more.1.contains(w) {
                        assert(w == more.1[0] || w == more.1[1] || w == more.1[2]);
                    }
                    assert(more.1[0] == minimum_width && more.1[1] == preferred_width && more.1[2]
                        == maximum_width);
                }
                assert(widths@.to_set() =~= wanted);
            }
            rows.set(i, TestedItem { id, widths });
        }
        proof {
            assert forall|k: int| 0 <= k < i + 1 implies covers(
                #[trigger] rows@[k],
                ids[k],
                at.push(more),
            ) by {
                if k < i {
                    assert(rows@[k] == before[k]);
                }
            }
            assert forall|k: int| i + 1 <= k < rows@.len() implies covers(
                #[trigger] rows@[k],
                ids[k],
                at,
            ) by {
                assert(rows@[k] == before[k]);
            }
        }
        i = i + 1;
    }
}

fn copy_widths(widths: &Vec<u32>) -> (copy: Vec<u32>)
    ensures
        copy@ == widths@,
{
    let mut copy: Vec<u32> = Vec::new();
    let mut i: usize = 0;
    while i < widths.len()
        invariant
            i <= widths@.len(),
            copy@ == widths@.subrange(0, i as int),
        decreases widths@.len() - i,
    {
        copy.push(widths[i]);
        proof {
            assert(copy@ =~= widths@.subrange(0, i + 1));
        }
        i = i + 1;
    }
    proof {
        assert(copy@ =~= widths@);
    }
    copy
}

fn collect_element(
    element: &PresentationElement,
    rows: &mut Vec<TestedItem>,
    Ghost(ids): Ghost<Seq<Seq<char>>>,
    Ghost(at): Ghost<Seq<(Seq<char>, Seq<u32>)>>,
)
    requires
        covered(old(rows)@, ids, at),
    ensures
        covered(final(rows)@, ids, at + place(*element)),
    decreases element,
{
    match element {
        PresentationElement::Item { item, minimum_width, preferred_width, maximum_width } => {
            extend_test_widths(
                rows,
                Ghost(ids),
                Ghost(at),
                item.as_str(),
                *minimum_width,
                *preferred_width,
                *maximum_width,
            );
            proof {
                assert(at + place(*element) =~= at.push(
                    (item@, seq![*minimum_width, *preferred_width, *maximum_width]),
                ));
            }
        },
        PresentationElement::Group { elements } => {
            collect_elements(elements, rows, Ghost(ids), Ghost(at));
        },
        PresentationElement::Space => {
            proof {
                assert(at + place(*element) =~= at);
            }
        },
    }
}

fn collect_elements(
    elements: &Vec<PresentationElement>,
    rows: &mut Vec<TestedItem>,
    Ghost(ids): Ghost<Seq<Seq<char>>>,
    Ghost(at): Ghost<Seq<(Seq<char>, Seq<u32>)>>,
)
    requires
        covered(old(rows)@, ids, at),
    ensures
        covered(final(rows)@, ids, at + places(elements@)),
    decreases elements,
{
    let mut i: usize = 0;
    proof {
        assert(elements@.subrange(0, 0) =~= Seq::empty());
        assert(at + places(elements@.subrange(0, 0)) =~= at);
    }
    while i < elements.len()
        invariant
            i <= elements@.len(),
            covered(rows@, ids, at + places(elements@.subrange(0, i as int))),
        decreases elements@.len() - i,
    {
        let ghost so_far = at + places(elements@.subrange(0, i as int));
        let ghost after = elements@.subrange(0, i + 1);
        let element = &elements[i];
        proof {
            assert(after.drop_last() =~= elements@.subrange(0, i as int));
            assert(after.last() == *element);
            assert(decreases_to!(elements => elements@[i as int]));
        }
        collect_element(element, rows, Ghost(ids), Ghost(so_far));
        proof {
            assert(so_far + place(*element) =~= at + places(after));
        }
        i = i + 1;
    }
    proof {
        assert(elements@.subrange(0, i as int) =~= elements@);
    }
}

/// The widths that every item is rendered at, given the presentation bars that
/// show them.
pub fn component_test_matrix(
    items: &Vec<String>,
    bars: &Vec<Vec<PresentationElement>>,
) -> (rows: Vec<
    TestedItem,
>)
    requires
        declared(text::texts(items@), bar_places(bars@)),
    ensures
        covered(rows@, text::texts(items@), bar_places(bars@)),
{
    let ghost ids = text::texts(items@);
    let mut rows: Vec<TestedItem> = Vec::new();
    let mut i: usize = 0;
    while i < items.len()
        invariant
            i <= items@.len() == ids.len(),
            ids == text::texts(items@),
            rows@.len() == i,
            forall|k: int| 0 <= k < i ==> covers(#[trigger] rows@[k], ids[k], Seq::empty()),
        decreases items@.len() - i,
    {
        let widths = standard_widths();
        proof {
            assert(tested(ids[i as int], Seq::empty()) =~= standard());
        }
        rows.push(TestedItem { id: text::copied(items[i].as_str()), widths });
        i = i + 1;
    }
    let mut b: usize = 0;
    proof {
        assert(bars@.subrange(0, 0) =~= Seq::empty());
    }
    while b < bars.len()
        invariant
            b <= bars@.len(),
            covered(rows@, ids, bar_places(bars@.subrange(0, b as int))),
        decreases bars@.len() - b,
    {
        let ghost so_far = bar_places(bars@.subrange(0, b as int));
        collect_elements(&bars[b], &mut rows, Ghost(ids), Ghost(so_far));
        proof {
            let after = bars@.subrange(0, b + 1);
            assert(after.drop_last() =~= bars@.subrange(0, b as int));
        }
        b = b + 1;
    }
    proof {
        assert(bars@.subrange(0, b as int) =~= bars@);
    }
    rows
}

/// The places of items in all bars, one after the other.
pub open spec fn bar_places(bars: Seq<Vec<PresentationElement>>) -> Seq<(Seq<char>, Seq<u32>)>
    decreases bars.len(),
{
    if bars.len() == 0 {
        Seq::empty()
    } else {
        bar_places(bars.drop_last()) + places(bars.last()@)
    }
}

/// Every item is rendered at the standard widths, and at each width of its
/// places.
pub proof fn every_width_is_tested(
    rows: Seq<TestedItem>,
    ids: Seq<Seq<char>>,
    at: Seq<(Seq<char>, Seq<u32>)>,
    row: int,
    i: int,
    width: u32,
)
    requires
        covered(rows, ids, at),
        0 <= row < rows.len(),
        0 <= i < at.len(),
        at[i].0 == ids[row],
        at[i].1.contains(width) || standard().contains(width),
    ensures
        rows[row].widths@.contains(width),
{
    assert(covers(rows[row], ids[row], at));
    assert(tested(ids[row], at).contains(width));
    assert(rows[row].widths@.to_set().contains(width));
}

/// The item stands somewhere among the elements, with this for one of its
/// widths.
pub open spec fn stands(
    elements: Seq<PresentationElement>,
    id: Seq<char>,
    width: u32,
) -> bool
    decreases elements,
{
    exists|i: int| 0 <= i < elements.len() && stands_in(#[trigger] elements[i], id, width)
}

/// The item is the element or stands somewhere in it, with this for one of its
/// widths.
pub open spec fn stands_in(element: PresentationElement, id: Seq<char>, width: u32) -> bool
    decreases element,
{
    match element {
        PresentationElement::Item { item, minimum_width, preferred_width, maximum_width } => item@
            == id && (width == minimum_width || width == preferred_width || width
            == maximum_width),
        PresentationElement::Group { elements } => stands(elements@, id, width),
        PresentationElement::Space => false,
    }
}

/// A place of the item has the width.
spec fn placed(at: Seq<(Seq<char>, Seq<u32>)>, id: Seq<char>, width: u32) -> bool {
    exists|i: int| 0 <= i < at.len() && (#[trigger] at[i]).0 == id && at[i].1.contains(width)
}

proof fn lemma_placed_joined(
    a: Seq<(Seq<char>, Seq<u32>)>,
    b: Seq<(Seq<char>, Seq<u32>)>,
    id: Seq<char>,
    width: u32,
)
    ensures
        placed(a + b, id, width) == (placed(a, id, width) || placed(b, id, width)),
{
    let all = a + b;
    if placed(a, id, width) {
        let i = choose|i: int|
            0 <= i < a.len() && (#[trigger] a[i]).0 == id && a[i].1.contains(width);
        assert(all[i] == a[i]);
    }
    if placed(b, id, width) {
        let i = choose|i: int|
            0 <= i < b.len() && (#[trigger] b[i]).0 == id && b[i].1.contains(width);
        assert(all[a.len() + i] == b[i]);
    }
    if placed(all, id, width) {
        let i = choose|i: int|
            0 <= i < all.len() && (#[trigger] all[i]).0 == id && all[i].1.contains(width);
        if i < a.len() {
            assert(all[i] == a[i]);
        } else {
            assert(all[i] == b[i - a.len()]);
        }
    }
}

proof fn lemma_places(elements: Seq<PresentationElement>, id: Seq<char>, width: u32)
    ensures
        placed(places(elements), id, width) == stands(elements, id, width),
    decreases elements,
{
    if elements.len() > 0 {
        let front = elements.drop_last();
        let last = elements.last();
        lemma_places(front, id, width);
        lemma_place(last, id, width);
        lemma_placed_joined(places(front), place(last), id, width);
        if stands(elements, id, width) {
            let i = choose|i: int|
                0 <= i < elements.len() && stands_in(#[trigger] elements[i], id, width);
            if i < front.len() {
                assert(front[i] == elements[i]);
            }
        }
        if stands(front, id, width) {
            let i = choose|i: int|
                0 <= i < front.len() && stands_in(#[trigger] front[i], id, width);
            assert(elements[i] == front[i]);
        }
        if stands_in(last, id, width) {
            assert(elements[elements.len() - 1] == last);
        }
    }
}

proof fn lemma_place(element: PresentationElement, id: Seq<char>, width: u32)
    ensures
        placed(place(element), id, width) == stands_in(element, id, width),
    decreases element,
{
    match element {
        PresentationElement::Item { item, minimum_width, preferred_width, maximum_width } => {
            let widths = seq![minimum_width, preferred_width, maximum_width];
            assert(widths[0] == minimum_width && widths[1] == preferred_width && widths[2]
                == maximum_width);
            assert(place(element)[0] == (item@, widths));
        },
        PresentationElement::Group { elements } => {
            lemma_places(elements@, id, width);
        },
        PresentationElement::Space => {},
    }
}

proof fn lemma_bar_places(
    bars: Seq<Vec<PresentationElement>>,
    id: Seq<char>,
    width: u32,
)
    ensures
        placed(bar_places(bars), id, width) == exists|b: int|
            0 <= b < bars.len() && stands((#[trigger] bars[b])@, id, width),
    decreases bars.len(),
{
    if bars.len() > 0 {
        let front = bars.drop_last();
        lemma_bar_places(front, id, width);
        lemma_places(bars.last()@, id, width);
        lemma_placed_joined(bar_places(front), places(bars.last()@), id, width);
        if exists|b: int| 0 <= b < front.len() && stands((#[trigger] front[b])@, id, width) {
            let b = choose|b: int|
                0 <= b < front.len() && stands((#[trigger] front[b])@, id, width);
            assert(bars[b] == front[b]);
        }
        if exists|b: int| 0 <= b < bars.len() && stands((#[trigger] bars[b])@, id, width) {
            let b = choose|b: int|
                0 <= b < bars.len() && stands((#[trigger] bars[b])@, id, width);
            if b < front.len() {
                assert(front[b] == bars[b]);
            }
        }
        if stands(bars.last()@, id, width) {
            assert(bars[bars.len() - 1] == bars.last());
        }
    }
}

/// An item is rendered at five widths, at those that it has where it stands in
/// a bar, however deep, and at no others. Each width comes once, and the
/// narrower ones come first.
pub proof fn items_are_rendered_at_their_widths(
    rows: Seq<TestedItem>,
    ids: Seq<Seq<char>>,
    bars: Seq<Vec<PresentationElement>>,
    row: int,
    width: u32,
)
    requires
        covered(rows, ids, bar_places(bars)),
        0 <= row < ids.len(),
    ensures
        rows.len() == ids.len(),
        rows[row].id@ == ids[row],
        rows[row].widths@.contains(width) <==> width == 80 || width == 160 || width == 320 || width
            == 1004 || width == 2008 || exists|b: int|
            0 <= b < bars.len() && stands((#[trigger] bars[b])@, ids[row], width),
        forall|i: int, j: int|
            0 <= i < j < rows[row].widths@.len() ==> rows[row].widths@[i] < rows[row].widths@[j],
{
    let at = bar_places(bars);
    let id = ids[row];
    lemma_bar_places(bars, id, width);
    assert(covers(rows[row], id, at));
    assert(tested(id, at).contains(width) == (standard().contains(width) || placed(at, id, width)));
    assert(rows[row].widths@.to_set().contains(width) == rows[row].widths@.contains(width));
}

} // verus!
