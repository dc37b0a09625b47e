//! Which registries and catalogs of profiles are accepted.
use vstd::prelude::*;

use crate::layout::{ItemId, MAX_GROUP_DEPTH};
use crate::model::ids::{ContributionId, ProfileId};
use crate::model::profiles;
use crate::model::profiles::{
    ContributionDefinition, ProfileCatalog, ProfileDefinition, ProfileElement, ProfileError,
    ProfileGroup, ProfileGroupElement, SlotDefinition,
};
use crate::model::registry;
use crate::model::registry::{
    BarDefinition, BarElement, BarGroup, BarGroupElement, ItemDefinition, ModelError, Registry,
};
use crate::model::BarId;
use crate::text;
use crate::text::TextMap;

verus! {

// ---------------------------------------------------------------------------
// Names

/// The names are different, and none of them is taken.
pub open spec fn fresh(names: Seq<Seq<char>>, taken: Set<Seq<char>>) -> bool {
    names.no_duplicates() && forall|i: int|
        0 <= i < names.len() ==> !taken.contains(#[trigger] names[i])
}

/// What is taken with the names besides.
spec fn grows(names: Seq<Seq<char>>, taken: Set<Seq<char>>, after: Set<Seq<char>>) -> bool {
    forall|name: Seq<char>| #[trigger]
        after.contains(name) <==> taken.contains(name) || names.contains(name)
}

proof fn lemma_fresh(
    a: Seq<Seq<char>>,
    b: Seq<Seq<char>>,
    taken: Set<Seq<char>>,
    between: Set<Seq<char>>,
)
    requires
        grows(a, taken, between),
    ensures
        fresh(a + b, taken) <==> fresh(a, taken) && fresh(b, between),
{
    let all = a + b;
    if fresh(all, taken) {
        assert forall|i: int, j: int| 0 <= i < a.len() && 0 <= j < a.len() && i != j implies a[i]
            != a[j] by {
            assert(all[i] == a[i] && all[j] == a[j]);
        }
        assert forall|i: int| 0 <= i < a.len() implies !taken.contains(#[trigger] a[i]) by {
            assert(all[i] == a[i]);
        }
        assert forall|i: int, j: int| 0 <= i < b.len() && 0 <= j < b.len() && i != j implies b[i]
            != b[j] by {
            assert(all[a.len() + i] == b[i] && all[a.len() + j] == b[j]);
        }
        assert forall|i: int| 0 <= i < b.len() implies !between.contains(#[trigger] b[i]) by {
            assert(all[a.len() + i] == b[i]);
            if a.contains(b[i]) {
                let k = choose|k: int| 0 <= k < a.len() && a[k] == b[i];
                assert(all[k] == a[k]);
            }
        }
    }
    if fresh(a, taken) && fresh(b, between) {
        assert forall|i: int, j: int| 0 <= i < all.len() && 0 <= j < all.len() && i != j implies
            all[i] != all[j] by {
            if i < a.len() && j >= a.len() {
                assert(a.contains(a[i]));
                assert(!between.contains(b[j - a.len()]));
            }
            if j < a.len() && i >= a.len() {
                assert(a.contains(a[j]));
                assert(!between.contains(b[i - a.len()]));
            }
        }
        assert forall|i: int| 0 <= i < all.len() implies !taken.contains(#[trigger] all[i]) by {
            if i >= a.len() {
                assert(!between.contains(b[i - a.len()]));
            }
        }
    }
}

proof fn lemma_grows(
    a: Seq<Seq<char>>,
    b: Seq<Seq<char>>,
    taken: Set<Seq<char>>,
    between: Set<Seq<char>>,
    after: Set<Seq<char>>,
)
    requires
        grows(a, taken, between),
        grows(b, between, after),
    ensures
        grows(a + b, taken, after),
{
    let all = a + b;
    assert forall|name: Seq<char>| #[trigger] after.contains(name) <==> taken.contains(name)
        || all.contains(name) by {
        assert(between.contains(name) <==> taken.contains(name) || a.contains(name));
        if a.contains(name) {
            let k = choose|k: int| 0 <= k < a.len() && a[k] == name;
            assert(all[k] == name);
        }
        if b.contains(name) {
            let k = choose|k: int| 0 <= k < b.len() && b[k] == name;
            assert(all[a.len() + k] == name);
        }
        if all.contains(name) {
            let k = choose|k: int| 0 <= k < all.len() && all[k] == name;
            if k < a.len() {
                assert(a[k] == name);
            } else {
                assert(b[k - a.len()] == name);
            }
        }
    }
}

proof fn lemma_one(name: Seq<char>, taken: Set<Seq<char>>)
    ensures
        fresh(seq![name], taken) <==> !taken.contains(name),
        grows(seq![name], taken, taken.insert(name)),
{
    let one = seq![name];
    assert(one[0] == name);
    assert forall|other: Seq<char>| #[trigger]
        taken.insert(name).contains(other) <==> taken.contains(other) || one.contains(other) by {
        if one.contains(other) {
            let k = choose|k: int| 0 <= k < one.len() && one[k] == other;
        }
    }
}

proof fn lemma_none(taken: Set<Seq<char>>)
    ensures
        fresh(Seq::empty(), taken),
        grows(Seq::empty(), taken, taken),
{
    assert forall|name: Seq<char>| !Seq::<Seq<char>>::empty().contains(name) by {}
}

// ---------------------------------------------------------------------------
// Groups of items

/// The name of a group and those of all groups within it.
pub open spec fn cluster_names(group: BarGroup) -> Seq<Seq<char>>
    decreases group,
{
    seq![group.id@] + members_names(group.elements@)
}

pub open spec fn members_names(elements: Seq<BarGroupElement>) -> Seq<Seq<char>>
    decreases elements,
{
    if elements.len() == 0 {
        Seq::empty()
    } else {
        members_names(elements.drop_last()) + (match elements.last() {
            BarGroupElement::Item(_) => Seq::empty(),
            BarGroupElement::Group(inner) => cluster_names(inner),
        })
    }
}

/// The group has a name, all its items are registered, and groups stand in each other
/// at most as many levels deep.
pub open spec fn proper_group(
    items: TextMap<ItemId, ItemDefinition>,
    group: BarGroup,
    levels: int,
) -> bool
    decreases group,
{
    &&& !text::is_blank(group.id@)
    &&& levels >= 1
    &&& forall|i: int|
        0 <= i < group.elements@.len() ==> match #[trigger] group.elements@[i] {
            BarGroupElement::Item(id) => items.has(id@),
            BarGroupElement::Group(inner) => proper_group(items, inner, levels - 1),
        }
}

spec fn proper_members(
    items: TextMap<ItemId, ItemDefinition>,
    elements: Seq<BarGroupElement>,
    levels: int,
) -> bool {
    forall|i: int|
        0 <= i < elements.len() ==> match #[trigger] elements[i] {
            BarGroupElement::Item(id) => items.has(id@),
            BarGroupElement::Group(inner) => proper_group(items, inner, levels),
        }
}

/// The element is of registered items, has a name where it is a group, and a weight where
/// it is a flexible space.
pub open spec fn proper_element(
    items: TextMap<ItemId, ItemDefinition>,
    element: BarElement,
) -> bool {
    match element {
        BarElement::Item(id) => items.has(id@),
        BarElement::Group(group) => proper_group(items, group, MAX_GROUP_DEPTH as int),
        BarElement::FixedSpace { .. } => true,
        BarElement::FlexibleSpace { weight, .. } => weight > 0,
        BarElement::ContextProxy => true,
    }
}

/// The names of the groups among the first `n` elements, at any depth.
pub open spec fn element_names(elements: Seq<BarElement>, n: int) -> Seq<Seq<char>>
    decreases n,
{
    if n <= 0 {
        Seq::empty()
    } else {
        element_names(elements, n - 1) + (match elements[n - 1] {
            BarElement::Group(group) => cluster_names(group),
            _ => Seq::empty(),
        })
    }
}

proof fn lemma_bar_members(
    items: TextMap<ItemId, ItemDefinition>,
    owner: BarId,
    elements: Seq<BarGroupElement>,
    depth: int,
    taken: Set<Seq<char>>,
)
    ensures
        registry::children_check(items, owner, elements, depth, taken) is Ok <==> proper_members(
            items,
            elements,
            MAX_GROUP_DEPTH - depth + 1,
        ) && fresh(members_names(elements), taken),
        registry::children_check(items, owner, elements, depth, taken) matches Ok(after) ==> grows(
            members_names(elements),
            taken,
            after,
        ),
    decreases elements,
{
    lemma_none(taken);
    if elements.len() > 0 {
        let some = elements.drop_last();
        let last = elements.last();
        lemma_bar_members(items, owner, some, depth, taken);
        let names = match last {
            BarGroupElement::Item(_) => Seq::<Seq<char>>::empty(),
            BarGroupElement::Group(inner) => cluster_names(inner),
        };
        let levels = MAX_GROUP_DEPTH - depth + 1;
        if proper_members(items, elements, levels) {
            assert forall|i: int| 0 <= i < some.len() implies match #[trigger] some[i] {
                BarGroupElement::Item(id) => items.has(id@),
                BarGroupElement::Group(inner) => proper_group(items, inner, levels),
            } by {
                assert(elements[i] == some[i]);
            }
            assert(elements[elements.len() - 1] == last);
        }
        match registry::children_check(items, owner, some, depth, taken) {
            Ok(between) => {
                lemma_none(between);
                let checked = registry::child_check(items, owner, last, depth, between);
                assert(checked == registry::children_check(items, owner, elements, depth, taken));
                match last {
                    BarGroupElement::Item(id) => {
                        assert(items.has(id@) ==> checked == Ok::<Set<Seq<char>>, ModelError>(between));
                        assert(!items.has(id@) ==> checked is Err);
                    },
                    BarGroupElement::Group(inner) => {
                        assert(checked == registry::group_check(items, owner, inner, depth, between));
                        lemma_bar_group(items, owner, inner, depth, between);
                    },
                }
                lemma_fresh(members_names(some), names, taken, between);
                if registry::children_check(items, owner, elements, depth, taken) is Ok {
                    let after = registry::children_check(
                        items,
                        owner,
                        elements,
                        depth,
                        taken,
                    )->Ok_0;
                    lemma_grows(members_names(some), names, taken, between, after);
                    assert forall|i: int| 0 <= i < elements.len() implies match
                    #[trigger] elements[i] {
                        BarGroupElement::Item(id) => items.has(id@),
                        BarGroupElement::Group(inner) => proper_group(items, inner, levels),
                    } by {
                        if i < some.len() {
                            assert(elements[i] == some[i]);
                        }
                    }
                }
            },
            Err(_) => {
                if fresh(members_names(elements), taken) {
                    let all = members_names(some);
                    let after = taken.union(all.to_set());
                    assert(grows(all, taken, after));
                    lemma_fresh(all, names, taken, after);
                }
            },
        }
    }
}

proof fn lemma_bar_group(
    items: TextMap<ItemId, ItemDefinition>,
    owner: BarId,
    group: BarGroup,
    depth: int,
    taken: Set<Seq<char>>,
)
    ensures
        registry::group_check(items, owner, group, depth, taken) is Ok <==> proper_group(
            items,
            group,
            MAX_GROUP_DEPTH - depth + 1,
        ) && fresh(cluster_names(group), taken),
        registry::group_check(items, owner, group, depth, taken) matches Ok(after) ==> grows(
            cluster_names(group),
            taken,
            after,
        ),
    decreases group,
{
    let entered = taken.insert(group.id@);
    let inside = members_names(group.elements@);
    lemma_bar_members(items, owner, group.elements@, depth + 1, entered);
    lemma_one(group.id@, taken);
    lemma_fresh(seq![group.id@], inside, taken, entered);
    if registry::group_check(items, owner, group, depth, taken) is Ok {
        let after = registry::group_check(items, owner, group, depth, taken)->Ok_0;
        lemma_grows(seq![group.id@], inside, taken, entered, after);
    }
    assert(proper_group(items, group, MAX_GROUP_DEPTH - depth + 1) <==> !text::is_blank(
        group.id@,
    ) && depth <= MAX_GROUP_DEPTH && proper_members(
        items,
        group.elements@,
        MAX_GROUP_DEPTH - depth,
    ));
}

proof fn lemma_bar_elements(
    items: TextMap<ItemId, ItemDefinition>,
    owner: BarId,
    elements: Seq<BarElement>,
    n: int,
)
    requires
        0 <= n <= elements.len(),
    ensures
        registry::elements_check(items, owner, elements, n) is Ok <==> (forall|i: int|
            0 <= i < n ==> proper_element(items, #[trigger] elements[i])) && fresh(
            element_names(elements, n),
            Set::empty(),
        ),
        registry::elements_check(items, owner, elements, n) matches Ok(after) ==> grows(
            element_names(elements, n),
            Set::empty(),
            after,
        ),
    decreases n,
{
    lemma_none(Set::empty());
    if n > 0 {
        lemma_bar_elements(items, owner, elements, n - 1);
        let last = elements[n - 1];
        let before = element_names(elements, n - 1);
        let names = match last {
            BarElement::Group(group) => cluster_names(group),
            _ => Seq::<Seq<char>>::empty(),
        };
        match registry::elements_check(items, owner, elements, n - 1) {
            Ok(between) => {
                lemma_none(between);
                if let BarElement::Group(group) = last {
                    lemma_bar_group(items, owner, group, 1, between);
                }
                lemma_fresh(before, names, Set::empty(), between);
                if registry::elements_check(items, owner, elements, n) is Ok {
                    let after = registry::elements_check(items, owner, elements, n)->Ok_0;
                    lemma_grows(before, names, Set::empty(), between, after);
                }
            },
            Err(_) => {
                let after = before.to_set();
                assert(grows(before, Set::empty(), after));
                lemma_fresh(before, names, Set::empty(), after);
            },
        }
    }
}

proof fn lemma_offer_members(
    items: TextMap<ItemId, ItemDefinition>,
    owner: ContributionId,
    elements: Seq<BarGroupElement>,
    depth: int,
    taken: Set<Seq<char>>,
)
    ensures
        profiles::parts_check(items, owner, elements, depth, taken) is Ok <==> proper_members(
            items,
            elements,
            MAX_GROUP_DEPTH - depth + 1,
        ) && fresh(members_names(elements), taken),
        profiles::parts_check(items, owner, elements, depth, taken) matches Ok(after) ==> grows(
            members_names(elements),
            taken,
            after,
        ),
    decreases elements,
{
    lemma_none(taken);
    if elements.len() > 0 {
        let some = elements.drop_last();
        let last = elements.last();
        lemma_offer_members(items, owner, some, depth, taken);
        let names = match last {
            BarGroupElement::Item(_) => Seq::<Seq<char>>::empty(),
            BarGroupElement::Group(inner) => cluster_names(inner),
        };
        let levels = MAX_GROUP_DEPTH - depth + 1;
        if proper_members(items, elements, levels) {
            assert forall|i: int| 0 <= i < some.len() implies match #[trigger] some[i] {
                BarGroupElement::Item(id) => items.has(id@),
                BarGroupElement::Group(inner) => proper_group(items, inner, levels),
            } by {
                assert(elements[i] == some[i]);
            }
            assert(elements[elements.len() - 1] == last);
        }
        match profiles::parts_check(items, owner, some, depth, taken) {
            Ok(between) => {
                lemma_none(between);
                let checked = profiles::part_check(items, owner, last, depth, between);
                assert(checked == profiles::parts_check(items, owner, elements, depth, taken));
                match last {
                    BarGroupElement::Item(id) => {
                        assert(items.has(id@) ==> checked == Ok::<Set<Seq<char>>, ProfileError>(between));
                        assert(!items.has(id@) ==> checked is Err);
                    },
                    BarGroupElement::Group(inner) => {
                        assert(checked == profiles::cluster_check(items, owner, inner, depth, between));
                        lemma_offer_group(items, owner, inner, depth, between);
                    },
                }
                lemma_fresh(members_names(some), names, taken, between);
                if profiles::parts_check(items, owner, elements, depth, taken) is Ok {
                    let after = profiles::parts_check(
                        items,
                        owner,
                        elements,
                        depth,
                        taken,
                    )->Ok_0;
                    lemma_grows(members_names(some), names, taken, between, after);
                    assert forall|i: int| 0 <= i < elements.len() implies match
                    #[trigger] elements[i] {
                        BarGroupElement::Item(id) => items.has(id@),
                        BarGroupElement::Group(inner) => proper_group(items, inner, levels),
                    } by {
                        if i < some.len() {
                            assert(elements[i] == some[i]);
                        }
                    }
                }
            },
            Err(_) => {
                if fresh(members_names(elements), taken) {
                    let all = members_names(some);
                    let after = taken.union(all.to_set());
                    assert(grows(all, taken, after));
                    lemma_fresh(all, names, taken, after);
                }
            },
        }
    }
}

proof fn lemma_offer_group(
    items: TextMap<ItemId, ItemDefinition>,
    owner: ContributionId,
    group: BarGroup,
    depth: int,
    taken: Set<Seq<char>>,
)
    ensures
        profiles::cluster_check(items, owner, group, depth, taken) is Ok <==> proper_group(
            items,
            group,
            MAX_GROUP_DEPTH - depth + 1,
        ) && fresh(cluster_names(group), taken),
        profiles::cluster_check(items, owner, group, depth, taken) matches Ok(after) ==> grows(
            cluster_names(group),
            taken,
            after,
        ),
    decreases group,
{
    let entered = taken.insert(group.id@);
    let inside = members_names(group.elements@);
    lemma_offer_members(items, owner, group.elements@, depth + 1, entered);
    lemma_one(group.id@, taken);
    lemma_fresh(seq![group.id@], inside, taken, entered);
    if profiles::cluster_check(items, owner, group, depth, taken) is Ok {
        let after = profiles::cluster_check(items, owner, group, depth, taken)->Ok_0;
        lemma_grows(seq![group.id@], inside, taken, entered, after);
    }
    assert(proper_group(items, group, MAX_GROUP_DEPTH - depth + 1) <==> !text::is_blank(
        group.id@,
    ) && depth <= MAX_GROUP_DEPTH && proper_members(
        items,
        group.elements@,
        MAX_GROUP_DEPTH - depth,
    ));
}

proof fn lemma_offer_elements(
    items: TextMap<ItemId, ItemDefinition>,
    owner: ContributionId,
    elements: Seq<BarElement>,
    n: int,
)
    requires
        0 <= n <= elements.len(),
    ensures
        profiles::offers_check(items, owner, elements, n) is Ok <==> (forall|i: int|
            0 <= i < n ==> proper_element(items, #[trigger] elements[i]) && !(elements[i] is ContextProxy)) && fresh(
            element_names(elements, n),
            Set::empty(),
        ),
        profiles::offers_check(items, owner, elements, n) matches Ok(after) ==> grows(
            element_names(elements, n),
            Set::empty(),
            after,
        ),
    decreases n,
{
    lemma_none(Set::empty());
    if n > 0 {
        lemma_offer_elements(items, owner, elements, n - 1);
        let last = elements[n - 1];
        let before = element_names(elements, n - 1);
        let names = match last {
            BarElement::Group(group) => cluster_names(group),
            _ => Seq::<Seq<char>>::empty(),
        };
        match profiles::offers_check(items, owner, elements, n - 1) {
            Ok(between) => {
                lemma_none(between);
                if let BarElement::Group(group) = last {
                    lemma_offer_group(items, owner, group, 1, between);
                }
                lemma_fresh(before, names, Set::empty(), between);
                if profiles::offers_check(items, owner, elements, n) is Ok {
                    let after = profiles::offers_check(items, owner, elements, n)->Ok_0;
                    lemma_grows(before, names, Set::empty(), between, after);
                }
            },
            Err(_) => {
                let after = before.to_set();
                assert(grows(before, Set::empty(), after));
                lemma_fresh(before, names, Set::empty(), after);
            },
        }
    }
}

// ---------------------------------------------------------------------------
// Registries

/// The bars that an item opens are registered.
pub open spec fn opens_known_bars(
    bars: TextMap<BarId, BarDefinition>,
    item: ItemDefinition,
) -> bool {
    &&& item.expanded_bar matches Some(bar) ==> bars.has(bar@)
    &&& item.press_and_hold_bar matches Some(bar) ==> bars.has(bar@)
}

/// The bar has one proxy at most, proper elements, different names for its groups, and
/// its principal item in it.
pub open spec fn sound_bar(items: TextMap<ItemId, ItemDefinition>, bar: BarDefinition) -> bool {
    let elements = bar.elements@;
    &&& forall|i: int, j: int|
        #![trigger elements[i], elements[j]]
        0 <= i < j < elements.len() ==> !(elements[i] is ContextProxy
            && elements[j] is ContextProxy)
    &&& forall|i: int| 0 <= i < elements.len() ==> proper_element(items, #[trigger] elements[i])
    &&& element_names(elements, elements.len() as int).no_duplicates()
    &&& bar.principal_item matches Some(id) ==> registry::names_item(elements, id@)
}

proof fn lemma_one_proxy(elements: Seq<BarElement>, n: int)
    requires
        0 <= n <= elements.len(),
    ensures
        registry::proxies(elements, n) >= 0,
        registry::proxies(elements, n) == 0 <==> forall|i: int|
            0 <= i < n ==> !(#[trigger] elements[i] is ContextProxy),
        registry::proxies(elements, n) <= 1 <==> forall|i: int, j: int|
            #![trigger elements[i], elements[j]]
            0 <= i < j < n ==> !(elements[i] is ContextProxy && elements[j] is ContextProxy),
    decreases n,
{
    if n > 0 {
        lemma_one_proxy(elements, n - 1);
        let last = elements[n - 1];
        if last is ContextProxy {
            if registry::proxies(elements, n - 1) > 0 {
                let i = choose|i: int| 0 <= i < n - 1 && #[trigger] elements[i] is ContextProxy;
                assert(elements[i] is ContextProxy && elements[n - 1] is ContextProxy);
            }
        } else if registry::proxies(elements, n - 1) > 1 {
            let (i, j) = choose|i: int, j: int|
                #![trigger elements[i], elements[j]]
                0 <= i < j < n - 1 && elements[i] is ContextProxy && elements[j] is ContextProxy;
            assert(elements[i] is ContextProxy && elements[j] is ContextProxy);
        }
    }
}

proof fn lemma_sound_bar(items: TextMap<ItemId, ItemDefinition>, bar: BarDefinition)
    ensures
        registry::bar_fault(items, bar) is None <==> sound_bar(items, bar),
{
    let elements = bar.elements@;
    let n = elements.len() as int;
    lemma_one_proxy(elements, n);
    lemma_bar_elements(items, bar.id, elements, n);
    assert(fresh(element_names(elements, n), Set::empty()) <==> element_names(
        elements,
        n,
    ).no_duplicates());
}

proof fn lemma_sound_items(
    items: Seq<ItemDefinition>,
    bars: TextMap<BarId, BarDefinition>,
    n: int,
)
    ensures
        registry::items_fault(items, bars, n) is None <==> forall|i: int|
            0 <= i < n ==> opens_known_bars(bars, #[trigger] items[i]),
    decreases n,
{
    if n > 0 {
        lemma_sound_items(items, bars, n - 1);
        assert(registry::item_fault(items[n - 1], bars) is None <==> opens_known_bars(
            bars,
            items[n - 1],
        ));
    }
}

proof fn lemma_sound_bars(
    items: TextMap<ItemId, ItemDefinition>,
    bars: Seq<BarDefinition>,
    n: int,
)
    ensures
        registry::bars_fault(items, bars, n) is None <==> forall|i: int|
            0 <= i < n ==> sound_bar(items, #[trigger] bars[i]),
    decreases n,
{
    if n > 0 {
        lemma_sound_bars(items, bars, n - 1);
        lemma_sound_bar(items, bars[n - 1]);
    }
}

/// A registry is accepted exactly where all bars that its items open are registered, and
/// each bar has one proxy at most, only registered items, flexible spaces with weights,
/// groups with names of their own that are not nested too deeply, and its principal item
/// in it.
pub proof fn registries_are_accepted_where_sound(registry: Registry)
    ensures
        registry::registry_fault(registry) is None <==> {
            &&& forall|i: int|
                0 <= i < registry.item_map().values().len() ==> opens_known_bars(
                    registry.bar_map(),
                    #[trigger] registry.item_map().values()[i],
                )
            &&& forall|b: int|
                0 <= b < registry.bar_map().values().len() ==> sound_bar(
                    registry.item_map(),
                    #[trigger] registry.bar_map().values()[b],
                )
        },
{
    let items = registry.item_map();
    let bars = registry.bar_map();
    lemma_sound_items(items.values(), bars, items.values().len() as int);
    lemma_sound_bars(items, bars.values(), bars.values().len() as int);
}

// ---------------------------------------------------------------------------
// Catalogs of profiles

/// The contribution has proper elements, no proxy, and different names for its groups.
pub open spec fn sound_contribution(
    items: TextMap<ItemId, ItemDefinition>,
    contribution: ContributionDefinition,
) -> bool {
    let elements = contribution.elements@;
    &&& forall|i: int|
        0 <= i < elements.len() ==> proper_element(items, #[trigger] elements[i]) && !(
        elements[i] is ContextProxy)
    &&& element_names(elements, elements.len() as int).no_duplicates()
}

proof fn lemma_sound_contributions(
    items: TextMap<ItemId, ItemDefinition>,
    contributions: Seq<ContributionDefinition>,
    n: int,
)
    ensures
        profiles::contributions_fault(items, contributions, n) is None <==> forall|i: int|
            0 <= i < n ==> sound_contribution(items, #[trigger] contributions[i]),
    decreases n,
{
    if n > 0 {
        lemma_sound_contributions(items, contributions, n - 1);
        let c = contributions[n - 1];
        lemma_offer_elements(items, c.id, c.elements@, c.elements@.len() as int);
        assert(fresh(element_names(c.elements@, c.elements@.len() as int), Set::empty())
            <==> element_names(c.elements@, c.elements@.len() as int).no_duplicates());
    }
}

/// The slot has a name and binds known contributions; inside a group, only such without
/// spaces.
pub open spec fn proper_slot(
    contributions: TextMap<ContributionId, ContributionDefinition>,
    slot: SlotDefinition,
    nested: bool,
) -> bool {
    &&& !text::is_blank(slot.id@)
    &&& forall|k: int|
        #![trigger slot.bindings@[k]]
        0 <= k < slot.bindings@.len() ==> {
            &&& contributions.lookup(slot.bindings@[k].contribution@) matches Some(known)
            &&& nested ==> forall|e: int|
                0 <= e < known.elements@.len() ==> !(#[trigger] known.elements@[e] is FixedSpace)
                    && !(known.elements@[e] is FlexibleSpace)
        }
}

/// The names of the slots in a group, at any depth.
pub open spec fn slot_names(elements: Seq<ProfileGroupElement>) -> Seq<Seq<char>>
    decreases elements,
{
    if elements.len() == 0 {
        Seq::empty()
    } else {
        slot_names(elements.drop_last()) + (match elements.last() {
            ProfileGroupElement::Slot(slot) => seq![slot.id@],
            ProfileGroupElement::Group(group) => slot_names(group.elements@),
        })
    }
}

/// The names of the groups in a group, at any depth.
pub open spec fn template_names(elements: Seq<ProfileGroupElement>) -> Seq<Seq<char>>
    decreases elements,
{
    if elements.len() == 0 {
        Seq::empty()
    } else {
        template_names(elements.drop_last()) + (match elements.last() {
            ProfileGroupElement::Slot(slot) => Seq::empty(),
            ProfileGroupElement::Group(group) => seq![group.id@] + template_names(group.elements@),
        })
    }
}

/// The group has a name that no slot stands for, its slots are proper, and groups stand in
/// each other at most as many levels deep, where a slot counts as one.
pub open spec fn proper_template(
    contributions: TextMap<ContributionId, ContributionDefinition>,
    group: ProfileGroup,
    levels: int,
) -> bool
    decreases group,
{
    &&& !text::is_blank(group.id@)
    &&& !text::begins(group.id@, "@slot/"@)
    &&& levels >= 1
    &&& forall|i: int|
        0 <= i < group.elements@.len() ==> match #[trigger] group.elements@[i] {
            ProfileGroupElement::Slot(slot) => levels >= 2 && proper_slot(
                contributions,
                slot,
                true,
            ),
            ProfileGroupElement::Group(inner) => proper_template(contributions, inner, levels - 1),
        }
}

spec fn proper_fields(
    contributions: TextMap<ContributionId, ContributionDefinition>,
    elements: Seq<ProfileGroupElement>,
    levels: int,
) -> bool {
    forall|i: int|
        0 <= i < elements.len() ==> proper_within(contributions, #[trigger] elements[i], levels)
}

proof fn lemma_bindings(
    contributions: TextMap<ContributionId, ContributionDefinition>,
    profile: ProfileId,
    slot: SlotDefinition,
    nested: bool,
    n: int,
)
    requires
        0 <= n <= slot.bindings@.len(),
    ensures
        profiles::bindings_fault(contributions, profile, slot, nested, n) is None <==> forall|k: int|
            #![trigger slot.bindings@[k]]
            0 <= k < n ==> {
                &&& contributions.lookup(slot.bindings@[k].contribution@) matches Some(known)
                &&& nested ==> forall|e: int|
                    0 <= e < known.elements@.len() ==> !(
                    #[trigger] known.elements@[e] is FixedSpace) && !(
                    known.elements@[e] is FlexibleSpace)
            },
    decreases n,
{
    if n > 0 {
        lemma_bindings(contributions, profile, slot, nested, n - 1);
    }
}

proof fn lemma_proper_slot(
    contributions: TextMap<ContributionId, ContributionDefinition>,
    profile: ProfileId,
    slot: SlotDefinition,
    nested: bool,
    names: profiles::Names,
)
    ensures
        profiles::slot_check(contributions, profile, slot, nested, names) is Ok <==> proper_slot(
            contributions,
            slot,
            nested,
        ) && !names.slots.contains(slot.id@),
        profiles::slot_check(contributions, profile, slot, nested, names) matches Ok(after)
            ==> after.groups == names.groups && after.slots == names.slots.insert(slot.id@),
{
    lemma_bindings(contributions, profile, slot, nested, slot.bindings@.len() as int);
}

/// The slots and the groups have different names that are not taken.
spec fn fresh_names(
    slots: Seq<Seq<char>>,
    groups: Seq<Seq<char>>,
    names: profiles::Names,
) -> bool {
    fresh(slots, names.slots) && fresh(groups, names.groups)
}

spec fn names_grow(
    slots: Seq<Seq<char>>,
    groups: Seq<Seq<char>>,
    names: profiles::Names,
    after: profiles::Names,
) -> bool {
    grows(slots, names.slots, after.slots) && grows(groups, names.groups, after.groups)
}

spec fn slots_in(element: ProfileGroupElement) -> Seq<Seq<char>> {
    match element {
        ProfileGroupElement::Slot(slot) => seq![slot.id@],
        ProfileGroupElement::Group(group) => slot_names(group.elements@),
    }
}

spec fn groups_in(element: ProfileGroupElement) -> Seq<Seq<char>> {
    match element {
        ProfileGroupElement::Slot(slot) => Seq::empty(),
        ProfileGroupElement::Group(group) => seq![group.id@] + template_names(group.elements@),
    }
}

spec fn proper_within(
    contributions: TextMap<ContributionId, ContributionDefinition>,
    element: ProfileGroupElement,
    levels: int,
) -> bool {
    match element {
        ProfileGroupElement::Slot(slot) => levels >= 2 && proper_slot(contributions, slot, true),
        ProfileGroupElement::Group(inner) => proper_template(contributions, inner, levels - 1),
    }
}

proof fn lemma_member(
    contributions: TextMap<ContributionId, ContributionDefinition>,
    profile: ProfileId,
    owner: String,
    element: ProfileGroupElement,
    depth: int,
    names: profiles::Names,
)
    ensures
        profiles::member_check(contributions, profile, owner, element, depth, names) is Ok
            <==> proper_within(contributions, element, MAX_GROUP_DEPTH - depth + 1) && fresh_names(
            slots_in(element),
            groups_in(element),
            names,
        ),
        profiles::member_check(
            contributions,
            profile,
            owner,
            element,
            depth,
            names,
        ) matches Ok(after) ==> names_grow(slots_in(element), groups_in(element), names, after),
    decreases element,
{
    match element {
        ProfileGroupElement::Slot(slot) => {
            lemma_none(names.groups);
            lemma_proper_slot(contributions, profile, slot, true, names);
            lemma_one(slot.id@, names.slots);
        },
        ProfileGroupElement::Group(group) => {
            lemma_template(contributions, profile, group, depth + 1, names);
        },
    }
}

proof fn lemma_members(
    contributions: TextMap<ContributionId, ContributionDefinition>,
    profile: ProfileId,
    owner: String,
    elements: Seq<ProfileGroupElement>,
    depth: int,
    names: profiles::Names,
)
    ensures
        profiles::members_check(contributions, profile, owner, elements, depth, names) is Ok
            <==> proper_fields(contributions, elements, MAX_GROUP_DEPTH - depth + 1) && fresh_names(
            slot_names(elements),
            template_names(elements),
            names,
        ),
        profiles::members_check(
            contributions,
            profile,
            owner,
            elements,
            depth,
            names,
        ) matches Ok(after) ==> names_grow(
            slot_names(elements),
            template_names(elements),
            names,
            after,
        ),
    decreases elements,
{
    lemma_none(names.slots);
    lemma_none(names.groups);
    if elements.len() > 0 {
        let some = elements.drop_last();
        let last = elements.last();
        let levels = MAX_GROUP_DEPTH - depth + 1;
        lemma_members(contributions, profile, owner, some, depth, names);
        assert(slot_names(elements) == slot_names(some) + slots_in(last));
        assert(template_names(elements) == template_names(some) + groups_in(last));
        assert(proper_fields(contributions, elements, levels) <==> proper_fields(
            contributions,
            some,
            levels,
        ) && proper_within(contributions, last, levels)) by {
            assert(elements[elements.len() - 1] == last);
            assert(forall|i: int| 0 <= i < some.len() ==> #[trigger] some[i] == elements[i]);
            if proper_fields(contributions, elements, levels) {
                assert forall|i: int| 0 <= i < some.len() implies proper_within(
                    contributions,
                    #[trigger] some[i],
                    levels,
                ) by {
                    assert(elements[i] == some[i]);
                }
            }
            if proper_fields(contributions, some, levels) && proper_within(
                contributions,
                last,
                levels,
            ) {
                assert forall|i: int| 0 <= i < elements.len() implies proper_within(
                    contributions,
                    #[trigger] elements[i],
                    levels,
                ) by {
                    if i < some.len() {
                        assert(elements[i] == some[i]);
                    }
                }
            }
        }
        match profiles::members_check(contributions, profile, owner, some, depth, names) {
            Ok(between) => {
                let checked = profiles::member_check(
                    contributions,
                    profile,
                    owner,
                    last,
                    depth,
                    between,
                );
                assert(checked == profiles::members_check(
                    contributions,
                    profile,
                    owner,
                    elements,
                    depth,
                    names,
                ));
                lemma_member(contributions, profile, owner, last, depth, between);
                lemma_fresh(slot_names(some), slots_in(last), names.slots, between.slots);
                lemma_fresh(template_names(some), groups_in(last), names.groups, between.groups);
                if checked is Ok {
                    let after = checked->Ok_0;
                    lemma_grows(
                        slot_names(some),
                        slots_in(last),
                        names.slots,
                        between.slots,
                        after.slots,
                    );
                    lemma_grows(
                        template_names(some),
                        groups_in(last),
                        names.groups,
                        between.groups,
                        after.groups,
                    );
                }
            },
            Err(_) => {
                let a = slot_names(some);
                let b = template_names(some);
                assert(grows(a, names.slots, names.slots.union(a.to_set())));
                assert(grows(b, names.groups, names.groups.union(b.to_set())));
                lemma_fresh(a, slots_in(last), names.slots, names.slots.union(a.to_set()));
                lemma_fresh(b, groups_in(last), names.groups, names.groups.union(b.to_set()));
            },
        }
    }
}

proof fn lemma_template(
    contributions: TextMap<ContributionId, ContributionDefinition>,
    profile: ProfileId,
    group: ProfileGroup,
    depth: int,
    names: profiles::Names,
)
    ensures
        profiles::template_check(contributions, profile, group, depth, names) is Ok
            <==> proper_template(contributions, group, MAX_GROUP_DEPTH - depth + 1) && fresh_names(
            slot_names(group.elements@),
            seq![group.id@] + template_names(group.elements@),
            names,
        ),
        profiles::template_check(contributions, profile, group, depth, names) matches Ok(after)
            ==> names_grow(
            slot_names(group.elements@),
            seq![group.id@] + template_names(group.elements@),
            names,
            after,
        ),
    decreases group,
{
    let entered = profiles::Names {
        slots: names.slots,
        groups: names.groups.insert(group.id@),
    };
    let inside = template_names(group.elements@);
    lemma_members(contributions, profile, group.id, group.elements@, depth, entered);
    lemma_one(group.id@, names.groups);
    lemma_fresh(seq![group.id@], inside, names.groups, entered.groups);
    if profiles::template_check(contributions, profile, group, depth, names) is Ok {
        let after = profiles::template_check(contributions, profile, group, depth, names)->Ok_0;
        lemma_grows(seq![group.id@], inside, names.groups, entered.groups, after.groups);
    }
    assert(proper_template(contributions, group, MAX_GROUP_DEPTH - depth + 1) <==> !text::is_blank(
        group.id@,
    ) && !text::begins(group.id@, "@slot/"@) && depth <= MAX_GROUP_DEPTH && proper_fields(
        contributions,
        group.elements@,
        MAX_GROUP_DEPTH - depth + 1,
    ));
}

/// The names of the slots among the first `n` elements of a profile, at any depth.
pub open spec fn profile_slots(elements: Seq<ProfileElement>, n: int) -> Seq<Seq<char>>
    decreases n,
{
    if n <= 0 {
        Seq::empty()
    } else {
        profile_slots(elements, n - 1) + (match elements[n - 1] {
            ProfileElement::Slot(slot) => seq![slot.id@],
            ProfileElement::Group(group) => slot_names(group.elements@),
            _ => Seq::empty(),
        })
    }
}

/// The names of the groups among the first `n` elements of a profile, at any depth.
pub open spec fn profile_groups(elements: Seq<ProfileElement>, n: int) -> Seq<Seq<char>>
    decreases n,
{
    if n <= 0 {
        Seq::empty()
    } else {
        profile_groups(elements, n - 1) + (match elements[n - 1] {
            ProfileElement::Group(group) => seq![group.id@] + template_names(group.elements@),
            _ => Seq::empty(),
        })
    }
}

/// The element of a profile is a proper slot, a proper group, or a space, with a weight
/// where it is flexible.
pub open spec fn proper_field(
    contributions: TextMap<ContributionId, ContributionDefinition>,
    element: ProfileElement,
) -> bool {
    match element {
        ProfileElement::Slot(slot) => proper_slot(contributions, slot, false),
        ProfileElement::Group(group) => proper_template(
            contributions,
            group,
            MAX_GROUP_DEPTH as int,
        ),
        ProfileElement::FixedSpace { .. } => true,
        ProfileElement::FlexibleSpace { weight, .. } => weight > 0,
    }
}

/// The profile has proper elements and different names for its slots and for its groups.
pub open spec fn sound_profile(
    contributions: TextMap<ContributionId, ContributionDefinition>,
    profile: ProfileDefinition,
) -> bool {
    let elements = profile.elements@;
    let n = elements.len() as int;
    &&& forall|i: int| 0 <= i < n ==> proper_field(contributions, #[trigger] elements[i])
    &&& profile_slots(elements, n).no_duplicates()
    &&& profile_groups(elements, n).no_duplicates()
}

proof fn lemma_profile_fields(
    contributions: TextMap<ContributionId, ContributionDefinition>,
    profile: ProfileId,
    elements: Seq<ProfileElement>,
    n: int,
)
    requires
        0 <= n <= elements.len(),
    ensures
        profiles::fields_check(contributions, profile, elements, n) is Ok <==> (forall|i: int|
            0 <= i < n ==> proper_field(contributions, #[trigger] elements[i])) && fresh(
            profile_slots(elements, n),
            Set::empty(),
        ) && fresh(profile_groups(elements, n), Set::empty()),
        profiles::fields_check(contributions, profile, elements, n) matches Ok(after) ==> grows(
            profile_slots(elements, n),
            Set::empty(),
            after.slots,
        ) && grows(profile_groups(elements, n), Set::empty(), after.groups),
    decreases n,
{
    lemma_none(Set::empty());
    if n > 0 {
        lemma_profile_fields(contributions, profile, elements, n - 1);
        let last = elements[n - 1];
        let a = profile_slots(elements, n - 1);
        let b = profile_groups(elements, n - 1);
        let slots = match last {
            ProfileElement::Slot(slot) => seq![slot.id@],
            ProfileElement::Group(group) => slot_names(group.elements@),
            _ => Seq::<Seq<char>>::empty(),
        };
        let groups = match last {
            ProfileElement::Group(group) => seq![group.id@] + template_names(group.elements@),
            _ => Seq::<Seq<char>>::empty(),
        };
        match profiles::fields_check(contributions, profile, elements, n - 1) {
            Ok(between) => {
                lemma_none(between.slots);
                lemma_none(between.groups);
                match last {
                    ProfileElement::Slot(slot) => {
                        lemma_proper_slot(contributions, profile, slot, false, between);
                        lemma_one(slot.id@, between.slots);
                    },
                    ProfileElement::Group(group) => {
                        lemma_template(contributions, profile, group, 1, between);
                    },
                    _ => {},
                }
                lemma_fresh(a, slots, Set::empty(), between.slots);
                lemma_fresh(b, groups, Set::empty(), between.groups);
                if profiles::fields_check(contributions, profile, elements, n) is Ok {
                    let after = profiles::fields_check(contributions, profile, elements, n)->Ok_0;
                    lemma_grows(a, slots, Set::empty(), between.slots, after.slots);
                    lemma_grows(b, groups, Set::empty(), between.groups, after.groups);
                }
            },
            Err(_) => {
                assert(grows(a, Set::empty(), a.to_set()));
                assert(grows(b, Set::empty(), b.to_set()));
                lemma_fresh(a, slots, Set::empty(), a.to_set());
                lemma_fresh(b, groups, Set::empty(), b.to_set());
            },
        }
    }
}

proof fn lemma_sound_profiles(
    contributions: TextMap<ContributionId, ContributionDefinition>,
    all: Seq<ProfileDefinition>,
    n: int,
)
    ensures
        profiles::profiles_fault(contributions, all, n) is None <==> forall|i: int|
            0 <= i < n ==> sound_profile(contributions, #[trigger] all[i]),
    decreases n,
{
    if n > 0 {
        lemma_sound_profiles(contributions, all, n - 1);
        let p = all[n - 1];
        let m = p.elements@.len() as int;
        lemma_profile_fields(contributions, p.id, p.elements@, m);
        assert(fresh(profile_slots(p.elements@, m), Set::empty()) <==> profile_slots(
            p.elements@,
            m,
        ).no_duplicates());
        assert(fresh(profile_groups(p.elements@, m), Set::empty()) <==> profile_groups(
            p.elements@,
            m,
        ).no_duplicates());
    }
}

/// A catalog of profiles is accepted exactly where its contributions and its profiles are
/// sound: registered items only, no proxies in contributions, weights for all flexible
/// spaces, known contributions in all slots and none with a space inside a group, names of
/// their own for slots and groups, and no groups that are nested too deeply.
pub proof fn catalogs_are_accepted_where_sound(catalog: ProfileCatalog, registry: Registry)
    ensures
        profiles::catalog_fault(catalog, registry) is None <==> {
            &&& forall|i: int|
                0 <= i < catalog.contribution_map().values().len() ==> sound_contribution(
                    registry.item_map(),
                    #[trigger] catalog.contribution_map().values()[i],
                )
            &&& forall|i: int|
                0 <= i < catalog.profile_map().values().len() ==> sound_profile(
                    catalog.contribution_map(),
                    #[trigger] catalog.profile_map().values()[i],
                )
        },
{
    let contributions = catalog.contribution_map();
    let all = catalog.profile_map().values();
    lemma_sound_contributions(
        registry.item_map(),
        contributions.values(),
        contributions.values().len() as int,
    );
    lemma_sound_profiles(contributions, all, all.len() as int);
}

} // verus!
