//! Saving what was on the clipboard.

use vstd::prelude::*;

verus! {

/// A flavor of an item on the clipboard, as it was read.
#[derive(Debug, Clone, Copy, PartialEq, Eq, Structural)]
pub enum Flavor {
    /// It has no name.
    Nameless,
    /// Its data could not be read.
    Unreadable,
    /// Its data was read and is held at this place.
    Read(usize),
}

/// The places of the flavors that were read, in order.
pub open spec fn read_places(flavors: Seq<Flavor>) -> Seq<usize>
    decreases flavors.len(),
{
    if flavors.len() == 0 {
        seq![]
    } else {
        match flavors.last() {
            Flavor::Read(place) => read_places(flavors.drop_last()).push(place),
            _ => read_places(flavors.drop_last()),
        }
    }
}

/// How many flavors could not be read.
pub open spec fn lost_flavors(flavors: Seq<Flavor>) -> nat
    decreases flavors.len(),
{
    if flavors.len() == 0 {
        0
    } else {
        lost_flavors(flavors.drop_last()) + if flavors.last() == Flavor::Unreadable {
            1nat
        } else {
            0nat
        }
    }
}

/// An item of the clipboard: its flavors, or nothing where they could not be listed.
pub open spec fn item_view(item: Option<Vec<Flavor>>) -> Option<Seq<Flavor>> {
    match item {
        Some(flavors) => Some(flavors@),
        None => None,
    }
}

/// The items of the clipboard.
pub open spec fn item_views(items: Seq<Option<Vec<Flavor>>>) -> Seq<Option<Seq<Flavor>>> {
    items.map_values(|item: Option<Vec<Flavor>>| item_view(item))
}

/// What is put back: the flavors of each item that were read, items without any left out.
pub open spec fn saved_items(items: Seq<Option<Seq<Flavor>>>) -> Seq<Seq<usize>>
    decreases items.len(),
{
    if items.len() == 0 {
        seq![]
    } else {
        let front = saved_items(items.drop_last());
        match items.last() {
            Some(flavors) => if read_places(flavors).len() > 0 {
                front.push(read_places(flavors))
            } else {
                front
            },
            None => front,
        }
    }
}

/// How much is lost: an item that could not be listed counts as one flavor.
pub open spec fn lost(items: Seq<Option<Seq<Flavor>>>) -> nat
    decreases items.len(),
{
    if items.len() == 0 {
        0
    } else {
        lost(items.drop_last()) + match items.last() {
            Some(flavors) => lost_flavors(flavors),
            None => 1,
        }
    }
}

/// What is put back on the clipboard.
#[derive(Debug)]
pub struct SavedClipboard {
    /// For each item, the places of its flavors.
    pub items: Vec<Vec<usize>>,
    /// How many flavors could not be read and will not survive; none where
    /// they are too many to count.
    pub unreadable: Option<usize>,
}

/// What is put back of the items that were read, and what is lost.
pub fn save_items(items: &[Option<Vec<Flavor>>]) -> (saved: SavedClipboard)
    ensures
        saved.items@.map_values(|places: Vec<usize>| places@) == saved_items(item_views(items@)),
        match saved.unreadable {
            Some(n) => n == lost(item_views(items@)),
            None => lost(item_views(items@)) > usize::MAX,
        },
{
    let ghost all = item_views(items@);
    let ghost view = |places: Vec<usize>| places@;
    let mut kept: Vec<Vec<usize>> = Vec::new();
    let mut gone: Option<usize> = Some(0);
    proof {
        assert(kept@.map_values(view) == saved_items(all.take(0)));
    }
    for i in 0..items.len()
        invariant
            all == item_views(items@),
            view == (|places: Vec<usize>| places@),
            kept@.map_values(view) == saved_items(all.take(i as int)),
            match gone {
                Some(n) => n == lost(all.take(i as int)),
                None => lost(all.take(i as int)) > usize::MAX,
            },
    {
        proof {
            assert(all.take(i + 1).drop_last() == all.take(i as int));
            assert(all.take(i + 1).last() == item_view(items@[i as int]));
        }
        let mut here: usize = 1;
        if let Some(flavors) = &items[i] {
            let mut places: Vec<usize> = Vec::new();
            here = 0;
            proof {
                assert(flavors@.take(0) == Seq::<Flavor>::empty());
            }
            for j in 0..flavors.len()
                invariant
                    places@ == read_places(flavors@.take(j as int)),
                    here == lost_flavors(flavors@.take(j as int)),
                    here <= j,
            {
                proof {
                    assert(flavors@.take(j + 1).drop_last() == flavors@.take(j as int));
                }
                match flavors[j] {
                    Flavor::Read(place) => places.push(place),
                    Flavor::Unreadable => {
                        here = here + 1;
                    },
                    Flavor::Nameless => {},
                }
            }
            proof {
                assert(flavors@.take(flavors@.len() as int) == flavors@);
            }
            if places.len() > 0 {
                let ghost before = kept@.map_values(view);
                let ghost added = places@;
                kept.push(places);
                proof {
                    assert(kept@.map_values(view) == before.push(added));
                }
            }
        }
        gone = match gone {
            Some(n) => n.checked_add(here),
            None => None,
        };
    }
    proof {
        assert(all.take(items@.len() as int) == all);
    }
    SavedClipboard { items: kept, unreadable: gone }
}

/// Nothing is lost exactly where every item was listed and every named flavor read.
pub proof fn law_loss_is_counted(items: Seq<Option<Seq<Flavor>>>)
    ensures
        lost(items) == 0 <==> forall|i: int|
            0 <= i < items.len() ==> (#[trigger] items[i] matches Some(flavors) && !flavors.contains(
                Flavor::Unreadable,
            )),
    decreases items.len(),
{
    if items.len() > 0 {
        let front = items.drop_last();
        law_loss_is_counted(front);
        assert forall|i: int| 0 <= i < front.len() implies front[i] == items[i] by {}
        if let Some(flavors) = items.last() {
            lemma_lost_flavors(flavors);
        }
        if lost(items) == 0 {
            assert forall|i: int| 0 <= i < items.len() implies (
            #[trigger] items[i] matches Some(flavors) && !flavors.contains(Flavor::Unreadable)) by {
                if i < front.len() {
                    assert(front[i] == items[i]);
                } else {
                    assert(items[i] == items.last());
                }
            }
        }
        if forall|i: int|
            0 <= i < items.len() ==> (#[trigger] items[i] matches Some(flavors) && !flavors.contains(
                Flavor::Unreadable,
            )) {
            assert forall|i: int| 0 <= i < front.len() implies (
            #[trigger] front[i] matches Some(flavors) && !flavors.contains(Flavor::Unreadable)) by {
                assert(items[i] == front[i]);
            }
            assert(items[items.len() - 1] == items.last());
        }
    }
}

/// No flavor is lost exactly where none was unreadable.
proof fn lemma_lost_flavors(flavors: Seq<Flavor>)
    ensures
        lost_flavors(flavors) == 0 <==> !flavors.contains(Flavor::Unreadable),
    decreases flavors.len(),
{
    if flavors.len() > 0 {
        let front = flavors.drop_last();
        lemma_lost_flavors(front);
        assert(flavors[flavors.len() - 1] == flavors.last());
        if flavors.contains(Flavor::Unreadable) {
            let i = choose|i: int| 0 <= i < flavors.len() && flavors[i] == Flavor::Unreadable;
            if i < front.len() {
                assert(front[i] == Flavor::Unreadable);
            }
        }
        if front.contains(Flavor::Unreadable) {
            let i = choose|i: int| 0 <= i < front.len() && front[i] == Flavor::Unreadable;
            assert(flavors[i] == Flavor::Unreadable);
        }
    }
}

/// What was read of an item is put back, each flavor once and in order: a flavor
/// more adds its place, and one that was not read adds nothing.
pub proof fn law_every_flavor_that_was_read_is_put_back(flavors: Seq<Flavor>, place: usize)
    ensures
        read_places(flavors).contains(place) <==> flavors.contains(Flavor::Read(place)),
        read_places(flavors).len() + lost_flavors(flavors) <= flavors.len(),
        !flavors.contains(Flavor::Nameless) ==> read_places(flavors).len() + lost_flavors(flavors)
            == flavors.len(),
        read_places(flavors.push(Flavor::Read(place))) == read_places(flavors).push(place),
        read_places(flavors.push(Flavor::Unreadable)) == read_places(flavors),
        read_places(flavors.push(Flavor::Nameless)) == read_places(flavors),
    decreases flavors.len(),
{
    assert(flavors.push(Flavor::Read(place)).drop_last() =~= flavors);
    assert(flavors.push(Flavor::Unreadable).drop_last() =~= flavors);
    assert(flavors.push(Flavor::Nameless).drop_last() =~= flavors);
    if flavors.len() > 0 {
        let front = flavors.drop_last();
        let all = read_places(flavors);
        let held = read_places(front);
        law_every_flavor_that_was_read_is_put_back(front, place);
        assert(flavors =~= front.push(flavors.last()));
        assert(flavors[flavors.len() - 1] == flavors.last());
        if flavors.contains(Flavor::Read(place)) {
            let i = choose|i: int| 0 <= i < flavors.len() && flavors[i] == Flavor::Read(place);
            if i < front.len() {
                assert(front[i] == Flavor::Read(place));
                let k = choose|k: int| 0 <= k < held.len() && held[k] == place;
                assert(all[k] == place);
            } else {
                assert(all[held.len() as int] == place);
            }
        }
        if all.contains(place) {
            let k = choose|k: int| 0 <= k < all.len() && all[k] == place;
            if k < held.len() {
                assert(held[k] == place);
                let i = choose|i: int| 0 <= i < front.len() && front[i] == Flavor::Read(place);
                assert(flavors[i] == Flavor::Read(place));
            }
        }
        if !flavors.contains(Flavor::Nameless) {
            assert(!front.contains(Flavor::Nameless)) by {
                if front.contains(Flavor::Nameless) {
                    let i = choose|i: int| 0 <= i < front.len() && front[i] == Flavor::Nameless;
                    assert(flavors[i] == Flavor::Nameless);
                }
            }
        }
    }
}

/// Every item of which anything was read is put back with all that was read of
/// it, in order; where something was read of each item, none is left out.
pub proof fn law_every_item_is_put_back(items: Seq<Option<Seq<Flavor>>>, i: int)
    requires
        0 <= i < items.len(),
    ensures
        items[i] matches Some(flavors) ==> (read_places(flavors).len() > 0 ==> saved_items(
            items,
        ).contains(read_places(flavors))),
        (forall|j: int|
            0 <= j < items.len() ==> (#[trigger] items[j] matches Some(flavors) && read_places(
                flavors,
            ).len() > 0)) ==> saved_items(items).len() == items.len() && saved_items(items)[i]
            == read_places(items[i]->0),
    decreases items.len(),
{
    let front = items.drop_last();
    let held = saved_items(front);
    let all = saved_items(items);
    let every = forall|j: int|
        0 <= j < items.len() ==> (#[trigger] items[j] matches Some(flavors) && read_places(
            flavors,
        ).len() > 0);
    assert(items[items.len() - 1] == items.last());
    if front.len() > 0 {
        let at = if i < front.len() {
            i
        } else {
            0
        };
        law_every_item_is_put_back(front, at);
        assert(front[at] == items[at]);
        if every {
            assert forall|j: int| 0 <= j < front.len() implies (
            #[trigger] front[j] matches Some(flavors) && read_places(flavors).len() > 0) by {
                assert(front[j] == items[j]);
            }
        }
    }
    if let Some(flavors) = items[i] {
        if read_places(flavors).len() > 0 {
            if i < front.len() {
                let k = choose|k: int| 0 <= k < held.len() && held[k] == read_places(flavors);
                assert(all[k] == read_places(flavors));
            } else {
                assert(all[held.len() as int] == read_places(flavors));
            }
        }
    }
}

} // verus!
