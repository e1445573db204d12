//! What a selection collects, said in one piece: a walk through directories, depth first and in the
//! order of names.
use crate::files;
use crate::rpc;
use crate::selection;
use vstd::prelude::*;

verus! {

/// A file system as a selection sees it, with the identifier that each file gets.
pub struct FileTree {
    /// What an inspection of a path finds, or the reason why it fails.
    pub inspect: spec_fn(Seq<u8>) -> Result<selection::FoundView, Seq<char>>,
    /// The entries of a directory, and the reason why reading broke off, if it did; or the reason
    /// why the directory cannot be read.
    pub list: spec_fn(Seq<u8>) -> Result<(Seq<Seq<u8>>, Option<Seq<char>>), Seq<char>>,
    /// The identifier of the file at a path.
    pub id: spec_fn(Seq<u8>) -> Seq<char>,
}

/// How many directory entries have been gone through, and the files so far.
pub struct Gathered {
    pub visited: nat,
    pub items: Seq<files::ItemView>,
}

/// What a directory adds: all that its entries add, in the order of their names.
pub open spec fn gather_entries(
    tree: FileTree,
    listing: selection::ListingView,
    so_far: Gathered,
    levels: nat,
) -> Result<Gathered, rpc::ApiErrorView>
    decreases levels, 1nat, 0nat,
{
    if levels == 0 {
        Err(selection::too_deep())
    } else {
        match (tree.list)(listing.path) {
            Err(reason) => Err(selection::path_error_at(listing.path, reason)),
            Ok((names, failure)) => match selection::listed(
                listing,
                so_far.visited,
                names,
                failure,
            ) {
                Err(error) => Err(error),
                Ok((visited, places)) => gather_all(
                    tree,
                    places,
                    Gathered { visited, ..so_far },
                    (levels - 1) as nat,
                ),
            },
        }
    }
}

/// What a place adds: a file itself, a directory all that is in it, down to the given number of
/// levels.
pub open spec fn gather(
    tree: FileTree,
    place: selection::PlaceView,
    so_far: Gathered,
    levels: nat,
) -> Result<Gathered, rpc::ApiErrorView>
    decreases levels, 2nat, 0nat,
{
    if !selection::is_admitted(place) {
        Err(selection::not_absolute(place))
    } else {
        match (tree.inspect)(place.path) {
            Err(reason) => Err(selection::path_error_at(place.path, reason)),
            Ok(found) => match selection::sorted_out(
                place,
                found,
                so_far.items,
                (tree.id)(place.path),
            ) {
                Err(error) => Err(error),
                Ok(selection::Outcome::Items(items)) => Ok(Gathered { items, ..so_far }),
                Ok(selection::Outcome::Enter(relative)) => gather_entries(
                    tree,
                    selection::ListingView { path: place.path, relative, depth: place.depth },
                    so_far,
                    levels,
                ),
            },
        }
    }
}

/// What places add, one after the other.
pub open spec fn gather_all(
    tree: FileTree,
    places: Seq<selection::PlaceView>,
    so_far: Gathered,
    levels: nat,
) -> Result<Gathered, rpc::ApiErrorView>
    decreases levels, 3nat, places.len(),
{
    if places.len() == 0 {
        Ok(so_far)
    } else {
        match gather(tree, places[0], so_far, levels) {
            Err(error) => Err(error),
            Ok(more) => gather_all(tree, places.skip(1), more, levels),
        }
    }
}

/// How many levels of directories a place at a depth may still open.
pub open spec fn levels_at(depth: nat) -> nat {
    if depth <= files::MAX_RECURSION_DEPTH {
        (files::MAX_RECURSION_DEPTH - depth) as nat
    } else {
        0
    }
}

/// What the places that a selection still has to look at add, the last of them first.
pub open spec fn gather_stack(
    tree: FileTree,
    stack: Seq<selection::PlaceView>,
    so_far: Gathered,
) -> Result<Gathered, rpc::ApiErrorView>
    decreases stack.len(),
{
    if stack.len() == 0 {
        Ok(so_far)
    } else {
        match gather(tree, stack.last(), so_far, levels_at(stack.last().depth)) {
            Err(error) => Err(error),
            Ok(more) => gather_stack(tree, stack.drop_last(), more),
        }
    }
}

/// What a selection will have collected in the end.
pub open spec fn outcome(tree: FileTree, s: selection::SelectionView) -> Result<
    Gathered,
    rpc::ApiErrorView,
> {
    let so_far = Gathered { visited: s.visited, items: s.items };
    match s.listing {
        None => gather_stack(tree, s.stack, so_far),
        Some(listing) => match gather_entries(tree, listing, so_far, levels_at(listing.depth)) {
            Err(error) => Err(error),
            Ok(more) => gather_stack(tree, s.stack, more),
        },
    }
}

/// True of the events that a file system answers a selection with. The list of a directory may
/// break off where the selection asks for no more.
pub open spec fn is_answer(
    tree: FileTree,
    s: selection::SelectionView,
    event: selection::EventView,
) -> bool {
    match s.listing {
        None => s.stack.len() > 0 && match (tree.inspect)(s.stack.last().path) {
            Ok(found) => event == (selection::EventView::Inspected { found }),
            Err(reason) => event == (selection::EventView::InspectFailed { reason }),
        },
        Some(listing) => match (tree.list)(listing.path) {
            Ok((names, failure)) => {
                let limit = (selection::MAX_VISITED_ENTRIES - s.visited + 1) as nat;
                ||| event == (selection::EventView::Listed { names, failure })
                ||| names.len() >= limit && event == (selection::EventView::Listed {
                    names: names.take(limit as int),
                    failure: None,
                })
            },
            Err(reason) => event == (selection::EventView::ListFailed { reason }),
        },
    }
}

/// Places that are put on top of a stack are gathered before it.
proof fn lemma_gather_stacked(
    tree: FileTree,
    stack: Seq<selection::PlaceView>,
    places: Seq<selection::PlaceView>,
    so_far: Gathered,
    depth: nat,
)
    requires
        forall|i: int| 0 <= i < places.len() ==> (#[trigger] places[i]).depth == depth,
    ensures
        gather_stack(tree, stack + places.reverse(), so_far) == (match gather_all(
            tree,
            places,
            so_far,
            levels_at(depth),
        ) {
            Err(error) => Err(error),
            Ok(more) => gather_stack(tree, stack, more),
        }),
    decreases places.len(),
{
    let whole = stack + places.reverse();
    if places.len() == 0 {
        assert(whole =~= stack);
    } else {
        assert(whole.last() == places[0]);
        assert(whole.drop_last() =~= stack + places.skip(1).reverse());
        assert forall|i: int| 0 <= i < places.skip(1).len() implies (#[trigger] places.skip(
            1,
        )[i]).depth == depth by {
            assert(places.skip(1)[i] == places[i + 1]);
        }
        match gather(tree, places[0], so_far, levels_at(depth)) {
            Ok(more) => {
                lemma_gather_stacked(tree, stack, places.skip(1), more, depth);
            },
            Err(_) => {},
        }
    }
}

/// A step of a selection changes nothing about what it collects in the end: answered by a file
/// system, it comes to the error that the walk comes to, or goes on towards the files that the walk
/// gathers.
pub proof fn lemma_step_keeps_outcome(
    tree: FileTree,
    s: selection::SelectionView,
    event: selection::EventView,
    id: Seq<char>,
)
    requires
        selection::is_sound(s),
        is_answer(tree, s, event),
        s.listing is None ==> id == (tree.id)(s.stack.last().path),
    ensures
        selection::answers(s, event),
        match selection::advanced(s, event, id) {
            Ok(next) => outcome(tree, next) == outcome(tree, s),
            Err(error) => outcome(tree, s) == Err::<Gathered, _>(error),
        },
{
    let so_far = Gathered { visited: s.visited, items: s.items };
    match s.listing {
        None => {
            let place = s.stack.last();
            assert(place.depth <= files::MAX_RECURSION_DEPTH) by {
                assert(s.stack[s.stack.len() - 1].depth <= files::MAX_RECURSION_DEPTH);
            }
            match (tree.inspect)(place.path) {
                Err(_) => {},
                Ok(found) => match selection::sorted_out(place, found, s.items, id) {
                    Err(_) => {},
                    Ok(selection::Outcome::Items(items)) => {
                        let next = selection::SelectionView {
                            stack: s.stack.drop_last(),
                            items,
                            ..s
                        };
                        lemma_refusal_is_outcome(tree, next);
                    },
                    Ok(selection::Outcome::Enter(_)) => {},
                },
            }
        },
        Some(listing) => match (tree.list)(listing.path) {
            Err(_) => {},
            Ok((names, failure)) => match selection::listed(listing, s.visited, names, failure) {
                Err(_) => {},
                Ok((visited, places)) => {
                    let next = selection::SelectionView {
                        visited,
                        stack: s.stack + places.reverse(),
                        listing: None,
                        ..s
                    };
                    lemma_gather_stacked(
                        tree,
                        s.stack,
                        places,
                        Gathered { visited, ..so_far },
                        listing.depth + 1,
                    );
                    assert(levels_at(listing.depth) - 1 == levels_at(listing.depth + 1));
                    lemma_refusal_is_outcome(tree, next);
                },
            },
        },
    }
}

/// A place that may not be looked at is what the walk fails at.
proof fn lemma_refusal_is_outcome(tree: FileTree, s: selection::SelectionView)
    requires
        s.listing is None,
    ensures
        match selection::admitted(s) {
            Ok(next) => next == s,
            Err(error) => outcome(tree, s) == Err::<Gathered, _>(error),
        },
{
}

/// The places that were selected, in their order.
pub open spec fn root_places(roots: Seq<Seq<char>>) -> Seq<selection::PlaceView> {
    Seq::new(roots.len(), |i: int| selection::root_place(roots[i]))
}

/// A selection that begins will have collected what a walk through its paths gathers.
pub proof fn lemma_begin_is_walk(tree: FileTree, roots: Seq<Seq<char>>)
    requires
        1 <= roots.len() <= selection::MAX_SELECTED_ROOTS,
    ensures
        ({
            let walked = gather_all(
                tree,
                root_places(roots),
                Gathered { visited: 0, items: Seq::empty() },
                files::MAX_RECURSION_DEPTH as nat,
            );
            match selection::begun(roots) {
                Ok(s) => outcome(tree, s) == walked,
                Err(error) => walked == Err::<Gathered, _>(error),
            }
        }),
{
    let places = root_places(roots);
    let empty = Seq::<selection::PlaceView>::empty();
    let so_far = Gathered { visited: 0, items: Seq::empty() };
    lemma_gather_stacked(tree, empty, places, so_far, 0);
    assert(empty + places.reverse() =~= selection::root_stack(roots));
    let s = selection::SelectionView {
        items: Seq::empty(),
        visited: 0,
        stack: selection::root_stack(roots),
        listing: None,
    };
    lemma_refusal_is_outcome(tree, s);
    let walked = gather_all(tree, places, so_far, levels_at(0));
    assert(outcome(tree, s) == walked);
}

/// A selection that asks for nothing more has collected what the walk gathers.
pub proof fn lemma_finish_is_walk(tree: FileTree, s: selection::SelectionView)
    requires
        selection::wanted(s) is Finish,
    ensures
        outcome(tree, s) == Ok::<Gathered, rpc::ApiErrorView>(
            Gathered { visited: s.visited, items: s.items },
        ),
{
}

/// One step of a selection that a file system answers.
pub open spec fn is_step(
    tree: FileTree,
    before: selection::SelectionView,
    after: selection::SelectionView,
) -> bool {
    exists|event: selection::EventView|
        is_answer(tree, before, event) && #[trigger] selection::advanced(
            before,
            event,
            (tree.id)(before.stack.last().path),
        ) == Ok::<selection::SelectionView, rpc::ApiErrorView>(after)
}

/// A selection that ran to its end, answered by a file system at every step, has collected exactly
/// what a walk through its paths gathers.
pub proof fn lemma_selection_is_walk(
    tree: FileTree,
    roots: Seq<Seq<char>>,
    states: Seq<selection::SelectionView>,
)
    requires
        states.len() > 0,
        selection::begun(roots) == Ok::<_, rpc::ApiErrorView>(states[0]),
        forall|i: int|
            0 <= i < states.len() - 1 ==> is_step(tree, #[trigger] states[i], states[i + 1]),
        selection::wanted(states.last()) is Finish,
    ensures
        gather_all(
            tree,
            root_places(roots),
            Gathered { visited: 0, items: Seq::empty() },
            files::MAX_RECURSION_DEPTH as nat,
        ) == Ok::<Gathered, rpc::ApiErrorView>(
            Gathered { visited: states.last().visited, items: states.last().items },
        ),
{
    lemma_begin_is_walk(tree, roots);
    lemma_states_keep_outcome(tree, roots, states, states.len() - 1);
    lemma_finish_is_walk(tree, states.last());
}

proof fn lemma_states_keep_outcome(
    tree: FileTree,
    roots: Seq<Seq<char>>,
    states: Seq<selection::SelectionView>,
    n: int,
)
    requires
        0 <= n < states.len(),
        selection::begun(roots) == Ok::<_, rpc::ApiErrorView>(states[0]),
        forall|i: int|
            0 <= i < states.len() - 1 ==> is_step(tree, #[trigger] states[i], states[i + 1]),
    ensures
        selection::is_sound(states[n]),
        outcome(tree, states[n]) == outcome(tree, states[0]),
    decreases n,
{
    if n == 0 {
        selection::lemma_begin_keeps_limits(roots);
    } else {
        lemma_states_keep_outcome(tree, roots, states, n - 1);
        let before = states[n - 1];
        assert(is_step(tree, states[n - 1], states[n - 1 + 1]));
        let id = (tree.id)(before.stack.last().path);
        let event = choose|event: selection::EventView|
            is_answer(tree, before, event) && #[trigger] selection::advanced(before, event, id)
                == Ok::<selection::SelectionView, rpc::ApiErrorView>(states[n]);
        lemma_step_keeps_outcome(tree, before, event, id);
        selection::lemma_advance_keeps_limits(before, event, id);
    }
}

} // verus!
