//! Where the files of a selection come from, and what they are called: laws over the whole way from
//! a selected path down to a file.
use crate::files;
use crate::order;
use crate::paths;
use crate::rpc;
use crate::selection;
use crate::selection::EntryKind;
use crate::text;
use crate::walk;
use vstd::prelude::*;
use vstd::utf8::*;

verus! {

/// The path that is reached from a root by going down from name to name.
pub open spec fn below(root: Seq<u8>, names: Seq<Seq<u8>>) -> Seq<u8>
    decreases names.len(),
{
    if names.len() == 0 {
        root
    } else {
        let above = below(root, names.drop_last());
        if above.len() == 0 || above.last() == 47 {
            above + names.last()
        } else {
            above + seq![47u8] + names.last()
        }
    }
}

/// The safe name of what is found at a path.
pub open spec fn safe_at(tree: walk::FileTree, path: Seq<u8>) -> Seq<char> {
    (tree.inspect)(path)->Ok_0.safe_name
}

/// The safe names of a root and of everything on the way down from it, one after the other.
pub open spec fn safe_names(
    tree: walk::FileTree,
    root: Seq<u8>,
    names: Seq<Seq<u8>>,
) -> Seq<Seq<char>> {
    Seq::new(names.len() + 1, |i: int| safe_at(tree, below(root, names.take(i))))
}

/// Texts with a slash between each two of them.
pub open spec fn slashed(pieces: Seq<Seq<char>>) -> Seq<char>
    decreases pieces.len(),
{
    if pieces.len() == 0 {
        Seq::empty()
    } else if pieces.len() == 1 {
        pieces[0]
    } else {
        slashed(pieces.drop_last()) + seq!['/'] + pieces.last()
    }
}

/// True if each name stands in the list of the directory above it.
pub open spec fn is_listed(tree: walk::FileTree, root: Seq<u8>, names: Seq<Seq<u8>>) -> bool {
    forall|i: int|
        0 <= i < names.len() ==> {
            let directory = below(root, #[trigger] names.take(i));
            &&& (tree.inspect)(directory) is Ok
            &&& (tree.inspect)(directory)->Ok_0.kind == EntryKind::Directory
            &&& (tree.list)(directory) is Ok
            &&& (tree.list)(directory)->Ok_0.0.contains(names[i])
        }
}

/// True if a regular file is found by going down from a root.
pub open spec fn is_file_below(tree: walk::FileTree, root: Seq<u8>, names: Seq<Seq<u8>>) -> bool {
    &&& is_listed(tree, root, names)
    &&& (tree.inspect)(below(root, names)) is Ok
    &&& (tree.inspect)(below(root, names))->Ok_0.kind == EntryKind::File
}

/// Names of directory entries hold no separator.
pub open spec fn has_plain_names(tree: walk::FileTree) -> bool {
    forall|path: Seq<u8>, i: int|
        #![trigger (tree.list)(path)->Ok_0.0[i]]
        (tree.list)(path) is Ok && 0 <= i < (tree.list)(path)->Ok_0.0.len()
            ==> !(tree.list)(path)->Ok_0.0[i].contains(47u8)
}

/// True of the item that stands for the file that is found by going down from a root.
pub open spec fn is_item_below(
    tree: walk::FileTree,
    item: files::ItemView,
    root: Seq<u8>,
    names: Seq<Seq<u8>>,
) -> bool {
    let path = below(root, names);
    let found = (tree.inspect)(path)->Ok_0;
    &&& is_file_below(tree, root, names)
    &&& valid_utf8(path)
    &&& names.len() <= 16
    &&& item.source_path == Some(decode_utf8(path))
    &&& item.source == (files::SourceView::Path {
        path: decode_utf8(path),
        device: found.device,
        inode: found.inode,
        size: found.len,
    })
    &&& item.file.file_name == slashed(safe_names(tree, root, names))
    &&& item.file.size == found.len
    &&& item.file.metadata == found.metadata
    &&& item.file.preview is None
    &&& item.file.sha256 is None
    &&& item.file.id == (tree.id)(path)
    &&& item.file.file_type == selection::mime_text(decode_utf8(path))
}

/// True of a place that is reached from a root.
spec fn is_place_below(
    tree: walk::FileTree,
    place: selection::PlaceView,
    root: Seq<u8>,
    names: Seq<Seq<u8>>,
) -> bool {
    &&& place.path == below(root, names)
    &&& place.depth == names.len()
    &&& place.above == (if names.len() == 0 {
        None
    } else {
        Some(slashed(safe_names(tree, root, names.drop_last())))
    })
    &&& is_listed(tree, root, names)
}

spec fn is_listing_below(
    tree: walk::FileTree,
    listing: selection::ListingView,
    root: Seq<u8>,
    names: Seq<Seq<u8>>,
) -> bool {
    &&& listing.path == below(root, names)
    &&& listing.depth == names.len()
    &&& listing.relative == slashed(safe_names(tree, root, names))
    &&& is_listed(tree, root, names)
    &&& (tree.inspect)(listing.path) is Ok
    &&& (tree.inspect)(listing.path)->Ok_0.kind == EntryKind::Directory
}

spec fn place_is_traced(
    tree: walk::FileTree,
    roots: Seq<Seq<char>>,
    place: selection::PlaceView,
) -> bool {
    exists|r: int, names: Seq<Seq<u8>>|
        0 <= r < roots.len() && #[trigger] is_place_below(
            tree,
            place,
            encode_utf8(roots[r]),
            names,
        )
}

spec fn listing_is_traced(
    tree: walk::FileTree,
    roots: Seq<Seq<char>>,
    listing: selection::ListingView,
) -> bool {
    exists|r: int, names: Seq<Seq<u8>>|
        0 <= r < roots.len() && #[trigger] is_listing_below(
            tree,
            listing,
            encode_utf8(roots[r]),
            names,
        )
}

/// True of an item that stands for a file below one of the roots.
pub open spec fn item_is_traced(
    tree: walk::FileTree,
    roots: Seq<Seq<char>>,
    item: files::ItemView,
) -> bool {
    exists|r: int, names: Seq<Seq<u8>>|
        0 <= r < roots.len() && #[trigger] is_item_below(
            tree,
            item,
            encode_utf8(roots[r]),
            names,
        )
}

spec fn is_traced(
    tree: walk::FileTree,
    roots: Seq<Seq<char>>,
    s: selection::SelectionView,
) -> bool {
    &&& forall|i: int| 0 <= i < s.stack.len() ==> place_is_traced(tree, roots, #[trigger] s.stack[i])
    &&& s.listing is Some ==> listing_is_traced(tree, roots, s.listing->0)
    &&& forall|i: int| 0 <= i < s.items.len() ==> item_is_traced(tree, roots, #[trigger] s.items[i])
}

/// One name more on the way adds one piece more.
proof fn lemma_name_grows(tree: walk::FileTree, root: Seq<u8>, names: Seq<Seq<u8>>)
    ensures
        names.len() == 0 ==> slashed(safe_names(tree, root, names)) == safe_at(tree, root),
        names.len() > 0 ==> slashed(safe_names(tree, root, names)) == slashed(
            safe_names(tree, root, names.drop_last()),
        ) + seq!['/'] + safe_at(tree, below(root, names)),
{
    let pieces = safe_names(tree, root, names);
    assert(names.take(names.len() as int) =~= names);
    if names.len() == 0 {
        assert(pieces[0] == safe_at(tree, root));
    } else {
        let fewer = safe_names(tree, root, names.drop_last());
        assert forall|i: int| 0 <= i < fewer.len() implies pieces.drop_last()[i] == fewer[i] by {
            assert(names.drop_last().take(i) =~= names.take(i));
        }
        assert(pieces.drop_last() =~= fewer);
        assert(pieces.last() == safe_at(tree, below(root, names)));
    }
}

proof fn lemma_child_is_below(
    tree: walk::FileTree,
    listing: selection::ListingView,
    root: Seq<u8>,
    names: Seq<Seq<u8>>,
    name: Seq<u8>,
)
    requires
        is_listing_below(tree, listing, root, names),
        has_plain_names(tree),
        (tree.list)(listing.path) is Ok,
        (tree.list)(listing.path)->Ok_0.0.contains(name),
    ensures
        is_place_below(tree, selection::entry_place(listing, name), root, names.push(name)),
{
    let longer = names.push(name);
    assert(longer.drop_last() =~= names);
    assert(longer.last() == name);
    let listed = (tree.list)(listing.path)->Ok_0.0;
    let i = choose|i: int| 0 <= i < listed.len() && listed[i] == name;
    assert(!(tree.list)(listing.path)->Ok_0.0[i].contains(47u8));
    assert(!paths::is_absolute(name)) by {
        if paths::is_absolute(name) {
            assert(name[0] == 47u8);
        }
    }
    assert(listing.path + seq![47u8] =~= listing.path.push(47u8));
    assert(selection::entry_place(listing, name).path == below(root, longer));
    assert forall|j: int| 0 <= j < longer.len() implies {
        let directory = below(root, #[trigger] longer.take(j));
        &&& (tree.inspect)(directory) is Ok
        &&& (tree.inspect)(directory)->Ok_0.kind == EntryKind::Directory
        &&& (tree.list)(directory) is Ok
        &&& (tree.list)(directory)->Ok_0.0.contains(longer[j])
    } by {
        if j < names.len() {
            assert(longer.take(j) =~= names.take(j));
        } else {
            assert(longer.take(j) =~= names);
        }
    }
}

proof fn lemma_inspected_is_traced(
    tree: walk::FileTree,
    roots: Seq<Seq<char>>,
    s: selection::SelectionView,
    found: selection::FoundView,
    id: Seq<char>,
)
    requires
        selection::is_sound(s),
        is_traced(tree, roots, s),
        has_plain_names(tree),
        s.listing is None,
        s.stack.len() > 0,
        (tree.inspect)(s.stack.last().path) == Ok::<_, Seq<char>>(found),
        id == (tree.id)(s.stack.last().path),
    ensures
        match selection::advanced(s, selection::EventView::Inspected { found }, id) {
            Ok(next) => is_traced(tree, roots, next),
            Err(_) => true,
        },
{
    let place = s.stack.last();
    assert(place == s.stack[s.stack.len() - 1]);
    assert(place_is_traced(tree, roots, place));
    let (r, names) = choose|r: int, names: Seq<Seq<u8>>|
        0 <= r < roots.len() && #[trigger] is_place_below(
            tree,
            place,
            encode_utf8(roots[r]),
            names,
        );
    let root = encode_utf8(roots[r]);
    lemma_name_grows(tree, root, names);
    reveal_strlit("/");
    assert("/"@ =~= seq!['/']);
    assert(names.take(names.len() as int) =~= names);
    match selection::advanced(s, selection::EventView::Inspected { found }, id) {
        Ok(next) => {
            assert forall|i: int| 0 <= i < next.stack.len() implies place_is_traced(
                tree,
                roots,
                #[trigger] next.stack[i],
            ) by {
                assert(next.stack[i] == s.stack[i]);
            }
            if found.kind == EntryKind::Directory {
                assert(is_listing_below(tree, next.listing->0, root, names));
            } else {
                let item = next.items.last();
                assert(is_item_below(tree, item, root, names));
                assert forall|i: int| 0 <= i < next.items.len() implies item_is_traced(
                    tree,
                    roots,
                    #[trigger] next.items[i],
                ) by {
                    if i < s.items.len() {
                        assert(next.items[i] == s.items[i]);
                    }
                }
            }
        },
        Err(_) => {},
    }
}

proof fn lemma_listed_is_traced(
    tree: walk::FileTree,
    roots: Seq<Seq<char>>,
    s: selection::SelectionView,
    event: selection::EventView,
    id: Seq<char>,
)
    requires
        is_traced(tree, roots, s),
        has_plain_names(tree),
        s.listing is Some,
        walk::is_answer(tree, s, event),
    ensures
        match selection::advanced(s, event, id) {
            Ok(next) => is_traced(tree, roots, next),
            Err(_) => true,
        },
{
    let listing = s.listing->0;
    let (r, names) = choose|r: int, names: Seq<Seq<u8>>|
        0 <= r < roots.len() && #[trigger] is_listing_below(
            tree,
            listing,
            encode_utf8(roots[r]),
            names,
        );
    let root = encode_utf8(roots[r]);
    match selection::advanced(s, event, id) {
        Ok(next) => {
            let listed = event->names;
            let sorted = order::stable_sort(listed);
            let places = selection::entry_places(listing, listed);
            order::lemma_stable_sort(listed);
            assert forall|i: int| 0 <= i < next.stack.len() implies place_is_traced(
                tree,
                roots,
                #[trigger] next.stack[i],
            ) by {
                if i < s.stack.len() {
                    assert(next.stack[i] == s.stack[i]);
                } else {
                    let k = places.len() - 1 - (i - s.stack.len());
                    assert(next.stack[i] == places[k]);
                    assert(sorted.contains(sorted[k]));
                    order::lemma_sort_members(listed, sorted[k]);
                    let j = choose|j: int| 0 <= j < listed.len() && listed[j] == sorted[k];
                    assert((tree.list)(listing.path)->Ok_0.0[j] == sorted[k]);
                    lemma_child_is_below(tree, listing, root, names, sorted[k]);
                    assert(is_place_below(tree, places[k], root, names.push(sorted[k])));
                }
            }
        },
        Err(_) => {},
    }
}

/// The states of a selection from its beginning on, answered by a file system at every step.
pub open spec fn is_run(
    tree: walk::FileTree,
    roots: Seq<Seq<char>>,
    states: Seq<selection::SelectionView>,
) -> bool {
    &&& states.len() > 0
    &&& selection::begun(roots) == Ok::<_, rpc::ApiErrorView>(states[0])
    &&& forall|i: int|
        0 <= i < states.len() - 1 ==> walk::is_step(tree, #[trigger] states[i], states[i + 1])
}

proof fn lemma_run_is_traced(
    tree: walk::FileTree,
    roots: Seq<Seq<char>>,
    states: Seq<selection::SelectionView>,
    n: int,
)
    requires
        has_plain_names(tree),
        is_run(tree, roots, states),
        0 <= n < states.len(),
    ensures
        selection::is_sound(states[n]),
        is_traced(tree, roots, states[n]),
    decreases n,
{
    if n == 0 {
        selection::lemma_begin_keeps_limits(roots);
        let s = states[0];
        let none = Seq::<Seq<u8>>::empty();
        assert forall|i: int| 0 <= i < s.stack.len() implies place_is_traced(
            tree,
            roots,
            #[trigger] s.stack[i],
        ) by {
            let r = roots.len() - 1 - i;
            assert(is_place_below(tree, s.stack[i], encode_utf8(roots[r]), none));
        }
    } else {
        lemma_run_is_traced(tree, roots, states, n - 1);
        let before = states[n - 1];
        assert(walk::is_step(tree, states[n - 1], states[n - 1 + 1]));
        let id = (tree.id)(before.stack.last().path);
        let event = choose|event: selection::EventView|
            walk::is_answer(tree, before, event) && #[trigger] selection::advanced(
                before,
                event,
                id,
            ) == Ok::<selection::SelectionView, rpc::ApiErrorView>(states[n]);
        assert(selection::answers(before, event));
        selection::lemma_advance_keeps_limits(before, event, id);
        if before.listing is None {
            lemma_inspected_is_traced(tree, roots, before, event->found, id);
        } else {
            lemma_listed_is_traced(tree, roots, before, event, id);
        }
    }
}

/// Whatever a selection has collected is a regular file that is found by going down from one of the
/// selected paths, directory by directory. It is called by the safe names of the selected path and
/// of everything between it and the file, none left out, with a slash between each two; its size
/// and its source are those of the file that was found there.
pub proof fn lemma_files_are_named_by_their_way(
    tree: walk::FileTree,
    roots: Seq<Seq<char>>,
    states: Seq<selection::SelectionView>,
    n: int,
    i: int,
)
    requires
        has_plain_names(tree),
        is_run(tree, roots, states),
        0 <= n < states.len(),
        0 <= i < states[n].items.len(),
    ensures
        exists|r: int, names: Seq<Seq<u8>>|
            0 <= r < roots.len() && #[trigger] is_item_below(
                tree,
                states[n].items[i],
                encode_utf8(roots[r]),
                names,
            ),
{
    lemma_run_is_traced(tree, roots, states, n);
    assert(item_is_traced(tree, roots, states[n].items[i]));
}

/// How often a character stands in a text.
pub open spec fn occurrences(text: Seq<char>, c: char) -> nat
    decreases text.len(),
{
    if text.len() == 0 {
        0
    } else {
        occurrences(text.drop_last(), c) + (if text.last() == c {
            1nat
        } else {
            0nat
        })
    }
}

proof fn lemma_occurrences_concat(left: Seq<char>, right: Seq<char>, c: char)
    ensures
        occurrences(left + right, c) == occurrences(left, c) + occurrences(right, c),
    decreases right.len(),
{
    if right.len() == 0 {
        assert(left + right =~= left);
    } else {
        assert((left + right).drop_last() =~= left + right.drop_last());
        lemma_occurrences_concat(left, right.drop_last(), c);
    }
}

proof fn lemma_no_occurrence(text: Seq<char>, c: char)
    requires
        !text.contains(c),
    ensures
        occurrences(text, c) == 0,
    decreases text.len(),
{
    if text.len() > 0 {
        assert forall|i: int| 0 <= i < text.drop_last().len() implies text.drop_last()[i] != c by {
            assert(text[i] != c);
        }
        lemma_no_occurrence(text.drop_last(), c);
    }
}

proof fn lemma_slashes(pieces: Seq<Seq<char>>)
    requires
        pieces.len() > 0,
        forall|i: int| 0 <= i < pieces.len() ==> !(#[trigger] pieces[i]).contains('/'),
    ensures
        occurrences(slashed(pieces), '/') == pieces.len() - 1,
    decreases pieces.len(),
{
    lemma_no_occurrence(pieces.last(), '/');
    if pieces.len() > 1 {
        let front = pieces.drop_last();
        assert forall|i: int| 0 <= i < front.len() implies !(#[trigger] front[i]).contains(
            '/',
        ) by {
            assert(front[i] == pieces[i]);
        }
        lemma_slashes(front);
        lemma_occurrences_concat(slashed(front), seq!['/'], '/');
        lemma_occurrences_concat(slashed(front) + seq!['/'], pieces.last(), '/');
        assert(seq!['/'].drop_last() =~= Seq::<char>::empty());
        assert(occurrences(seq!['/'].drop_last(), '/') == 0);
        assert(occurrences(seq!['/'], '/') == 1);
    }
}

/// Where safe names hold no slash, the name of a collected file holds as many slashes as there are
/// steps down from the selected path to the file.
pub proof fn lemma_a_slash_for_each_level(
    tree: walk::FileTree,
    item: files::ItemView,
    root: Seq<u8>,
    names: Seq<Seq<u8>>,
)
    requires
        is_item_below(tree, item, root, names),
        forall|path: Seq<u8>| !(#[trigger] safe_at(tree, path)).contains('/'),
    ensures
        occurrences(item.file.file_name, '/') == names.len(),
{
    let pieces = safe_names(tree, root, names);
    assert forall|i: int| 0 <= i < pieces.len() implies !(#[trigger] pieces[i]).contains('/') by {
        assert(pieces[i] == safe_at(tree, below(root, names.take(i))));
    }
    lemma_slashes(pieces);
}

/// True if a file on the way down from a root has been collected, or will be come to.
#[verifier::opaque]
spec fn is_covered(s: selection::SelectionView, root: Seq<u8>, names: Seq<Seq<u8>>) -> bool {
    ||| exists|i: int|
        0 <= i < s.items.len() && (#[trigger] s.items[i]).source_path == Some(
            decode_utf8(below(root, names)),
        )
    ||| exists|i: int, k: int|
        0 <= i < s.stack.len() && 0 <= k <= names.len() && (#[trigger] s.stack[i]).path == below(
            root,
            #[trigger] names.take(k),
        )
    ||| s.listing is Some && exists|k: int|
        0 <= k < names.len() && s.listing->0.path == below(root, #[trigger] names.take(k))
}

proof fn lemma_step_covers(
    tree: walk::FileTree,
    s: selection::SelectionView,
    event: selection::EventView,
    id: Seq<char>,
    next: selection::SelectionView,
    root: Seq<u8>,
    names: Seq<Seq<u8>>,
)
    requires
        has_plain_names(tree),
        walk::is_answer(tree, s, event),
        selection::is_sound(s),
        selection::advanced(s, event, id) == Ok::<_, rpc::ApiErrorView>(next),
        is_file_below(tree, root, names),
        is_covered(s, root, names),
    ensures
        is_covered(next, root, names),
{
    reveal(is_covered);
    assert(names.take(names.len() as int) =~= names);
    if exists|i: int|
        0 <= i < s.items.len() && (#[trigger] s.items[i]).source_path == Some(
            decode_utf8(below(root, names)),
        ) {
        let i = choose|i: int|
            0 <= i < s.items.len() && (#[trigger] s.items[i]).source_path == Some(
                decode_utf8(below(root, names)),
            );
        assert(next.items[i] == s.items[i]);
    } else if exists|i: int, k: int|
        0 <= i < s.stack.len() && 0 <= k <= names.len() && (#[trigger] s.stack[i]).path == below(
            root,
            #[trigger] names.take(k),
        ) {
        let (i, k) = choose|i: int, k: int|
            0 <= i < s.stack.len() && 0 <= k <= names.len() && (#[trigger] s.stack[i]).path
                == below(root, #[trigger] names.take(k));
        if s.listing is Some || i < s.stack.len() - 1 {
            assert(next.stack[i] == s.stack[i]);
        } else if k == names.len() {
            assert(next.items.last() == next.items[s.items.len() as int]);
            assert(next.items[s.items.len() as int].source_path == Some(
                decode_utf8(below(root, names)),
            ));
        } else {
            assert((tree.inspect)(below(root, names.take(k)))->Ok_0.kind == EntryKind::Directory);
            assert(next.listing->0.path == below(root, names.take(k)));
        }
    } else {
        let k = choose|k: int|
            0 <= k < names.len() && s.listing->0.path == below(root, #[trigger] names.take(k));
        let listing = s.listing->0;
        let listed = event->names;
        assert(listed == (tree.list)(listing.path)->Ok_0.0);
        let sorted = order::stable_sort(listed);
        let places = selection::entry_places(listing, listed);
        order::lemma_sort_members(listed, names[k]);
        order::lemma_stable_sort(listed);
        assert(sorted.contains(names[k]));
        let j = choose|j: int| 0 <= j < sorted.len() && sorted[j] == names[k];
        let longer = names.take(k + 1);
        assert(longer.drop_last() =~= names.take(k));
        assert(longer.last() == names[k]);
        let m = choose|m: int| 0 <= m < listed.len() && listed[m] == names[k];
        assert(!(tree.list)(listing.path)->Ok_0.0[m].contains(47u8));
        assert(!paths::is_absolute(names[k])) by {
            if paths::is_absolute(names[k]) {
                assert(names[k][0] == 47u8);
            }
        }
        assert(listing.path + seq![47u8] =~= listing.path.push(47u8));
        assert(places[j].path == below(root, longer));
        let i = s.stack.len() + places.len() - 1 - j;
        assert(next.stack[i] == places[j]);
        assert(next.stack[i].path == below(root, names.take(k + 1)));
    }
}

proof fn lemma_run_covers(
    tree: walk::FileTree,
    roots: Seq<Seq<char>>,
    states: Seq<selection::SelectionView>,
    n: int,
    r: int,
    names: Seq<Seq<u8>>,
)
    requires
        has_plain_names(tree),
        is_run(tree, roots, states),
        0 <= n < states.len(),
        0 <= r < roots.len(),
        is_file_below(tree, encode_utf8(roots[r]), names),
    ensures
        is_covered(states[n], encode_utf8(roots[r]), names),
    decreases n,
{
    let root = encode_utf8(roots[r]);
    if n == 0 {
        reveal(is_covered);
        let i = roots.len() - 1 - r;
        assert(names.take(0) =~= Seq::<Seq<u8>>::empty());
        assert(states[0].stack[i].path == below(root, names.take(0)));
    } else {
        lemma_run_covers(tree, roots, states, n - 1, r, names);
        lemma_run_is_traced(tree, roots, states, n - 1);
        let before = states[n - 1];
        assert(walk::is_step(tree, states[n - 1], states[n - 1 + 1]));
        let id = (tree.id)(before.stack.last().path);
        let event = choose|event: selection::EventView|
            walk::is_answer(tree, before, event) && #[trigger] selection::advanced(
                before,
                event,
                id,
            ) == Ok::<selection::SelectionView, rpc::ApiErrorView>(states[n]);
        lemma_step_covers(tree, before, event, id, states[n], root, names);
    }
}

/// A selection that has come to its end leaves out nothing: every regular file that is found by
/// going down from a selected path has been collected.
pub proof fn lemma_every_file_is_collected(
    tree: walk::FileTree,
    roots: Seq<Seq<char>>,
    states: Seq<selection::SelectionView>,
    r: int,
    names: Seq<Seq<u8>>,
)
    requires
        has_plain_names(tree),
        is_run(tree, roots, states),
        selection::wanted(states.last()) is Finish,
        0 <= r < roots.len(),
        is_file_below(tree, encode_utf8(roots[r]), names),
    ensures
        exists|i: int|
            0 <= i < states.last().items.len() && (#[trigger] states.last().items[i]).source_path
                == Some(decode_utf8(below(encode_utf8(roots[r]), names))),
{
    lemma_run_covers(tree, roots, states, states.len() - 1, r, names);
    reveal(is_covered);
}

/// An inspection takes in what it found or refuses the whole selection. A regular file adds one item
/// and nothing else; a directory adds none, and is gone through next. Links and special files, names
/// and paths that are not valid UTF-8, a file too many and a directory too deep are refused, each
/// for its reason.
pub proof fn lemma_what_an_inspection_comes_to(
    s: selection::SelectionView,
    found: selection::FoundView,
    id: Seq<char>,
)
    requires
        selection::is_sound(s),
        s.listing is None,
        s.stack.len() > 0,
    ensures
        ({
            let step = selection::advanced(s, selection::EventView::Inspected { found }, id);
            let place = s.stack.last();
            let next = step->Ok_0;
            let has_name = place.name is Some && valid_utf8(place.name->0);
            let is_taken = found.kind == EntryKind::File && has_name && s.items.len() < 512
                && valid_utf8(place.path);
            let is_entered = found.kind == EntryKind::Directory && has_name && place.depth < 16;
            let is_next_relative = s.stack.len() > 1 && s.stack[s.stack.len() - 2].above is None
                && !(s.stack[s.stack.len() - 2].path.len() > 0 && s.stack[s.stack.len() - 2].path[0]
                == 47u8);
            &&& step is Ok <==> is_entered || (is_taken && !is_next_relative)
            &&& step is Ok ==> next.visited == s.visited && next.stack == s.stack.drop_last()
            &&& step is Ok && is_taken ==> {
                &&& next.listing is None
                &&& next.items.len() == s.items.len() + 1
                &&& next.items.drop_last() == s.items
                &&& next.items.last().source_path == Some(decode_utf8(place.path))
                &&& next.items.last().file.id == id
                &&& next.items.last().file.size == found.len
            }
            &&& step is Ok && is_entered ==> {
                &&& next.items == s.items
                &&& next.listing is Some
                &&& next.listing->0.path == place.path
                &&& next.listing->0.depth == place.depth
            }
            &&& step is Err ==> step->Err_0.code == (if found.kind == EntryKind::File && has_name
                && s.items.len() >= 512 {
                "selection_too_large"@
            } else if found.kind == EntryKind::Directory && has_name {
                "selection_too_deep"@
            } else {
                "invalid_path"@
            })
        }),
{
    let step = selection::advanced(s, selection::EventView::Inspected { found }, id);
    let rest = s.stack.drop_last();
    if s.stack.len() > 1 {
        assert(rest.last() == s.stack[s.stack.len() - 2]);
    }
    if step is Ok && found.kind == EntryKind::File {
        assert(step->Ok_0.items.drop_last() =~= s.items);
    }
}

/// A list of a directory adds a place for each name, to be looked at in the order of the names and
/// before everything else that waits. Too many entries, or a list that broke off, are refused.
pub proof fn lemma_what_a_list_comes_to(
    s: selection::SelectionView,
    names: Seq<Seq<u8>>,
    failure: Option<Seq<char>>,
    id: Seq<char>,
)
    requires
        selection::is_sound(s),
        s.listing is Some,
    ensures
        ({
            let step = selection::advanced(s, selection::EventView::Listed { names, failure }, id);
            let next = step->Ok_0;
            let n = names.len() as int;
            let is_relative = n == 0 && s.stack.len() > 0 && s.stack.last().above is None && !(
            s.stack.last().path.len() > 0 && s.stack.last().path[0] == 47u8);
            &&& step is Ok <==> failure is None && s.visited + n <= 10_000 && !is_relative
            &&& step is Err ==> step->Err_0.code == (if s.visited + n > 10_000 || (failure is Some
                && s.visited + n == 10_000) {
                "selection_too_large"@
            } else {
                "invalid_path"@
            })
            &&& step is Ok ==> {
                &&& next.items == s.items
                &&& next.listing is None
                &&& next.visited == s.visited + n
                &&& next.stack.len() == s.stack.len() + n
                &&& forall|i: int|
                    0 <= i < s.stack.len() ==> #[trigger] next.stack[i] == s.stack[i]
                &&& forall|i: int|
                    #![trigger next.stack[i]]
                    s.stack.len() <= i < next.stack.len() ==> {
                        &&& next.stack[i].name is Some
                        &&& names.contains(next.stack[i].name->0)
                        &&& next.stack[i].path == paths::joined(
                            s.listing->0.path,
                            next.stack[i].name->0,
                        )
                        &&& next.stack[i].depth == s.listing->0.depth + 1
                        &&& next.stack[i].above == Some(s.listing->0.relative)
                    }
                &&& forall|k: int|
                    #![trigger names[k]]
                    0 <= k < n ==> exists|i: int|
                        s.stack.len() <= i < next.stack.len() && (#[trigger] next.stack[i]).name
                            == Some(names[k])
                &&& forall|i: int, j: int|
                    #![trigger next.stack[i], next.stack[j]]
                    s.stack.len() <= i < j < next.stack.len() ==> !text::bytes_before(
                        next.stack[i].name->0,
                        next.stack[j].name->0,
                    )
            }
        }),
{
    let step = selection::advanced(s, selection::EventView::Listed { names, failure }, id);
    let next = step->Ok_0;
    order::lemma_stable_sort(names);
    let sorted = order::stable_sort(names);
    let listing = s.listing->0;
    let places = selection::entry_places(listing, names);
    let whole = s.stack + places.reverse();
    if names.len() == 0 {
        assert(whole =~= s.stack);
    } else {
        assert(whole.last() == places[0]);
    }
    if step is Ok {
        assert(next.stack == whole);
        assert forall|i: int|
            #![trigger next.stack[i]]
            s.stack.len() <= i < next.stack.len() implies next.stack[i]
            == selection::entry_place(listing, sorted[next.stack.len() - 1 - i]) && names.contains(
            sorted[next.stack.len() - 1 - i],
        ) by {
            let k = next.stack.len() - 1 - i;
            assert(next.stack[i] == places[k]);
            assert(sorted.contains(sorted[k]));
            order::lemma_sort_members(names, sorted[k]);
        }
        assert forall|k: int| #![trigger names[k]] 0 <= k < names.len() implies exists|i: int|
            s.stack.len() <= i < next.stack.len() && (#[trigger] next.stack[i]).name == Some(
                names[k],
            ) by {
            assert(names.contains(names[k]));
            order::lemma_sort_members(names, names[k]);
            let m = choose|m: int| 0 <= m < sorted.len() && sorted[m] == names[k];
            let i = next.stack.len() - 1 - m;
            assert(next.stack[i] == places[m]);
        }
        assert forall|i: int, j: int|
            #![trigger next.stack[i], next.stack[j]]
            s.stack.len() <= i < j < next.stack.len() implies !text::bytes_before(
            next.stack[i].name->0,
            next.stack[j].name->0,
        ) by {
            let a = next.stack.len() - 1 - i;
            let b = next.stack.len() - 1 - j;
            assert(!order::Ranked::precedes(sorted[a], sorted[b]));
        }
    }
}

/// What a selection asks for is the list of the directory that it has entered, with room for one
/// entry more than may follow, and else the place that is next.
pub proof fn lemma_what_a_selection_asks_for(s: selection::SelectionView)
    requires
        selection::is_sound(s),
    ensures
        ({
            let action = selection::wanted(s);
            &&& s.listing is Some ==> action is List && action->List_path == s.listing->0.path
                && action->limit + s.visited == 10_001
            &&& s.listing is None && s.stack.len() > 0 ==> {
                let name = s.stack.last().name;
                &&& action is Inspect
                &&& action->Inspect_path == s.stack.last().path
                &&& action->name is Some <==> name is Some && valid_utf8(name->0)
                &&& action->name is Some ==> action->name->0 == decode_utf8(name->0)
            }
            &&& action is Finish <==> s.listing is None && s.stack.len() == 0
        }),
{
}

/// A selection begins with one to 256 paths, and looks at them in their order; the first of them, as
/// every one that is selected, must be absolute.
pub proof fn lemma_how_a_selection_begins(roots: Seq<Seq<char>>)
    ensures
        ({
            let begun = selection::begun(roots);
            let s = begun->Ok_0;
            let first = encode_utf8(roots[0]);
            &&& begun is Ok <==> 1 <= roots.len() <= 256 && first.len() > 0 && first[0] == 47u8
            &&& begun is Err ==> begun->Err_0.code == (if roots.len() > 256 {
                "selection_too_large"@
            } else {
                "invalid_path"@
            })
            &&& begun is Ok ==> {
                &&& s.items.len() == 0
                &&& s.visited == 0
                &&& s.listing is None
                &&& s.stack.len() == roots.len()
                &&& forall|i: int|
                    #![trigger roots[i]]
                    0 <= i < roots.len() ==> {
                        let place = s.stack[roots.len() - 1 - i];
                        &&& place.path == encode_utf8(roots[i])
                        &&& place.above is None
                        &&& place.depth == 0
                        &&& place.name == paths::file_name_of(encode_utf8(roots[i]))
                    }
            }
        }),
{
}

/// What a selection comes to in the end is what it has collected, all of it and as it was collected,
/// unless that is nothing.
pub proof fn lemma_what_was_collected_is_selected(s: selection::SelectionView)
    ensures
        selection::selected(s) is Ok <==> s.items.len() > 0,
        selection::selected(s) is Ok ==> selection::selected(s)->Ok_0 == s.items,
        selection::selected(s) is Err ==> selection::selected(s)->Err_0.code
            == "empty_selection"@,
{
}

/// What is refused is named: every complaint about a path ends with that path, and every failure to
/// look at one gives the path and the reason.
pub proof fn lemma_complaints_name_the_path(
    s: selection::SelectionView,
    event: selection::EventView,
    id: Seq<char>,
)
    requires
        selection::is_sound(s),
        selection::answers(s, event),
    ensures
        ({
            let step = selection::advanced(s, event, id);
            let error = step->Err_0;
            let place = s.stack.last();
            let path = text::shown_text(place.path);
            let has_name = place.name is Some && valid_utf8(place.name->0);
            &&& event is InspectFailed ==> {
                &&& step is Err
                &&& error.code == "invalid_path"@
                &&& error.message == "Could not inspect "@ + path + ": "@
                    + event->InspectFailed_reason
            }
            &&& event is ListFailed ==> {
                &&& step is Err
                &&& error.code == "invalid_path"@
                &&& error.message == "Could not inspect "@ + text::shown_text(s.listing->0.path)
                    + ": "@ + event->ListFailed_reason
            }
            &&& event is Inspected && event->found.kind == EntryKind::Link ==> step is Err
                && error.message == "Symbolic links are not accepted: "@ + path
            &&& event is Inspected && event->found.kind == EntryKind::Other && place.above is None
                ==> step is Err && error.message == "Path is not a regular file or directory: "@
                + path
            &&& event is Inspected && event->found.kind == EntryKind::Other && place.above is Some
                && has_name ==> step is Err && error.message == "Special files are not accepted: "@
                + path
            &&& event is Inspected && (event->found.kind == EntryKind::File || event->found.kind
                == EntryKind::Directory) && !has_name ==> step is Err && error.message
                == "Invalid path: "@ + path
        }),
{
}

} // verus!
