//! File system paths as bytes.
use crate::text;
use vstd::prelude::*;

verus! {

/// The byte between the components of a path.
pub const SEPARATOR: u8 = 47;

/// A path that starts at the root.
pub open spec fn is_absolute(path: Seq<u8>) -> bool {
    path.len() > 0 && path[0] == SEPARATOR
}

/// One path behind another. An absolute path stands for itself.
pub open spec fn joined(base: Seq<u8>, tail: Seq<u8>) -> Seq<u8> {
    if is_absolute(tail) {
        tail
    } else if base.len() == 0 || base.last() == SEPARATOR {
        base + tail
    } else {
        base.push(SEPARATOR) + tail
    }
}

pub fn absolute(path: &[u8]) -> (r: bool)
    ensures
        r == is_absolute(path@),
{
    path.len() > 0 && path[0] == SEPARATOR
}

fn append_bytes(bytes: &mut Vec<u8>, tail: &[u8])
    ensures
        final(bytes)@ == old(bytes)@ + tail@,
{
    for i in 0..tail.len()
        invariant
            bytes@ == old(bytes)@ + tail@.take(i as int),
    {
        bytes.push(tail[i]);
        assert(tail@.take(i + 1) =~= tail@.take(i as int).push(tail@[i as int]));
    }
    assert(tail@.take(tail@.len() as int) =~= tail@);
}

/// The bytes of a slice as a list of their own.
pub fn owned(bytes: &[u8]) -> (copy: Vec<u8>)
    ensures
        copy@ == bytes@,
{
    let mut copy: Vec<u8> = Vec::new();
    append_bytes(&mut copy, bytes);
    assert(copy@ =~= bytes@);
    copy
}

pub fn join(base: &[u8], tail: &[u8]) -> (path: Vec<u8>)
    ensures
        path@ == joined(base@, tail@),
{
    let mut path: Vec<u8> = Vec::new();
    if !absolute(tail) {
        append_bytes(&mut path, base);
        assert(path@ =~= base@);
        if base.len() > 0 && base[base.len() - 1] != SEPARATOR {
            path.push(SEPARATOR);
        }
    }
    append_bytes(&mut path, tail);
    assert(path@ =~= joined(base@, tail@));
    path
}

/// True of the byte at which paths are cut into components.
pub open spec fn at_separator() -> spec_fn(u8) -> bool {
    |byte: u8| byte == SEPARATOR
}

/// True of the pieces that name a component: those that are not empty and not `.`.
pub open spec fn is_component(piece: Seq<u8>) -> bool {
    piece.len() > 0 && piece != seq![46u8]
}

/// The components among pieces, in order.
pub open spec fn components_among(pieces: Seq<Seq<u8>>) -> Seq<Seq<u8>>
    decreases pieces.len(),
{
    if pieces.len() == 0 {
        Seq::empty()
    } else if is_component(pieces.last()) {
        components_among(pieces.drop_last()).push(pieces.last())
    } else {
        components_among(pieces.drop_last())
    }
}

/// The components of an absolute path below the root. Repeated separators, a separator at the end
/// and the component `.` do not count.
pub open spec fn components(path: Seq<u8>) -> Seq<Seq<u8>> {
    components_among(text::pieces(path, at_separator()))
}

/// The models of a list of byte strings.
pub open spec fn byte_lists(list: Seq<Vec<u8>>) -> Seq<Seq<u8>> {
    list.map_values(|bytes: Vec<u8>| bytes@)
}

/// Splits an absolute path into its components.
pub fn split_components(path: &[u8]) -> (list: Vec<Vec<u8>>)
    ensures
        byte_lists(list@) == components(path@),
{
    let mut list: Vec<Vec<u8>> = Vec::new();
    let mut piece: Vec<u8> = Vec::new();
    let ghost cut = at_separator();
    proof {
        assert(path@.take(0) =~= Seq::<u8>::empty());
        assert(text::pieces(path@.take(0), cut).drop_last() =~= Seq::<Seq<u8>>::empty());
        assert(byte_lists(list@) =~= Seq::<Seq<u8>>::empty());
    }
    for i in 0..path.len()
        invariant
            cut == at_separator(),
            text::pieces(path@.take(i as int), cut).len() > 0,
            byte_lists(list@) == components_among(
                text::pieces(path@.take(i as int), cut).drop_last(),
            ),
            piece@ == text::pieces(path@.take(i as int), cut).last(),
    {
        let byte: u8 = path[i];
        let ghost before = text::pieces(path@.take(i as int), cut);
        let ghost after = text::pieces(path@.take(i + 1), cut);
        proof {
            assert(path@.take(i + 1).drop_last() =~= path@.take(i as int));
            assert(path@.take(i + 1).last() == byte);
        }
        if byte == SEPARATOR {
            assert(after.drop_last() =~= before);
            let ghost held = byte_lists(list@);
            if piece.len() > 0 && !(piece.len() == 1 && piece[0] == 46) {
                assert(is_component(piece@));
                let done = piece;
                list.push(done);
                assert(byte_lists(list@) =~= held.push(done@));
                piece = Vec::new();
            } else {
                assert(!is_component(piece@)) by {
                    if piece@.len() == 1 {
                        assert(piece@ =~= seq![46u8]);
                    }
                }
                piece = Vec::new();
            }
            assert(piece@ =~= after.last());
        } else {
            assert(after.drop_last() =~= before.drop_last());
            piece.push(byte);
        }
    }
    proof {
        assert(path@.take(path@.len() as int) =~= path@);
    }
    let ghost all = text::pieces(path@, cut);
    let ghost held = byte_lists(list@);
    if piece.len() > 0 && !(piece.len() == 1 && piece[0] == 46) {
        assert(is_component(piece@));
        list.push(piece);
        assert(byte_lists(list@) =~= held.push(all.last()));
    } else {
        assert(!is_component(piece@)) by {
            if piece@.len() == 1 {
                assert(piece@ =~= seq![46u8]);
            }
        }
    }
    list
}

/// An absolute path lies at or below another: its components begin with those of the other.
pub open spec fn is_within(path: Seq<u8>, root: Seq<u8>) -> bool {
    text::begins_with(components(path), components(root))
}

/// Whether an absolute path lies at or below another.
pub fn within(path: &[u8], root: &[u8]) -> (r: bool)
    ensures
        r == is_within(path@, root@),
{
    let own = split_components(path);
    let base = split_components(root);
    if base.len() > own.len() {
        return false;
    }
    for i in 0..base.len()
        invariant
            base@.len() <= own@.len(),
            byte_lists(own@) == components(path@),
            byte_lists(base@) == components(root@),
            forall|j: int| 0 <= j < i ==> byte_lists(own@)[j] == byte_lists(base@)[j],
    {
        assert(byte_lists(own@)[i as int] == own@[i as int]@);
        assert(byte_lists(base@)[i as int] == base@[i as int]@);
        if !text::same_bytes(own[i].as_slice(), base[i].as_slice()) {
            assert(components(path@).take(base@.len() as int)[i as int] != components(root@)[i as int]);
            return false;
        }
    }
    assert(components(path@).take(base@.len() as int) =~= components(root@));
    true
}

/// The name of the file that an absolute path leads to: its last component, unless there is none or
/// it is `..`.
pub open spec fn file_name_of(path: Seq<u8>) -> Option<Seq<u8>> {
    let list = components(path);
    if list.len() == 0 || list.last() == seq![46u8, 46u8] {
        None
    } else {
        Some(list.last())
    }
}

pub open spec fn opt_bytes(bytes: Option<Vec<u8>>) -> Option<Seq<u8>> {
    match bytes {
        Some(bytes) => Some(bytes@),
        None => None,
    }
}

pub fn file_name(path: &[u8]) -> (name: Option<Vec<u8>>)
    ensures
        opt_bytes(name) == file_name_of(path@),
{
    let mut list = split_components(path);
    let ghost all = byte_lists(list@);
    match list.pop() {
        None => None,
        Some(last) => {
            assert(all.last() == last@);
            if last.len() == 2 && last[0] == 46 && last[1] == 46 {
                assert(last@ =~= seq![46u8, 46u8]);
                None
            } else {
                Some(last)
            }
        },
    }
}

proof fn lemma_components_among(left: Seq<Seq<u8>>, right: Seq<Seq<u8>>)
    ensures
        components_among(left + right) == components_among(left) + components_among(right),
    decreases right.len(),
{
    if right.len() == 0 {
        assert(left + right =~= left);
        assert(components_among(left) + components_among(right) =~= components_among(left));
    } else {
        lemma_components_among(left, right.drop_last());
        assert((left + right).drop_last() =~= left + right.drop_last());
        assert(components_among(left + right) =~= components_among(left) + components_among(
            right,
        ));
    }
}

/// A relative path put behind an absolute one adds its components.
pub proof fn lemma_joined_components(base: Seq<u8>, tail: Seq<u8>)
    requires
        is_absolute(base),
        !is_absolute(tail),
    ensures
        is_absolute(joined(base, tail)),
        components(joined(base, tail)) == components(base) + components(tail),
        is_within(joined(base, tail), base),
{
    let cut = at_separator();
    let stem = if base.last() == SEPARATOR {
        base.drop_last()
    } else {
        base
    };
    assert(joined(base, tail) =~= stem.push(SEPARATOR) + tail);
    text::lemma_pieces_joined(stem, SEPARATOR, tail, cut);
    text::lemma_pieces(stem, cut);
    lemma_components_among(text::pieces(stem, cut), text::pieces(tail, cut));
    if base.last() == SEPARATOR {
        let pieces = text::pieces(base, cut);
        assert(pieces.drop_last() =~= text::pieces(stem, cut));
        assert(!is_component(pieces.last()));
        assert(components(base) == components(stem));
    }
    assert((components(base) + components(tail)).take(components(base).len() as int)
        =~= components(base));
}

/// What lies below something that lies below a root lies below the root.
pub proof fn lemma_within_transitive(path: Seq<u8>, middle: Seq<u8>, root: Seq<u8>)
    requires
        is_within(path, middle),
        is_within(middle, root),
    ensures
        is_within(path, root),
{
    let n = components(root).len() as int;
    let m = components(middle).len() as int;
    assert(components(path).take(m).take(n) =~= components(path).take(n));
}

} // verus!
