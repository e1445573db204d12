//! Reserving places for all files of an offer, or for none.
use crate::events;
use crate::events::{ReservedFile, WantedFile};
use crate::offer;
use crate::order;
use crate::paths;
use crate::state;
use crate::text;
use vstd::prelude::*;

verus! {

/// The files of an offer, of which the first have their places.
#[derive(Debug)]
pub struct Acceptance {
    wanted: Vec<WantedFile>,
    reserved: Vec<ReservedFile>,
}

#[verifier::ext_equal]
pub struct AcceptanceView {
    pub wanted: Seq<events::WantedView>,
    pub reserved: Seq<events::ReservedView>,
}

impl View for Acceptance {
    type V = AcceptanceView;

    closed spec fn view(&self) -> AcceptanceView {
        AcceptanceView {
            wanted: order::views(self.wanted@),
            reserved: order::views(self.reserved@),
        }
    }
}

/// The first files have their places, in order.
pub open spec fn is_sound(a: AcceptanceView) -> bool {
    &&& a.reserved.len() <= a.wanted.len()
    &&& forall|i: int|
        0 <= i < a.reserved.len() ==> (#[trigger] a.reserved[i]).id == a.wanted[i].id
}

/// The paths that were reserved.
pub open spec fn reserved_paths(reserved: Seq<events::ReservedView>) -> Seq<Seq<u8>> {
    Seq::new(reserved.len(), |i: int| reserved[i].path)
}

impl Acceptance {
    pub open spec fn wf(&self) -> bool {
        is_sound(self@)
    }

    pub fn begin(wanted: Vec<WantedFile>) -> (a: Acceptance)
        ensures
            a.wf(),
            a@.wanted == order::views(wanted@),
            a@.reserved.len() == 0,
    {
        Acceptance { wanted, reserved: Vec::new() }
    }

    /// The next file that has no place; none where every file has one.
    pub fn next(&self) -> (file: Option<&WantedFile>)
        requires
            self.wf(),
        ensures
            match file {
                Some(file) => self@.reserved.len() < self@.wanted.len() && file@
                    == self@.wanted[self@.reserved.len() as int],
                None => self@.reserved.len() == self@.wanted.len(),
            },
    {
        if self.reserved.len() < self.wanted.len() {
            let place: usize = self.reserved.len();
            assert(order::views(self.wanted@)[place as int] == self.wanted@[place as int]@);
            Some(&self.wanted[place])
        } else {
            None
        }
    }

    /// Takes the path that was reserved for the next file.
    pub fn place(&mut self, path: Vec<u8>)
        requires
            old(self).wf(),
            old(self)@.reserved.len() < old(self)@.wanted.len(),
        ensures
            final(self).wf(),
            final(self)@.wanted == old(self)@.wanted,
            final(self)@.reserved == old(self)@.reserved.push(
                (events::ReservedView {
                    id: old(self)@.wanted[old(self)@.reserved.len() as int].id,
                    path: path@,
                }),
            ),
    {
        let place: usize = self.reserved.len();
        let ghost before = self@;
        assert(order::views(self.wanted@)[place as int] == self.wanted@[place as int]@);
        let file = ReservedFile { id: self.wanted[place].id.clone(), path };
        self.reserved.push(file);
        assert(order::views(self.reserved@) =~= before.reserved.push(file@));
    }

    /// The places of all files.
    pub fn finish(self) -> (reserved: Vec<ReservedFile>)
        requires
            self.wf(),
            self@.reserved.len() == self@.wanted.len(),
        ensures
            order::views(reserved@) == self@.reserved,
    {
        self.reserved
    }

    /// The paths that are to be removed because not every file got its place, or because the offer
    /// is gone.
    pub fn give_up(self) -> (list: Vec<Vec<u8>>)
        ensures
            paths::byte_lists(list@) == reserved_paths(self@.reserved),
    {
        give_back(&self.reserved)
    }
}

/// The paths of places that are given up.
pub fn give_back(reserved: &Vec<ReservedFile>) -> (list: Vec<Vec<u8>>)
    ensures
        paths::byte_lists(list@) == reserved_paths(order::views(reserved@)),
{
    let ghost all = reserved_paths(order::views(reserved@));
    let mut list: Vec<Vec<u8>> = Vec::new();
    for i in 0..reserved.len()
        invariant
            all == reserved_paths(order::views(reserved@)),
            paths::byte_lists(list@) == all.take(i as int),
    {
        let ghost before = paths::byte_lists(list@);
        let path = paths::owned(reserved[i].path.as_slice());
        list.push(path);
        proof {
            assert(order::views(reserved@)[i as int] == reserved@[i as int]@);
            assert(paths::byte_lists(list@) =~= before.push(path@));
            assert(all.take(i + 1) =~= all.take(i as int).push(all[i as int]));
        }
    }
    assert(all.take(reserved@.len() as int) =~= all);
    list
}

/// The first place that was reserved under an identifier is the one that is found.
proof fn lemma_reserved_path(reserved: Seq<events::ReservedView>, id: Seq<char>, i: int)
    requires
        0 <= i <= reserved.len(),
        exists|k: int| i <= k < reserved.len() && (#[trigger] reserved[k]).id == id,
    ensures
        exists|k: int|
            i <= k < reserved.len() && (#[trigger] reserved[k]).id == id && state::reserved_path(
                reserved,
                id,
                i,
            ) == text::utf8_text(reserved[k].path),
    decreases reserved.len() - i,
{
    if i < reserved.len() && reserved[i].id != id {
        lemma_reserved_path(reserved, id, i + 1);
    }
}

/// Once every file of the pending offer has its place, each file of the accepted transfer is stored
/// at a place that was reserved under its identifier.
pub proof fn lemma_every_file_has_its_place(
    c: state::ControllerView,
    a: AcceptanceView,
    i: int,
    now: int,
)
    requires
        state::is_sound(c),
        c.pending is Some,
        is_sound(a),
        a.wanted == state::wanted_files(c.pending->0.files),
        a.reserved.len() == a.wanted.len(),
        0 <= i < c.pending->0.snapshot.files.len(),
    ensures
        ({
            let file = state::accepted_record(c.pending->0.snapshot, a.reserved, now).files[i];
            exists|k: int|
                0 <= k < a.reserved.len() && (#[trigger] a.reserved[k]).id == file.id
                    && file.destination_path == text::utf8_text(a.reserved[k].path)
        }),
{
    let pending = c.pending->0;
    let entries = pending.files;
    let offered = state::offered_files(entries);
    let shown = pending.snapshot.files;
    let plain = Seq::new(entries.len(), |j: int| state::wanted_file(entries[j]));
    order::lemma_sort_members(offered, shown[i]);
    assert(shown.contains(shown[i]));
    let p = choose|p: int| 0 <= p < offered.len() && offered[p] == shown[i];
    assert(offer::is_sound_entry(entries[p]));
    assert(plain[p].id == shown[i].id);
    order::lemma_sort_members(plain, plain[p]);
    assert(plain.contains(plain[p]));
    assert(a.wanted.contains(plain[p]));
    let k = choose|k: int| 0 <= k < a.wanted.len() && a.wanted[k] == plain[p];
    assert(a.reserved[k].id == shown[i].id);
    lemma_reserved_path(a.reserved, shown[i].id, 0);
}

} // verus!
