//! Collecting the files of a selection, directory by directory.
//!
//! The caller performs the action that a selection asks for and hands back what came of it.
use crate::files;
use crate::files::{OutgoingItem, OutgoingSource};
use crate::ids;
use crate::model;
use crate::model::{FileDto, FileMetadata};
use crate::order;
use crate::paths;
use crate::rpc;
use crate::rpc::{ApiError, ApiResult};
use crate::text;
use vstd::prelude::*;
use vstd::utf8::*;

verus! {

/// Most paths that a selection starts from.
pub const MAX_SELECTED_ROOTS: usize = 256;

/// Most directory entries that a selection goes through.
pub const MAX_VISITED_ENTRIES: usize = 10_000;

/// What is at a path.
#[derive(Clone, Copy, Debug, PartialEq, Eq, Structural)]
pub enum EntryKind {
    Link,
    File,
    Directory,
    Other,
}

/// What an inspection of a path finds.
#[derive(Debug)]
pub struct Found {
    pub kind: EntryKind,
    pub len: u64,
    pub device: u64,
    pub inode: u64,
    pub metadata: Option<FileMetadata>,
    /// The name of the entry, made safe for every system, where the name is valid UTF-8.
    pub safe_name: String,
}

#[verifier::ext_equal]
pub struct FoundView {
    pub kind: EntryKind,
    pub len: u64,
    pub device: u64,
    pub inode: u64,
    pub metadata: Option<model::MetadataView>,
    pub safe_name: Seq<char>,
}

impl View for Found {
    type V = FoundView;

    open spec fn view(&self) -> FoundView {
        FoundView {
            kind: self.kind,
            len: self.len,
            device: self.device,
            inode: self.inode,
            metadata: model::opt_metadata(self.metadata),
            safe_name: self.safe_name@,
        }
    }
}

/// A path that is to be looked at: one that was selected, or an entry of a directory.
#[derive(Debug)]
pub struct Place {
    path: Vec<u8>,
    name: Option<Vec<u8>>,
    above: Option<String>,
    depth: usize,
}

#[verifier::ext_equal]
pub struct PlaceView {
    pub path: Seq<u8>,
    /// The last component of the path.
    pub name: Option<Seq<u8>>,
    /// The relative name of the directory that the path is an entry of; none where the path itself
    /// was selected.
    pub above: Option<Seq<char>>,
    /// How many directories lie between the path and what was selected.
    pub depth: nat,
}

impl View for Place {
    type V = PlaceView;

    closed spec fn view(&self) -> PlaceView {
        PlaceView {
            path: self.path@,
            name: paths::opt_bytes(self.name),
            above: text::opt_text(self.above),
            depth: self.depth as nat,
        }
    }
}

/// A directory whose entries are asked for.
#[derive(Debug)]
pub struct Listing {
    path: Vec<u8>,
    relative: String,
    depth: usize,
}

#[verifier::ext_equal]
pub struct ListingView {
    pub path: Seq<u8>,
    pub relative: Seq<char>,
    pub depth: nat,
}

impl View for Listing {
    type V = ListingView;

    closed spec fn view(&self) -> ListingView {
        ListingView { path: self.path@, relative: self.relative@, depth: self.depth as nat }
    }
}

pub open spec fn opt_listing(listing: Option<Listing>) -> Option<ListingView> {
    match listing {
        Some(listing) => Some(listing@),
        None => None,
    }
}

/// The names that a directory lists are in the order of their bytes.
impl order::Ranked for Seq<u8> {
    open spec fn precedes(self, other: Self) -> bool {
        text::bytes_before(self, other)
    }

    proof fn precedes_asymmetric(a: Self, b: Self) {
        if text::bytes_before(b, a) {
            text::lemma_bytes_before_transitive(a, b, a);
            text::lemma_bytes_before_irreflexive(a);
        }
    }

    proof fn follows_transitive(a: Self, b: Self, c: Self) {
        text::lemma_bytes_before_total(a, b);
        text::lemma_bytes_before_total(b, c);
        if text::bytes_before(c, a) {
            if text::bytes_before(a, b) {
                text::lemma_bytes_before_transitive(c, a, b);
            }
        }
    }
}

impl order::Sortable for Vec<u8> {
    fn is_before(&self, other: &Self) -> bool {
        text::bytes_precede(self.as_slice(), other.as_slice())
    }
}

/// The MIME type that is guessed from the extension of a path.
pub uninterp spec fn mime_text(path: Seq<char>) -> Seq<char>;

/// `mime_guess::from_path` with `first_or_octet_stream`. Claimed: the type depends on the path
/// alone. Which type it is, is left unsaid.
#[verifier::external_body]
fn guess_mime(path: &str) -> (mime: String)
    ensures
        mime@ == mime_text(path@),
{
    mime_guess::from_path(path).first_or_octet_stream().to_string()
}

pub open spec fn invalid_path(message: Seq<char>) -> rpc::ApiErrorView {
    rpc::api_error("invalid_path"@, message)
}

/// The error that says that a path could not be inspected.
pub open spec fn path_error_at(path: Seq<u8>, reason: Seq<char>) -> rpc::ApiErrorView {
    invalid_path("Could not inspect "@ + text::shown_text(path) + ": "@ + reason)
}

pub open spec fn too_many_files() -> rpc::ApiErrorView {
    rpc::api_error("selection_too_large"@, "At most 512 files may be sent at once"@)
}

pub open spec fn too_many_entries() -> rpc::ApiErrorView {
    rpc::api_error(
        "selection_too_large"@,
        "Selection may contain at most 10000 directory entries"@,
    )
}

pub open spec fn too_deep() -> rpc::ApiErrorView {
    rpc::api_error("selection_too_deep"@, "Directory nesting exceeds 16 levels"@)
}

/// The safe name of an entry, whose own name must be valid UTF-8.
pub open spec fn component_at(place: PlaceView, found: FoundView) -> Result<
    Seq<char>,
    rpc::ApiErrorView,
> {
    if place.name is Some && valid_utf8(place.name->0) {
        Ok(found.safe_name)
    } else {
        Err(invalid_path("Invalid path: "@ + text::shown_text(place.path)))
    }
}

/// The name of a path relative to what was selected.
pub open spec fn relative_name(place: PlaceView, component: Seq<char>) -> Seq<char> {
    match place.above {
        None => component,
        Some(above) => above + "/"@ + component,
    }
}

/// A file of a MIME type as an item to send.
pub open spec fn item_of(
    path: Seq<char>,
    relative: Seq<char>,
    found: FoundView,
    mime: Seq<char>,
    id: Seq<char>,
) -> files::ItemView {
    files::ItemView {
        file: model::FileDtoView {
            id,
            file_name: relative,
            size: found.len,
            file_type: mime,
            sha256: None,
            preview: None,
            metadata: found.metadata,
        },
        source: files::SourceView::Path {
            path,
            device: found.device,
            inode: found.inode,
            size: found.len,
        },
        source_path: Some(path),
    }
}

/// The file at a path as an item to send.
pub open spec fn item_at(
    path: Seq<u8>,
    relative: Seq<char>,
    found: FoundView,
    id: Seq<char>,
) -> files::ItemView {
    item_of(decode_utf8(path), relative, found, mime_text(decode_utf8(path)), id)
}

/// The items with the file at a path behind them, if there is room for it and its path is valid
/// UTF-8.
pub open spec fn with_file(
    items: Seq<files::ItemView>,
    path: Seq<u8>,
    relative: Seq<char>,
    found: FoundView,
    id: Seq<char>,
) -> Result<Seq<files::ItemView>, rpc::ApiErrorView> {
    if items.len() >= files::MAX_SELECTED_FILES {
        Err(too_many_files())
    } else if !valid_utf8(path) {
        Err(invalid_path("Path is not valid UTF-8: "@ + text::shown_text(path)))
    } else {
        Ok(items.push(item_at(path, relative, found, id)))
    }
}

/// What an inspected path adds to a selection: a file, or a directory to enter.
pub enum Outcome {
    Items(Seq<files::ItemView>),
    Enter(Seq<char>),
}

/// What a file, or a directory, of a given relative name adds to a selection.
pub open spec fn taken_in(
    place: PlaceView,
    found: FoundView,
    items: Seq<files::ItemView>,
    id: Seq<char>,
) -> Result<Outcome, rpc::ApiErrorView> {
    match component_at(place, found) {
        Err(error) => Err(error),
        Ok(component) => {
            let relative = relative_name(place, component);
            if found.kind == EntryKind::Directory {
                if place.depth >= files::MAX_RECURSION_DEPTH {
                    Err(too_deep())
                } else {
                    Ok(Outcome::Enter(relative))
                }
            } else if found.kind == EntryKind::File {
                match with_file(items, place.path, relative, found, id) {
                    Ok(items) => Ok(Outcome::Items(items)),
                    Err(error) => Err(error),
                }
            } else {
                Err(
                    invalid_path(
                        "Special files are not accepted: "@ + text::shown_text(place.path),
                    ),
                )
            }
        },
    }
}

/// What an inspected path comes to. Links are refused, and so is what is neither a file nor a
/// directory.
pub open spec fn sorted_out(
    place: PlaceView,
    found: FoundView,
    items: Seq<files::ItemView>,
    id: Seq<char>,
) -> Result<Outcome, rpc::ApiErrorView> {
    if found.kind == EntryKind::Link {
        Err(invalid_path("Symbolic links are not accepted: "@ + text::shown_text(place.path)))
    } else if place.above is None && found.kind == EntryKind::Other {
        Err(
            invalid_path(
                "Path is not a regular file or directory: "@ + text::shown_text(place.path),
            ),
        )
    } else {
        taken_in(place, found, items, id)
    }
}

/// An entry of a directory.
pub open spec fn entry_place(listing: ListingView, name: Seq<u8>) -> PlaceView {
    PlaceView {
        path: paths::joined(listing.path, name),
        name: Some(name),
        above: Some(listing.relative),
        depth: listing.depth + 1,
    }
}

/// The entries of a directory, in the order of their names.
pub open spec fn entry_places(listing: ListingView, names: Seq<Seq<u8>>) -> Seq<PlaceView> {
    let sorted = order::stable_sort(names);
    Seq::new(sorted.len(), |i: int| entry_place(listing, sorted[i]))
}

/// What a list of names comes to, that may have broken off for a reason: the number of entries that
/// have been gone through, and the entries.
pub open spec fn listed(
    listing: ListingView,
    visited: nat,
    names: Seq<Seq<u8>>,
    failure: Option<Seq<char>>,
) -> Result<(nat, Seq<PlaceView>), rpc::ApiErrorView> {
    let seen = visited + names.len() + (if failure is Some {
        1nat
    } else {
        0nat
    });
    if seen > MAX_VISITED_ENTRIES {
        Err(too_many_entries())
    } else {
        match failure {
            Some(reason) => Err(path_error_at(listing.path, reason)),
            None => Ok((seen, entry_places(listing, names))),
        }
    }
}

/// What came of an action.
#[derive(Debug)]
pub enum Event {
    /// The path was inspected.
    Inspected { found: Found },
    /// The path could not be inspected.
    InspectFailed { reason: String },
    /// The directory has these entries, as far as they could be read.
    Listed { names: Vec<Vec<u8>>, failure: Option<String> },
    /// The directory could not be read.
    ListFailed { reason: String },
}

#[verifier::ext_equal]
pub enum EventView {
    Inspected { found: FoundView },
    InspectFailed { reason: Seq<char> },
    Listed { names: Seq<Seq<u8>>, failure: Option<Seq<char>> },
    ListFailed { reason: Seq<char> },
}

impl View for Event {
    type V = EventView;

    open spec fn view(&self) -> EventView {
        match self {
            Event::Inspected { found } => EventView::Inspected { found: found@ },
            Event::InspectFailed { reason } => EventView::InspectFailed { reason: reason@ },
            Event::Listed { names, failure } => EventView::Listed {
                names: order::views(names@),
                failure: text::opt_text(*failure),
            },
            Event::ListFailed { reason } => EventView::ListFailed { reason: reason@ },
        }
    }
}

/// What the caller is to do next.
#[derive(Debug)]
pub enum Action {
    /// Inspect a path, and make its name safe where it has one.
    Inspect { path: Vec<u8>, name: Option<String> },
    /// Read the entries of a directory, up to one more than are allowed.
    List { path: Vec<u8>, limit: usize },
    /// Nothing: the selection is complete.
    Finish,
}

#[verifier::ext_equal]
pub enum ActionView {
    Inspect { path: Seq<u8>, name: Option<Seq<char>> },
    List { path: Seq<u8>, limit: nat },
    Finish,
}

impl View for Action {
    type V = ActionView;

    open spec fn view(&self) -> ActionView {
        match self {
            Action::Inspect { path, name } => ActionView::Inspect {
                path: path@,
                name: text::opt_text(*name),
            },
            Action::List { path, limit } => ActionView::List { path: path@, limit: *limit as nat },
            Action::Finish => ActionView::Finish,
        }
    }
}

/// A selection that is being collected.
#[derive(Debug)]
pub struct Selection {
    items: Vec<OutgoingItem>,
    visited: usize,
    stack: Vec<Place>,
    listing: Option<Listing>,
}

#[verifier::ext_equal]
pub struct SelectionView {
    /// The files so far.
    pub items: Seq<files::ItemView>,
    /// How many directory entries have been gone through.
    pub visited: nat,
    /// What is still to be looked at; the next place is the last.
    pub stack: Seq<PlaceView>,
    /// The directory whose entries are asked for.
    pub listing: Option<ListingView>,
}

impl View for Selection {
    type V = SelectionView;

    closed spec fn view(&self) -> SelectionView {
        SelectionView {
            items: order::views(self.items@),
            visited: self.visited as nat,
            stack: order::views(self.stack@),
            listing: opt_listing(self.listing),
        }
    }
}

/// A path that was selected.
pub open spec fn root_place(path: Seq<char>) -> PlaceView {
    PlaceView {
        path: encode_utf8(path),
        name: paths::file_name_of(encode_utf8(path)),
        above: None,
        depth: 0,
    }
}

/// A place that may be looked at: what was selected must be absolute.
pub open spec fn is_admitted(place: PlaceView) -> bool {
    place.above is None ==> paths::is_absolute(place.path)
}

pub open spec fn not_absolute(place: PlaceView) -> rpc::ApiErrorView {
    invalid_path("Path must be absolute: "@ + text::shown_text(place.path))
}

/// A selection goes on unless the next place may not be looked at.
pub open spec fn admitted(s: SelectionView) -> Result<SelectionView, rpc::ApiErrorView> {
    if s.listing is None && s.stack.len() > 0 && !is_admitted(s.stack.last()) {
        Err(not_absolute(s.stack.last()))
    } else {
        Ok(s)
    }
}

/// The places that were selected, the first of them last.
pub open spec fn root_stack(roots: Seq<Seq<char>>) -> Seq<PlaceView> {
    Seq::new(roots.len(), |i: int| root_place(roots[roots.len() - 1 - i]))
}

/// The beginning of a selection from one to 256 paths.
pub open spec fn begun(roots: Seq<Seq<char>>) -> Result<SelectionView, rpc::ApiErrorView> {
    if roots.len() == 0 {
        Err(invalid_path("At least one path is required"@))
    } else if roots.len() > MAX_SELECTED_ROOTS {
        Err(
            rpc::api_error("selection_too_large"@, "At most 256 root paths may be selected"@),
        )
    } else {
        admitted(
            SelectionView {
                items: Seq::empty(),
                visited: 0,
                stack: root_stack(roots),
                listing: None,
            },
        )
    }
}

/// The state of a selection that is consistent.
pub open spec fn is_sound(s: SelectionView) -> bool {
    &&& s.items.len() <= files::MAX_SELECTED_FILES
    &&& s.visited <= MAX_VISITED_ENTRIES
    &&& forall|i: int|
        #![trigger s.stack[i]]
        0 <= i < s.stack.len() ==> {
            &&& s.stack[i].depth <= files::MAX_RECURSION_DEPTH
            &&& s.stack[i].above is None ==> valid_utf8(s.stack[i].path)
        }
    &&& s.listing is Some ==> s.listing->0.depth < files::MAX_RECURSION_DEPTH
    &&& s.listing is None && s.stack.len() > 0 ==> is_admitted(s.stack.last())
}

/// What a selection asks for.
pub open spec fn wanted(s: SelectionView) -> ActionView {
    match s.listing {
        Some(listing) => ActionView::List {
            path: listing.path,
            limit: (MAX_VISITED_ENTRIES - s.visited + 1) as nat,
        },
        None => if s.stack.len() == 0 {
            ActionView::Finish
        } else {
            ActionView::Inspect {
                path: s.stack.last().path,
                name: match s.stack.last().name {
                    Some(name) => text::utf8_text(name),
                    None => None,
                },
            }
        },
    }
}

/// True of the events that can come of what a selection asks for.
pub open spec fn answers(s: SelectionView, event: EventView) -> bool {
    match event {
        EventView::Inspected { .. } => s.listing is None && s.stack.len() > 0,
        EventView::InspectFailed { .. } => s.listing is None && s.stack.len() > 0,
        EventView::Listed { .. } => s.listing is Some,
        EventView::ListFailed { .. } => s.listing is Some,
    }
}

/// How a selection goes on after an event. A file that is taken in gets the given identifier.
pub open spec fn advanced(s: SelectionView, event: EventView, id: Seq<char>) -> Result<
    SelectionView,
    rpc::ApiErrorView,
> {
    match event {
        EventView::Inspected { found } => {
            let place = s.stack.last();
            let rest = SelectionView { stack: s.stack.drop_last(), ..s };
            match sorted_out(place, found, s.items, id) {
                Err(error) => Err(error),
                Ok(Outcome::Items(items)) => admitted(SelectionView { items, ..rest }),
                Ok(Outcome::Enter(relative)) => Ok(
                    SelectionView {
                        listing: Some(
                            ListingView { path: place.path, relative, depth: place.depth },
                        ),
                        ..rest
                    },
                ),
            }
        },
        EventView::InspectFailed { reason } => Err(path_error_at(s.stack.last().path, reason)),
        EventView::Listed { names, failure } => match listed(
            s.listing->0,
            s.visited,
            names,
            failure,
        ) {
            Err(error) => Err(error),
            Ok((visited, places)) => admitted(
                SelectionView {
                    visited,
                    stack: s.stack + places.reverse(),
                    listing: None,
                    ..s
                },
            ),
        },
        EventView::ListFailed { reason } => Err(path_error_at(s.listing->0.path, reason)),
    }
}

/// What a complete selection comes to: it must have a file.
pub open spec fn selected(s: SelectionView) -> Result<Seq<files::ItemView>, rpc::ApiErrorView> {
    if s.items.len() == 0 {
        Err(
            rpc::api_error(
                "empty_selection"@,
                "The selected directories contain no regular files"@,
            ),
        )
    } else {
        Ok(s.items)
    }
}

fn shown_error(start: &str, path: &[u8]) -> (error: ApiError)
    ensures
        error@ == invalid_path(start@ + text::shown_text(path@)),
{
    let shown = text::text_from_lossy(path);
    let message = text::join2(start, shown.as_str());
    ApiError::new("invalid_path", message.as_str())
}

/// The error that says that a path could not be inspected.
pub fn path_error(path: &[u8], reason: &str) -> (error: ApiError)
    ensures
        error@ == path_error_at(path@, reason@),
{
    let shown = text::text_from_lossy(path);
    let head = text::join3("Could not inspect ", shown.as_str(), ": ");
    let message = text::join2(head.as_str(), reason);
    ApiError::new("invalid_path", message.as_str())
}

/// The name of a place as text, where it has one that is valid UTF-8.
fn name_text(place: &Place) -> (name: Option<String>)
    ensures
        text::opt_text(name) == (match place@.name {
            Some(name) => text::utf8_text(name),
            None => None,
        }),
{
    match &place.name {
        Some(name) => text::text_from_utf8(paths::owned(name.as_slice())),
        None => None,
    }
}

fn safe_local_component(place: &Place, safe_name: String) -> (component: ApiResult<String>)
    ensures
        match component {
            Ok(component) => component@ == safe_name@ && place@.name is Some && valid_utf8(
                place@.name->0,
            ),
            Err(error) => !(place@.name is Some && valid_utf8(place@.name->0)) && error@
                == invalid_path("Invalid path: "@ + text::shown_text(place@.path)),
        },
{
    match name_text(place) {
        Some(_) => Ok(safe_name),
        None => Err(shown_error("Invalid path: ", place.path.as_slice())),
    }
}

/// A file of a MIME type as an item to send.
pub fn file_item(path: String, relative: String, found: Found, mime: String, id: &str) -> (item:
    OutgoingItem)
    ensures
        item@ == item_of(path@, relative@, found@, mime@, id@),
{
    OutgoingItem {
        file: FileDto {
            id: id.to_string(),
            file_name: relative,
            size: found.len,
            file_type: mime,
            sha256: None,
            preview: None,
            metadata: found.metadata,
        },
        source: OutgoingSource::Path {
            path: path.clone(),
            device: found.device,
            inode: found.inode,
            size: found.len,
        },
        source_path: Some(path),
    }
}

/// Puts the file at a path behind the items.
fn push_file(
    path: &[u8],
    relative: String,
    found: Found,
    items: &mut Vec<OutgoingItem>,
    id: &str,
) -> (r: ApiResult<()>)
    ensures
        match with_file(order::views(old(items)@), path@, relative@, found@, id@) {
            Ok(list) => r is Ok && order::views(final(items)@) == list,
            Err(error) => r is Err && r->Err_0@ == error && final(items)@ == old(items)@,
        },
{
    if items.len() >= files::MAX_SELECTED_FILES {
        return Err(ApiError::new("selection_too_large", "At most 512 files may be sent at once"));
    }
    let shown = match text::text_from_utf8(paths::owned(path)) {
        Some(shown) => shown,
        None => {
            return Err(shown_error("Path is not valid UTF-8: ", path));
        },
    };
    let mime = guess_mime(shown.as_str());
    let item = file_item(shown, relative, found, mime, id);
    assert(item@ == item_at(path@, relative@, found@, id@));
    items.push(item);
    assert(order::views(items@) =~= order::views(old(items)@).push(item@));
    Ok(())
}

/// Begins to collect the files of a selection from paths.
pub fn collect_selection(roots: &Vec<String>) -> (r: ApiResult<Selection>)
    ensures
        match begun(text::texts(roots@)) {
            Ok(s) => r is Ok && (r->Ok_0)@ == s && (r->Ok_0).wf(),
            Err(error) => r is Err && r->Err_0@ == error,
        },
{
    if roots.len() == 0 {
        return Err(ApiError::new("invalid_path", "At least one path is required"));
    }
    if roots.len() > MAX_SELECTED_ROOTS {
        return Err(
            ApiError::new("selection_too_large", "At most 256 root paths may be selected"),
        );
    }
    let ghost all = text::texts(roots@);
    let mut stack: Vec<Place> = Vec::new();
    let count: usize = roots.len();
    for i in 0..count
        invariant
            all == text::texts(roots@),
            count == roots@.len() == all.len(),
            stack@.len() == i,
            forall|j: int|
                0 <= j < i ==> (#[trigger] stack@[j])@ == root_place(all[count - 1 - j]),
    {
        let k: usize = count - 1 - i;
        assert(all[k as int] == roots@[k as int]@);
        let path = roots[k].as_str().as_bytes_vec();
        let name = paths::file_name(path.as_slice());
        stack.push(Place { path, name, above: None, depth: 0 });
    }
    assert(order::views(stack@) =~= root_stack(all));
    let s = Selection { items: Vec::new(), visited: 0, stack, listing: None };
    proof {
        assert(s@.items =~= Seq::<files::ItemView>::empty());
        assert forall|i: int| #![trigger s@.stack[i]] 0 <= i < s@.stack.len() implies {
            &&& s@.stack[i].depth <= files::MAX_RECURSION_DEPTH
            &&& s@.stack[i].above is None ==> valid_utf8(s@.stack[i].path)
        } by {
            encode_utf8_valid_utf8(all[count - 1 - i]);
        }
    }
    match s.check_next() {
        Ok(_) => Ok(s),
        Err(error) => Err(error),
    }
}

impl Selection {
    pub open spec fn wf(&self) -> bool {
        is_sound(self@)
    }

    /// Checks that the next place may be looked at.
    fn check_next(&self) -> (r: ApiResult<()>)
        requires
            forall|i: int|
                #![trigger self@.stack[i]]
                0 <= i < self@.stack.len() && self@.stack[i].above is None ==> valid_utf8(
                    self@.stack[i].path,
                ),
        ensures
            match admitted(self@) {
                Ok(_) => r is Ok,
                Err(error) => r is Err && r->Err_0@ == error,
            },
    {
        if self.listing.is_none() && self.stack.len() > 0 {
            let place = &self.stack[self.stack.len() - 1];
            assert(order::views(self.stack@)[self.stack@.len() - 1] == place@);
            assert(self@.stack[self.stack@.len() - 1] == place@);
            if place.above.is_none() && !paths::absolute(place.path.as_slice()) {
                return Err(shown_error("Path must be absolute: ", place.path.as_slice()));
            }
        }
        Ok(())
    }

    /// What is to be done next.
    pub fn action(&self) -> (action: Action)
        requires
            self.wf(),
        ensures
            action@ == wanted(self@),
    {
        match &self.listing {
            Some(listing) => Action::List {
                path: paths::owned(listing.path.as_slice()),
                limit: MAX_VISITED_ENTRIES - self.visited + 1,
            },
            None => if self.stack.len() == 0 {
                Action::Finish
            } else {
                let place = &self.stack[self.stack.len() - 1];
                assert(order::views(self.stack@)[self.stack@.len() - 1] == place@);
                Action::Inspect {
                    path: paths::owned(place.path.as_slice()),
                    name: name_text(place),
                }
            },
        }
    }

    /// Takes what an inspection of the next place found.
    fn take_found(&mut self, found: Found, id: &str) -> (r: ApiResult<()>)
        requires
            old(self).wf(),
            old(self)@.listing is None,
            old(self)@.stack.len() > 0,
        ensures
            match advanced(old(self)@, (EventView::Inspected { found: found@ }), id@) {
                Ok(s) => r is Ok && final(self)@ == s && final(self).wf(),
                Err(error) => r is Err && r->Err_0@ == error,
            },
    {
        let ghost before = self@;
        let ghost stack = self.stack@;
        let place = match self.stack.pop() {
            Some(place) => place,
            None => {
                return Ok(());
            },
        };
        proof {
            assert(order::views(stack)[stack.len() - 1] == place@);
            assert(before.stack.last() == place@);
            assert(order::views(self.stack@) =~= before.stack.drop_last());
            assert forall|i: int| 0 <= i < self@.stack.len() implies #[trigger] self@.stack[i]
                == before.stack[i] by {}
        }
        if found.kind == EntryKind::Link {
            return Err(
                shown_error("Symbolic links are not accepted: ", place.path.as_slice()),
            );
        }
        if place.above.is_none() && found.kind == EntryKind::Other {
            return Err(
                shown_error("Path is not a regular file or directory: ", place.path.as_slice()),
            );
        }
        let component = match safe_local_component(&place, found.safe_name.clone()) {
            Ok(component) => component,
            Err(error) => {
                return Err(error);
            },
        };
        let relative = match &place.above {
            None => component,
            Some(above) => text::join3(above.as_str(), "/", component.as_str()),
        };
        assert(relative@ == relative_name(place@, component@));
        match found.kind {
            EntryKind::Directory => {
                if place.depth >= files::MAX_RECURSION_DEPTH {
                    return Err(
                        ApiError::new(
                            "selection_too_deep",
                            "Directory nesting exceeds 16 levels",
                        ),
                    );
                }
                self.listing = Some(Listing { path: place.path, relative, depth: place.depth });
                Ok(())
            },
            EntryKind::File => {
                match push_file(place.path.as_slice(), relative, found, &mut self.items, id) {
                    Ok(_) => self.check_next(),
                    Err(error) => Err(error),
                }
            },
            _ => Err(shown_error("Special files are not accepted: ", place.path.as_slice())),
        }
    }

    /// Takes the entries of a directory.
    fn take_names(&mut self, names: Vec<Vec<u8>>, failure: Option<String>) -> (r: ApiResult<()>)
        requires
            old(self).wf(),
            old(self)@.listing is Some,
        ensures
            forall|id: Seq<char>|
                match #[trigger] advanced(
                    old(self)@,
                    (EventView::Listed {
                        names: order::views(names@),
                        failure: text::opt_text(failure),
                    }),
                    id,
                ) {
                    Ok(s) => r is Ok && final(self)@ == s && final(self).wf(),
                    Err(error) => r is Err && r->Err_0@ == error,
                },
    {
        let ghost before = self@;
        let listing = match self.listing.take() {
            Some(listing) => listing,
            None => {
                return Ok(());
            },
        };
        let room: usize = MAX_VISITED_ENTRIES - self.visited;
        if names.len() > room || (names.len() == room && failure.is_some()) {
            return Err(
                ApiError::new(
                    "selection_too_large",
                    "Selection may contain at most 10000 directory entries",
                ),
            );
        }
        if let Some(reason) = &failure {
            return Err(path_error(listing.path.as_slice(), reason.as_str()));
        }
        self.visited = self.visited + names.len();
        let ghost places = entry_places(listing@, order::views(names@));
        proof {
            order::lemma_stable_sort(order::views(names@));
        }
        let mut sorted = order::sort_list(names);
        let ghost all = order::views(sorted@);
        let ghost stack = self.stack@;
        proof {
            assert(self.stack@ =~= stack + Seq::<Place>::empty());
            assert(order::views(self.stack@) =~= before.stack + places.reverse().take(0));
        }
        let ghost mut done: int = 0;
        while sorted.len() > 0
            invariant
                0 <= done <= all.len(),
                sorted@.len() == all.len() - done,
                places.len() == all.len(),
                order::views(sorted@) == all.take(all.len() - done),
                forall|i: int|
                    0 <= i < all.len() ==> #[trigger] places[i] == entry_place(listing@, all[i]),
                order::views(self.stack@) == before.stack + places.reverse().take(done),
                listing@.depth < files::MAX_RECURSION_DEPTH,
                self.items@ == old(self).items@,
                self.visited == before.visited + all.len(),
                self.listing is None,
            decreases sorted@.len(),
        {
            let ghost held = sorted@;
            if let Some(name) = sorted.pop() {
                proof {
                    assert(order::views(held)[held.len() - 1] == name@);
                    assert(name@ == all[all.len() - 1 - done]);
                    assert(order::views(sorted@) =~= all.take(all.len() - done - 1));
                }
                let place = Place {
                    path: paths::join(listing.path.as_slice(), name.as_slice()),
                    name: Some(name),
                    above: Some(listing.relative.clone()),
                    depth: listing.depth + 1,
                };
                let ghost stacked = self.stack@;
                self.stack.push(place);
                proof {
                    assert(place@ == places[all.len() - 1 - done]);
                    assert(order::views(self.stack@) =~= order::views(stacked).push(place@));
                    assert(places.reverse().take(done + 1) =~= places.reverse().take(done).push(
                        place@,
                    ));
                    done = done + 1;
                }
            }
        }
        proof {
            assert(places.reverse().take(done) =~= places.reverse());
            assert(self@.stack =~= before.stack + places.reverse());
            assert forall|i: int| #![trigger self@.stack[i]] 0 <= i < self@.stack.len() implies {
                &&& self@.stack[i].depth <= files::MAX_RECURSION_DEPTH
                &&& self@.stack[i].above is None ==> valid_utf8(self@.stack[i].path)
            } by {
                if i < before.stack.len() {
                    assert(self@.stack[i] == before.stack[i]);
                } else {
                    let k = places.len() - 1 - (i - before.stack.len());
                    assert(self@.stack[i] == places[k]);
                }
            }
        }
        self.check_next()
    }

    /// Takes what came of the action. A file that is taken in gets the given identifier.
    pub fn advance_with_id(&mut self, event: Event, id: &str) -> (r: ApiResult<()>)
        requires
            old(self).wf(),
            answers(old(self)@, event@),
        ensures
            match advanced(old(self)@, event@, id@) {
                Ok(s) => r is Ok && final(self)@ == s && final(self).wf(),
                Err(error) => r is Err && r->Err_0@ == error,
            },
    {
        match event {
            Event::Inspected { found } => self.take_found(found, id),
            Event::InspectFailed { reason } => {
                let place = &self.stack[self.stack.len() - 1];
                assert(order::views(self.stack@)[self.stack@.len() - 1] == place@);
                Err(path_error(place.path.as_slice(), reason.as_str()))
            },
            Event::Listed { names, failure } => {
                let r = self.take_names(names, failure);
                assert(event@ == (EventView::Listed {
                    names: order::views(names@),
                    failure: text::opt_text(failure),
                }));
                r
            },
            Event::ListFailed { reason } => match &self.listing {
                Some(listing) => Err(path_error(listing.path.as_slice(), reason.as_str())),
                None => Ok(()),
            },
        }
    }

    /// Takes what came of the action. A file that is taken in gets a fresh identifier.
    pub fn advance(&mut self, event: Event) -> (r: ApiResult<()>)
        requires
            old(self).wf(),
            answers(old(self)@, event@),
        ensures
            exists|id: Seq<char>|
                ids::is_hyphenated_uuid(id) && match #[trigger] advanced(
                    old(self)@,
                    event@,
                    id,
                ) {
                    Ok(s) => r is Ok && final(self)@ == s && final(self).wf(),
                    Err(error) => r is Err && r->Err_0@ == error,
                },
    {
        let id = ids::fresh_id();
        self.advance_with_id(event, id.as_str())
    }

    /// The files of a selection that is complete.
    pub fn finish(self) -> (r: ApiResult<Vec<OutgoingItem>>)
        requires
            self.wf(),
            wanted(self@) is Finish,
        ensures
            match selected(self@) {
                Ok(items) => r is Ok && order::views((r->Ok_0)@) == items && 1 <= (
                r->Ok_0)@.len() <= files::MAX_SELECTED_FILES,
                Err(error) => r is Err && r->Err_0@ == error,
            },
    {
        if self.items.len() == 0 {
            return Err(
                ApiError::new(
                    "empty_selection",
                    "The selected directories contain no regular files",
                ),
            );
        }
        Ok(self.items)
    }
}

/// Every step of a selection keeps its limits: at most 512 files, 10 000 entries and 16 levels.
pub proof fn lemma_advance_keeps_limits(s: SelectionView, event: EventView, id: Seq<char>)
    requires
        is_sound(s),
        answers(s, event),
        advanced(s, event, id) is Ok,
    ensures
        is_sound(advanced(s, event, id)->Ok_0),
{
    let next = advanced(s, event, id)->Ok_0;
    match event {
        EventView::Inspected { .. } => {
            assert(s.stack[s.stack.len() - 1].depth <= files::MAX_RECURSION_DEPTH);
            assert forall|i: int| #![trigger next.stack[i]] 0 <= i < next.stack.len() implies {
                &&& next.stack[i].depth <= files::MAX_RECURSION_DEPTH
                &&& next.stack[i].above is None ==> valid_utf8(next.stack[i].path)
            } by {
                assert(next.stack[i] == s.stack[i]);
            }
        },
        EventView::Listed { names, .. } => {
            let places = entry_places(s.listing->0, names);
            assert(next.stack =~= s.stack + places.reverse());
            assert forall|i: int| #![trigger next.stack[i]] 0 <= i < next.stack.len() implies {
                &&& next.stack[i].depth <= files::MAX_RECURSION_DEPTH
                &&& next.stack[i].above is None ==> valid_utf8(next.stack[i].path)
            } by {
                if i < s.stack.len() {
                    assert(next.stack[i] == s.stack[i]);
                } else {
                    assert(next.stack[i] == places[places.len() - 1 - (i - s.stack.len())]);
                }
            }
        },
        _ => {},
    }
}

/// A selection begins within its limits.
pub proof fn lemma_begin_keeps_limits(roots: Seq<Seq<char>>)
    requires
        begun(roots) is Ok,
    ensures
        is_sound(begun(roots)->Ok_0),
{
    let s = begun(roots)->Ok_0;
    assert forall|i: int| #![trigger s.stack[i]] 0 <= i < s.stack.len() implies {
        &&& s.stack[i].depth <= files::MAX_RECURSION_DEPTH
        &&& s.stack[i].above is None ==> valid_utf8(s.stack[i].path)
    } by {
        encode_utf8_valid_utf8(roots[roots.len() - 1 - i]);
    }
}

} // verus!
