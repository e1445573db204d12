//! Reserving a place for a received file below the download directory, step by step.
//!
//! The caller performs the action that a reservation asks for and hands back what came of it.
use crate::files;
use crate::paths;
use crate::rpc;
use crate::rpc::{ApiError, ApiResult};
use crate::text;
use vstd::prelude::*;
use vstd::utf8::*;

verus! {

/// Most names that are tried for one file.
pub const MAX_ATTEMPTS: u32 = 10_000;

/// What a reservation waits for.
#[derive(Clone, Copy, Debug, PartialEq, Eq, Structural)]
pub enum Stage {
    /// What is at the path of the directory.
    Inspecting,
    /// Whether the directory could be created.
    Creating,
    /// Where the directory really is.
    Resolving,
    /// Whether a new file could be created.
    Opening,
}

/// What the caller is to do next.
#[derive(Debug)]
pub enum Action {
    Inspect { path: Vec<u8> },
    CreateDirectory { path: Vec<u8> },
    Resolve { path: Vec<u8> },
    CreateFile { path: Vec<u8> },
}

#[verifier::ext_equal]
pub enum ActionView {
    Inspect { path: Seq<u8> },
    CreateDirectory { path: Seq<u8> },
    Resolve { path: Seq<u8> },
    CreateFile { path: Seq<u8> },
}

impl View for Action {
    type V = ActionView;

    open spec fn view(&self) -> ActionView {
        match self {
            Action::Inspect { path } => ActionView::Inspect { path: path@ },
            Action::CreateDirectory { path } => ActionView::CreateDirectory { path: path@ },
            Action::Resolve { path } => ActionView::Resolve { path: path@ },
            Action::CreateFile { path } => ActionView::CreateFile { path: path@ },
        }
    }
}

/// What came of an action.
#[derive(Debug)]
pub enum Event {
    /// The path is a symbolic link.
    FoundLink,
    /// The path is something other than a directory.
    FoundOther,
    /// The path is a directory.
    FoundDirectory,
    /// Nothing is at the path.
    Missing,
    /// The directory or the file was created.
    Created,
    /// The path leads here.
    Resolved { path: Vec<u8> },
    /// A file of that name is there.
    Exists,
    /// The action failed, for the given reason.
    Failed { reason: String },
}

#[verifier::ext_equal]
pub enum EventView {
    FoundLink,
    FoundOther,
    FoundDirectory,
    Missing,
    Created,
    Resolved { path: Seq<u8> },
    Exists,
    Failed { reason: Seq<char> },
}

impl View for Event {
    type V = EventView;

    open spec fn view(&self) -> EventView {
        match self {
            Event::FoundLink => EventView::FoundLink,
            Event::FoundOther => EventView::FoundOther,
            Event::FoundDirectory => EventView::FoundDirectory,
            Event::Missing => EventView::Missing,
            Event::Created => EventView::Created,
            Event::Resolved { path } => EventView::Resolved { path: path@ },
            Event::Exists => EventView::Exists,
            Event::Failed { reason } => EventView::Failed { reason: reason@ },
        }
    }
}

/// True of the events that can come of what a stage asks for.
pub open spec fn answers(stage: Stage, event: EventView) -> bool {
    match stage {
        Stage::Inspecting => event is FoundLink || event is FoundOther || event is FoundDirectory
            || event is Missing || event is Failed,
        Stage::Creating => event is Created || event is Failed,
        Stage::Resolving => event is Resolved || event is Failed,
        Stage::Opening => event is Created || event is Exists || event is Failed,
    }
}

/// A reservation under way.
#[derive(Debug)]
pub struct Reservation {
    root: Vec<u8>,
    names: Vec<String>,
    level: usize,
    directory: Vec<u8>,
    stage: Stage,
    attempt: u32,
}

#[verifier::ext_equal]
pub struct ReservationView {
    /// The download directory.
    pub root: Seq<u8>,
    /// The components of the path: directories, and the name of the file at the end.
    pub names: Seq<Seq<char>>,
    /// How many of the directories have been entered.
    pub level: nat,
    /// The directory that was entered last.
    pub directory: Seq<u8>,
    pub stage: Stage,
    /// How many names of the file have been tried.
    pub attempt: nat,
}

impl View for Reservation {
    type V = ReservationView;

    closed spec fn view(&self) -> ReservationView {
        ReservationView {
            root: self.root@,
            names: text::texts(self.names@),
            level: self.level as nat,
            directory: self.directory@,
            stage: self.stage,
            attempt: self.attempt as nat,
        }
    }
}

/// The directory that the first components lead to from the root.
pub open spec fn directory_at(root: Seq<u8>, names: Seq<Seq<char>>, level: nat) -> Seq<u8>
    decreases level,
{
    if level == 0 {
        root
    } else {
        let above = (level - 1) as nat;
        paths::joined(directory_at(root, names, above), encode_utf8(names[above as int]))
    }
}

/// The state of a reservation that is consistent.
pub open spec fn is_sound(r: ReservationView) -> bool {
    &&& r.names.len() > 0
    &&& r.level < r.names.len()
    &&& r.directory == directory_at(r.root, r.names, r.level)
    &&& r.stage == Stage::Opening ==> r.level == r.names.len() - 1
    &&& r.attempt < MAX_ATTEMPTS
}

/// The name of the file with which the next attempt is made: the name itself, then the name with
/// numbers.
pub open spec fn candidate(name: Seq<char>, attempt: nat) -> Seq<char> {
    if attempt == 0 {
        name
    } else {
        files::counted(name, attempt)
    }
}

/// The path that the next attempt is made with.
pub open spec fn candidate_path(r: ReservationView) -> Seq<u8> {
    paths::joined(r.directory, encode_utf8(candidate(r.names.last(), r.attempt)))
}

/// What a reservation asks for.
pub open spec fn wanted(r: ReservationView) -> ActionView {
    match r.stage {
        Stage::Inspecting => ActionView::Inspect { path: r.directory },
        Stage::Creating => ActionView::CreateDirectory { path: r.directory },
        Stage::Resolving => ActionView::Resolve { path: r.directory },
        Stage::Opening => ActionView::CreateFile { path: candidate_path(r) },
    }
}

/// The reservation at the next directory, or at the file where no directory is left.
pub open spec fn entered(r: ReservationView) -> ReservationView {
    if r.level + 1 < r.names.len() {
        ReservationView {
            level: r.level + 1,
            directory: paths::joined(r.directory, encode_utf8(r.names[r.level as int])),
            stage: Stage::Inspecting,
            ..r
        }
    } else {
        ReservationView { stage: Stage::Opening, ..r }
    }
}

/// The reservation of a place for components below a root.
pub open spec fn begun(root: Seq<u8>, names: Seq<Seq<char>>) -> ReservationView {
    entered(
        ReservationView {
            root,
            names,
            level: 0,
            directory: root,
            stage: Stage::Inspecting,
            attempt: 0,
        },
    )
}

pub open spec fn destination_error(start: Seq<char>, path: Seq<u8>, end: Seq<char>) -> rpc::ApiErrorView {
    rpc::api_error("destination_error"@, start + text::shown_text(path) + end)
}

pub open spec fn because(reason: Seq<char>) -> Seq<char> {
    ": "@ + reason
}

/// How a reservation goes on after an event: to its next state, to the path that it reserved, or to
/// an error.
pub open spec fn advanced(r: ReservationView, event: EventView) -> Result<
    (ReservationView, Option<Seq<u8>>),
    rpc::ApiErrorView,
> {
    match r.stage {
        Stage::Inspecting => match event {
            EventView::FoundLink => Err(
                rpc::api_error(
                    "unsafe_destination"@,
                    "Destination contains a symbolic link: "@ + text::shown_text(r.directory),
                ),
            ),
            EventView::FoundOther => Err(
                destination_error("Destination component is not a directory: "@, r.directory, Seq::empty()),
            ),
            EventView::FoundDirectory => Ok(
                (ReservationView { stage: Stage::Resolving, ..r }, None),
            ),
            EventView::Missing => Ok((ReservationView { stage: Stage::Creating, ..r }, None)),
            EventView::Failed { reason } => Err(
                destination_error("Could not inspect "@, r.directory, because(reason)),
            ),
            _ => Ok((r, None)),
        },
        Stage::Creating => match event {
            EventView::Created => Ok((ReservationView { stage: Stage::Resolving, ..r }, None)),
            EventView::Failed { reason } => Err(
                destination_error("Could not create "@, r.directory, because(reason)),
            ),
            _ => Ok((r, None)),
        },
        Stage::Resolving => match event {
            EventView::Resolved { path } => if paths::is_within(path, r.root) {
                Ok((entered(r), None))
            } else {
                Err(
                    rpc::api_error(
                        "unsafe_destination"@,
                        "Destination path escapes the download directory"@,
                    ),
                )
            },
            EventView::Failed { reason } => Err(
                destination_error("Could not resolve "@, r.directory, because(reason)),
            ),
            _ => Ok((r, None)),
        },
        Stage::Opening => match event {
            EventView::Created => Ok((r, Some(candidate_path(r)))),
            EventView::Exists => if r.attempt + 1 < MAX_ATTEMPTS {
                Ok((ReservationView { attempt: r.attempt + 1, ..r }, None))
            } else {
                Err(
                    rpc::api_error(
                        "destination_error"@,
                        "Could not find a unique name for "@ + r.names.last(),
                    ),
                )
            },
            EventView::Failed { reason } => Err(
                destination_error("Could not reserve "@, candidate_path(r), because(reason)),
            ),
            _ => Ok((r, None)),
        },
    }
}

fn path_failure(start: &str, path: &[u8], reason: &str) -> (error: ApiError)
    ensures
        error@ == destination_error(start@, path@, because(reason@)),
{
    let shown = text::text_from_lossy(path);
    let head = text::join3(start, shown.as_str(), ": ");
    let message = text::join2(head.as_str(), reason);
    assert(message@ =~= start@ + text::shown_text(path@) + because(reason@));
    ApiError::new("destination_error", message.as_str())
}

impl Reservation {
    pub open spec fn wf(&self) -> bool {
        is_sound(self@)
    }

    /// Begins to reserve a place for the components of a path below a root.
    pub fn begin(root: Vec<u8>, names: Vec<String>) -> (r: Reservation)
        requires
            names@.len() > 0,
        ensures
            r@ == begun(root@, text::texts(names@)),
            r.wf(),
    {
        let directory = paths::owned(root.as_slice());
        let mut r = Reservation {
            root,
            names,
            level: 0,
            directory,
            stage: Stage::Inspecting,
            attempt: 0,
        };
        r.enter();
        r
    }

    /// Goes to the next directory, or to the file where no directory is left.
    fn enter(&mut self)
        requires
            is_sound(old(self)@),
        ensures
            final(self)@ == entered(old(self)@),
            is_sound(final(self)@),
    {
        if self.names.len() - self.level > 1 {
            assert(text::texts(self.names@)[self.level as int] == self.names@[self.level as int]@);
            self.directory = paths::join(
                self.directory.as_slice(),
                self.names[self.level].as_str().as_bytes(),
            );
            self.level = self.level + 1;
            self.stage = Stage::Inspecting;
        } else {
            self.stage = Stage::Opening;
        }
    }

    fn candidate_name(&self) -> (name: String)
        requires
            is_sound(self@),
        ensures
            name@ == candidate(self@.names.last(), self@.attempt),
    {
        let last: usize = self.names.len() - 1;
        assert(text::texts(self.names@)[last as int] == self.names@[last as int]@);
        if self.attempt == 0 {
            self.names[last].clone()
        } else {
            files::counted_name(self.names[last].as_str(), self.attempt)
        }
    }

    fn candidate_at(&self) -> (path: Vec<u8>)
        requires
            is_sound(self@),
        ensures
            path@ == candidate_path(self@),
    {
        let name = self.candidate_name();
        paths::join(self.directory.as_slice(), name.as_str().as_bytes())
    }

    /// What is to be done next.
    pub fn action(&self) -> (action: Action)
        requires
            self.wf(),
        ensures
            action@ == wanted(self@),
    {
        match self.stage {
            Stage::Inspecting => Action::Inspect { path: paths::owned(self.directory.as_slice()) },
            Stage::Creating => Action::CreateDirectory {
                path: paths::owned(self.directory.as_slice()),
            },
            Stage::Resolving => Action::Resolve { path: paths::owned(self.directory.as_slice()) },
            Stage::Opening => Action::CreateFile { path: self.candidate_at() },
        }
    }

    /// Takes what came of the action. The path is handed out once it is reserved.
    pub fn advance(&mut self, event: Event) -> (r: ApiResult<Option<Vec<u8>>>)
        requires
            old(self).wf(),
            answers(old(self)@.stage, event@),
        ensures
            final(self).wf(),
            match advanced(old(self)@, event@) {
                Ok((next, path)) => {
                    &&& final(self)@ == next
                    &&& r is Ok
                    &&& paths::opt_bytes(r->Ok_0) == path
                },
                Err(error) => r is Err && r->Err_0@ == error && final(self)@ == old(self)@,
            },
    {
        match self.stage {
            Stage::Inspecting => match event {
                Event::FoundLink => {
                    let shown = text::text_from_lossy(self.directory.as_slice());
                    let message = text::join2(
                        "Destination contains a symbolic link: ",
                        shown.as_str(),
                    );
                    Err(ApiError::new("unsafe_destination", message.as_str()))
                },
                Event::FoundOther => {
                    let shown = text::text_from_lossy(self.directory.as_slice());
                    let message = text::join2(
                        "Destination component is not a directory: ",
                        shown.as_str(),
                    );
                    assert(message@ =~= "Destination component is not a directory: "@
                        + text::shown_text(self.directory@) + Seq::<char>::empty());
                    Err(ApiError::new("destination_error", message.as_str()))
                },
                Event::FoundDirectory => {
                    self.stage = Stage::Resolving;
                    Ok(None)
                },
                Event::Missing => {
                    self.stage = Stage::Creating;
                    Ok(None)
                },
                Event::Failed { reason } => Err(
                    path_failure("Could not inspect ", self.directory.as_slice(), reason.as_str()),
                ),
                _ => Ok(None),
            },
            Stage::Creating => match event {
                Event::Created => {
                    self.stage = Stage::Resolving;
                    Ok(None)
                },
                Event::Failed { reason } => Err(
                    path_failure("Could not create ", self.directory.as_slice(), reason.as_str()),
                ),
                _ => Ok(None),
            },
            Stage::Resolving => match event {
                Event::Resolved { path } => {
                    if paths::within(path.as_slice(), self.root.as_slice()) {
                        self.enter();
                        Ok(None)
                    } else {
                        Err(
                            ApiError::new(
                                "unsafe_destination",
                                "Destination path escapes the download directory",
                            ),
                        )
                    }
                },
                Event::Failed { reason } => Err(
                    path_failure("Could not resolve ", self.directory.as_slice(), reason.as_str()),
                ),
                _ => Ok(None),
            },
            Stage::Opening => match event {
                Event::Created => Ok(Some(self.candidate_at())),
                Event::Exists => {
                    if self.attempt + 1 < MAX_ATTEMPTS {
                        self.attempt = self.attempt + 1;
                        Ok(None)
                    } else {
                        let last: usize = self.names.len() - 1;
                        assert(text::texts(self.names@)[last as int] == self.names@[last as int]@);
                        let message = text::join2(
                            "Could not find a unique name for ",
                            self.names[last].as_str(),
                        );
                        Err(ApiError::new("destination_error", message.as_str()))
                    }
                },
                Event::Failed { reason } => {
                    let path = self.candidate_at();
                    Err(path_failure("Could not reserve ", path.as_slice(), reason.as_str()))
                },
                _ => Ok(None),
            },
        }
    }
}

/// Names that `sanitize` may make of components.
pub open spec fn are_made_safe<F: Fn(&str) -> String>(
    sanitize: F,
    components: Seq<Seq<char>>,
    names: Seq<String>,
) -> bool {
    &&& names.len() == components.len()
    &&& forall|i: int|
        0 <= i < names.len() ==> files::is_made_safe(sanitize, components[i], #[trigger] names[i])
}

/// Begins to reserve a place for a file that a peer sends, by the name that the peer gives it.
/// Each component of the name is made safe by `sanitize`.
pub fn reserve_unique_destination(
    destination: Vec<u8>,
    name: &str,
    sanitize: impl Fn(&str) -> String,
) -> (r: ApiResult<Reservation>)
    requires
        forall|component: &str| call_requires(sanitize, (component,)),
    ensures
        match files::components_of(name@) {
            Ok(components) => {
                &&& r is Ok
                &&& (r->Ok_0).wf()
                &&& exists|names: Seq<String>| #[trigger]
                    are_made_safe(sanitize, components, names) && (r->Ok_0)@ == begun(
                        destination@,
                        text::texts(names),
                    )
            },
            Err(error) => r is Err && r->Err_0@ == error,
        },
{
    match files::sanitize_relative_name(name, sanitize) {
        Ok(names) => {
            assert(are_made_safe(sanitize, files::components_of(name@)->Ok_0, names@));
            Ok(Reservation::begin(destination, names))
        },
        Err(error) => Err(error),
    }
}

/// A relative component, which stays where it is put.
pub open spec fn is_relative(name: Seq<char>) -> bool {
    name.len() > 0 ==> name[0] != '/'
}

proof fn lemma_relative_bytes(name: Seq<char>)
    requires
        is_relative(name),
    ensures
        !paths::is_absolute(encode_utf8(name)),
{
    if name.len() > 0 {
        let first = name[0];
        let c = first as u32;
        char_is_scalar(first);
        char_u32_cast(first, c);
        assert(c != 47);
        assert(encode_utf8(name)[0] == encode_scalar(c)[0]);
        if has_width_1_encoding(c) {
            assert((c & 0x7F) as u8 != 47) by (bit_vector)
                requires
                    c != 47,
                    c <= 0x7F,
            ;
        } else {
            assert(0xC0 | ((c >> 6) & 0x1F) as u8 != 47) by (bit_vector);
            assert(0xE0 | ((c >> 12) & 0x0F) as u8 != 47) by (bit_vector);
            assert(0xF0 | ((c >> 18) & 0x7) as u8 != 47) by (bit_vector);
        }
    }
}

/// The directories of a reservation lie below the root.
proof fn lemma_directory_below(root: Seq<u8>, names: Seq<Seq<char>>, level: nat)
    requires
        paths::is_absolute(root),
        level <= names.len(),
        forall|i: int| 0 <= i < names.len() ==> is_relative(#[trigger] names[i]),
    ensures
        paths::is_absolute(directory_at(root, names, level)),
        paths::is_within(directory_at(root, names, level), root),
    decreases level,
{
    if level == 0 {
        assert(paths::components(root).take(paths::components(root).len() as int)
            =~= paths::components(root));
    } else {
        let above = directory_at(root, names, (level - 1) as nat);
        lemma_directory_below(root, names, (level - 1) as nat);
        lemma_relative_bytes(names[level - 1]);
        paths::lemma_joined_components(above, encode_utf8(names[level - 1]));
        paths::lemma_within_transitive(directory_at(root, names, level), above, root);
    }
}

/// Whatever a reservation asks for, it asks for at or below the download directory.
pub proof fn lemma_stays_below_root(r: ReservationView)
    requires
        is_sound(r),
        paths::is_absolute(r.root),
        forall|i: int| 0 <= i < r.names.len() ==> is_relative(#[trigger] r.names[i]),
    ensures
        match wanted(r) {
            ActionView::Inspect { path } => paths::is_within(path, r.root),
            ActionView::CreateDirectory { path } => paths::is_within(path, r.root),
            ActionView::Resolve { path } => paths::is_within(path, r.root),
            ActionView::CreateFile { path } => paths::is_within(path, r.root),
        },
{
    lemma_directory_below(r.root, r.names, r.level);
    let last = r.names.last();
    let name = candidate(last, r.attempt);
    assert(is_relative(r.names[r.names.len() - 1]));
    assert(is_relative(name)) by {
        files::lemma_last_dot(last);
        reveal_strlit(" (");
    }
    lemma_relative_bytes(name);
    paths::lemma_joined_components(r.directory, encode_utf8(name));
    paths::lemma_within_transitive(candidate_path(r), r.directory, r.root);
}

/// No name is tried twice.
pub proof fn lemma_candidates_differ(name: Seq<char>, a: nat, b: nat)
    requires
        a != b,
    ensures
        candidate(name, a) != candidate(name, b),
{
    if a == 0 {
        files::lemma_counted_differs(name, b);
    } else if b == 0 {
        files::lemma_counted_differs(name, a);
    } else if files::counted(name, a) == files::counted(name, b) {
        files::lemma_counted_injective(name, a, b);
    }
}

/// What a reservation does not depend on an event for, it keeps: the root and the components. A
/// path that is handed out is the one that was asked for last.
pub proof fn lemma_advance_keeps(r: ReservationView, event: EventView)
    requires
        is_sound(r),
        advanced(r, event) is Ok,
    ensures
        is_sound((advanced(r, event)->Ok_0).0),
        (advanced(r, event)->Ok_0).0.root == r.root,
        (advanced(r, event)->Ok_0).0.names == r.names,
        (advanced(r, event)->Ok_0).1 is Some ==> wanted(r) == (ActionView::CreateFile {
            path: (advanced(r, event)->Ok_0).1->0,
        }),
{
}

/// What a reservation of the last component comes to where the given paths are taken: the first
/// name that is free, from the next attempt on.
pub open spec fn settled_on(r: ReservationView, taken: Set<Seq<u8>>) -> Result<
    Seq<u8>,
    rpc::ApiErrorView,
>
    decreases MAX_ATTEMPTS - r.attempt,
{
    let event = if taken.contains(candidate_path(r)) {
        EventView::Exists
    } else {
        EventView::Created
    };
    match advanced(r, event) {
        Err(error) => Err(error),
        Ok((_, Some(path))) => Ok(path),
        Ok((next, None)) => if r.attempt < next.attempt <= MAX_ATTEMPTS {
            settled_on(next, taken)
        } else {
            Err(rpc::api_error(Seq::empty(), Seq::empty()))
        },
    }
}

/// The path of an attempt.
pub open spec fn attempt_path(r: ReservationView, attempt: nat) -> Seq<u8> {
    candidate_path(ReservationView { attempt, ..r })
}

/// A reservation takes the first name that is free, and fails only where all ten thousand names
/// are taken.
pub proof fn lemma_takes_first_free(r: ReservationView, taken: Set<Seq<u8>>)
    requires
        is_sound(r),
        r.stage == Stage::Opening,
    ensures
        match settled_on(r, taken) {
            Ok(path) => exists|k: nat|
                r.attempt <= k < MAX_ATTEMPTS && path == #[trigger] attempt_path(r, k)
                    && !taken.contains(path) && forall|j: nat|
                    r.attempt <= j < k ==> taken.contains(#[trigger] attempt_path(r, j)),
            Err(error) => {
                &&& error == rpc::api_error(
                    "destination_error"@,
                    "Could not find a unique name for "@ + r.names.last(),
                )
                &&& forall|j: nat|
                    r.attempt <= j < MAX_ATTEMPTS ==> taken.contains(
                        #[trigger] attempt_path(r, j),
                    )
            },
        },
    decreases MAX_ATTEMPTS - r.attempt,
{
    assert(attempt_path(r, r.attempt) == candidate_path(r));
    if taken.contains(candidate_path(r)) && r.attempt + 1 < MAX_ATTEMPTS {
        let next = ReservationView { attempt: r.attempt + 1, ..r };
        assert(advanced(r, EventView::Exists) == Ok::<_, rpc::ApiErrorView>(
            (next, None::<Seq<u8>>),
        ));
        lemma_takes_first_free(next, taken);
        assert forall|k: nat| #[trigger] attempt_path(next, k) == attempt_path(r, k) by {}
        match settled_on(next, taken) {
            Ok(path) => {
                let k = choose|k: nat|
                    next.attempt <= k < MAX_ATTEMPTS && path == #[trigger] attempt_path(next, k)
                        && !taken.contains(path) && forall|j: nat|
                        next.attempt <= j < k ==> taken.contains(#[trigger] attempt_path(next, j));
                assert forall|j: nat| r.attempt <= j < k implies taken.contains(
                    #[trigger] attempt_path(r, j),
                ) by {
                    if j > r.attempt {
                        assert(taken.contains(attempt_path(next, j)));
                    }
                }
                assert(path == attempt_path(r, k));
            },
            Err(_) => {
                assert forall|j: nat| r.attempt <= j < MAX_ATTEMPTS implies taken.contains(
                    #[trigger] attempt_path(r, j),
                ) by {
                    if j > r.attempt {
                        assert(taken.contains(attempt_path(next, j)));
                    }
                }
            },
        }
    }
}

} // verus!
