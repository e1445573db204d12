//! Files that are sent, and the names under which received files are stored.
use crate::ids;
use crate::model;
use crate::model::FileDto;
use crate::offer;
use crate::rpc;
use crate::rpc::{ApiError, ApiResult};
use crate::text;
use std::sync::Arc;
use vstd::prelude::*;
use vstd::string::*;

verus! {

/// Most components of a stored path, and most levels of a selected directory.
pub const MAX_RECURSION_DEPTH: usize = 16;

/// Most files that are sent at once.
pub const MAX_SELECTED_FILES: usize = 512;

/// Longest name of a received file, in bytes.
pub const MAX_RELATIVE_NAME_BYTES: usize = 4096;

/// Where the contents of a file that is sent come from: a file that must still be the one that was
/// selected, or bytes at hand.
#[derive(Clone, Debug)]
pub enum OutgoingSource {
    Path { path: String, device: u64, inode: u64, size: u64 },
    Bytes(Arc<Vec<u8>>),
}

#[verifier::ext_equal]
pub enum SourceView {
    Path { path: Seq<char>, device: u64, inode: u64, size: u64 },
    Bytes(Seq<u8>),
}

impl View for OutgoingSource {
    type V = SourceView;

    open spec fn view(&self) -> SourceView {
        match self {
            OutgoingSource::Path { path, device, inode, size } => SourceView::Path {
                path: path@,
                device: *device,
                inode: *inode,
                size: *size,
            },
            OutgoingSource::Bytes(bytes) => SourceView::Bytes(bytes@),
        }
    }
}

/// A file that is sent.
#[derive(Clone, Debug)]
pub struct OutgoingItem {
    pub file: FileDto,
    pub source: OutgoingSource,
    pub source_path: Option<String>,
}

#[verifier::ext_equal]
pub struct ItemView {
    pub file: model::FileDtoView,
    pub source: SourceView,
    pub source_path: Option<Seq<char>>,
}

impl View for OutgoingItem {
    type V = ItemView;

    open spec fn view(&self) -> ItemView {
        ItemView {
            file: self.file@,
            source: self.source@,
            source_path: text::opt_text(self.source_path),
        }
    }
}

/// The model of an item or of the error that came in its place.
pub open spec fn item_outcome(item: ApiResult<OutgoingItem>) -> Result<
    ItemView,
    rpc::ApiErrorView,
> {
    match item {
        Ok(item) => Ok(item@),
        Err(error) => Err(error@),
    }
}

/// A text as a file under an identifier.
pub open spec fn text_file(text: Seq<char>, id: Seq<char>) -> ItemView {
    ItemView {
        file: model::FileDtoView {
            id,
            file_name: id + ".txt"@,
            size: text::byte_len(text) as u64,
            file_type: "text/plain"@,
            sha256: None,
            preview: Some(text),
            metadata: None,
        },
        source: SourceView::Bytes(vstd::utf8::encode_utf8(text)),
        source_path: None,
    }
}

/// What sending a text comes to: it must not be empty nor longer than the limit.
pub open spec fn text_outcome(text: Seq<char>, id: Seq<char>) -> Result<
    ItemView,
    rpc::ApiErrorView,
> {
    if text.len() == 0 {
        Err(rpc::api_error("empty_text"@, "Text must not be empty"@))
    } else if text::byte_len(text) > offer::MAX_TEXT_BYTES {
        Err(rpc::api_error("text_too_large"@, "Text is limited to 524288 UTF-8 bytes"@))
    } else {
        Ok(text_file(text, id))
    }
}

/// A text as an item to send, under the given identifier.
pub fn text_item_with_id(message: String, id: &str) -> (item: ApiResult<OutgoingItem>)
    ensures
        item_outcome(item) == text_outcome(message@, id@),
{
    if message.as_str().is_empty() {
        return Err(ApiError::new("empty_text", "Text must not be empty"));
    }
    let len: usize = text::text_bytes(message.as_str());
    if len > offer::MAX_TEXT_BYTES {
        return Err(ApiError::new("text_too_large", "Text is limited to 524288 UTF-8 bytes"));
    }
    let bytes = message.as_str().as_bytes_vec();
    Ok(
        OutgoingItem {
            file: FileDto {
                id: id.to_string(),
                file_name: text::join2(id, ".txt"),
                size: len as u64,
                file_type: "text/plain".to_string(),
                sha256: None,
                preview: Some(message),
                metadata: None,
            },
            source: OutgoingSource::Bytes(Arc::new(bytes)),
            source_path: None,
        },
    )
}

/// A text as an item to send, under a fresh identifier.
pub fn text_item(message: String) -> (item: ApiResult<OutgoingItem>)
    ensures
        exists|id: Seq<char>|
            ids::is_hyphenated_uuid(id) && item_outcome(item) == #[trigger] text_outcome(
                message@,
                id,
            ),
{
    let id = ids::fresh_id();
    text_item_with_id(message, id.as_str())
}

/// A text that is sent is one that the receiver takes as a whole from the offer: nothing is left
/// to transfer.
pub proof fn lemma_text_is_embedded(message: Seq<char>, id: Seq<char>)
    requires
        text_outcome(message, id) is Ok,
    ensures
        offer::embedded_text(
            seq![model::EntryView { key: id, file: text_file(message, id).file }],
        ) == Some(message),
{
    let file = text_file(message, id).file;
    assert(offer::is_text_type("text/plain"@)) by {
        reveal_strlit("text/plain");
        reveal_strlit("text/");
        assert("text/plain"@.take(5) =~= "text/"@);
    }
    vstd::utf8::encode_utf8_first_scalar(message);
    assert(text::byte_len(message) != 0);
    assert(file.size as nat == text::byte_len(message));
}

/// The place of the last dot of a name, or -1.
pub open spec fn last_dot(name: Seq<char>) -> int
    decreases name.len(),
{
    if name.len() == 0 {
        -1
    } else if name.last() == '.' {
        name.len() - 1
    } else {
        last_dot(name.drop_last())
    }
}

pub open spec fn counter(index: nat) -> Seq<char> {
    " ("@ + text::decimal_text(index) + ")"@
}

/// A name with a number: in front of the extension where the name has one behind a stem, else at
/// the end.
pub open spec fn counted(name: Seq<char>, index: nat) -> Seq<char> {
    let dot = last_dot(name);
    if dot > 0 {
        name.take(dot) + counter(index) + name.skip(dot)
    } else {
        name + counter(index)
    }
}

pub proof fn lemma_last_dot(name: Seq<char>)
    ensures
        -1 <= last_dot(name) < name.len(),
        last_dot(name) >= 0 ==> name[last_dot(name)] == '.',
        forall|i: int| last_dot(name) < i < name.len() ==> name[i] != '.',
    decreases name.len(),
{
    if name.len() > 0 && name.last() != '.' {
        let shorter = name.drop_last();
        lemma_last_dot(shorter);
        assert forall|i: int| last_dot(name) < i < name.len() implies name[i] != '.' by {
            if i < name.len() - 1 {
                assert(shorter[i] != '.');
            }
        }
    }
}

/// The name with which a file is stored when `index` others have taken the names before it.
pub fn counted_name(name: &str, index: u32) -> (r: String)
    ensures
        r@ == counted(name@, index as nat),
{
    let chars = text::chars_of(name);
    let mut end: usize = chars.len();
    proof {
        assert(name@.take(name@.len() as int) =~= name@);
        lemma_last_dot(name@);
    }
    while end > 0 && chars[end - 1] != '.'
        invariant
            chars@ == name@,
            end <= chars@.len(),
            last_dot(name@) == last_dot(name@.take(end as int)),
        decreases end,
    {
        assert(name@.take(end as int).drop_last() =~= name@.take(end - 1));
        end -= 1;
    }
    let number = text::decimal(index as u64);
    let mark = text::join3(" (", number.as_str(), ")");
    if end > 1 {
        let dot: usize = end - 1;
        let stem = name.substring_char(0, dot);
        let rest = name.substring_char(dot, chars.len());
        let r = text::join3(stem, mark.as_str(), rest);
        proof {
            assert(last_dot(name@) == dot);
            assert(stem@ =~= name@.take(dot as int));
            assert(rest@ =~= name@.skip(dot as int));
        }
        r
    } else {
        text::join2(name, mark.as_str())
    }
}

/// A number makes a name longer, so that a counted name is never the name itself.
pub proof fn lemma_counted_differs(name: Seq<char>, index: nat)
    ensures
        counted(name, index) != name,
{
    reveal_strlit(" (");
    reveal_strlit(")");
    lemma_last_dot(name);
    assert(counter(index).len() >= 3);
    assert(counted(name, index).len() == name.len() + counter(index).len());
}

/// Different numbers give different names.
pub proof fn lemma_counted_injective(name: Seq<char>, a: nat, b: nat)
    requires
        counted(name, a) == counted(name, b),
    ensures
        a == b,
{
    reveal_strlit(" (");
    reveal_strlit(")");
    lemma_last_dot(name);
    let dot = last_dot(name);
    let x = counted(name, a);
    let y = counted(name, b);
    let start = if dot > 0 {
        dot
    } else {
        name.len() as int
    };
    assert(x.len() == name.len() + counter(a).len());
    assert(y.len() == name.len() + counter(b).len());
    assert(x.subrange(start, start + counter(a).len()) =~= counter(a));
    assert(y.subrange(start, start + counter(b).len()) =~= counter(b));
    let n = counter(a).len() as int;
    assert(counter(a).subrange(2, n - 1) =~= text::decimal_text(a));
    assert(counter(b).subrange(2, n - 1) =~= text::decimal_text(b));
    text::lemma_decimal_injective(a, b);
}

/// True of the characters that separate the components of a name that a peer sends.
pub open spec fn at_slash() -> spec_fn(char) -> bool {
    |c: char| c == '/' || c == '\\'
}

/// A name that starts at a root or at a drive.
pub open spec fn is_rooted(name: Seq<char>) -> bool {
    ||| name.len() > 0 && (name[0] == '/' || name[0] == '\\')
    ||| name.len() > 1 && name[1] == ':' && ('a' <= name[0] <= 'z' || 'A' <= name[0] <= 'Z')
}

/// The components among the pieces of a name: those that are not empty and not `.`.
pub open spec fn named_among(pieces: Seq<Seq<char>>) -> Seq<Seq<char>>
    decreases pieces.len(),
{
    if pieces.len() == 0 {
        Seq::empty()
    } else if pieces.last().len() == 0 || pieces.last() == "."@ {
        named_among(pieces.drop_last())
    } else {
        named_among(pieces.drop_last()).push(pieces.last())
    }
}

pub open spec fn unsafe_name(message: Seq<char>) -> rpc::ApiErrorView {
    rpc::api_error("unsafe_file_name"@, message)
}

/// The complaint about the first piece that leads to a parent or is one too many.
pub open spec fn piece_complaint(pieces: Seq<Seq<char>>) -> Option<Seq<char>>
    decreases pieces.len(),
{
    if pieces.len() == 0 {
        None
    } else if piece_complaint(pieces.drop_last()) is Some {
        piece_complaint(pieces.drop_last())
    } else if pieces.last() == ".."@ {
        Some("Parent path components are not accepted"@)
    } else if named_among(pieces).len() > MAX_RECURSION_DEPTH {
        Some("File path contains too many components"@)
    } else {
        None
    }
}

/// The components under which a name is stored. A name without components has an empty one.
pub open spec fn components_of(name: Seq<char>) -> Result<Seq<Seq<char>>, rpc::ApiErrorView> {
    let pieces = text::pieces(name, at_slash());
    if text::byte_len(name) > MAX_RELATIVE_NAME_BYTES {
        Err(unsafe_name("File name is too long"@))
    } else if is_rooted(name) {
        Err(unsafe_name("Absolute file names are not accepted"@))
    } else {
        match piece_complaint(pieces) {
            Some(message) => Err(unsafe_name(message)),
            None => if named_among(pieces).len() == 0 {
                Ok(seq![Seq::empty()])
            } else {
                Ok(named_among(pieces))
            },
        }
    }
}

pub open spec fn texts_outcome(list: ApiResult<Vec<String>>) -> Result<
    Seq<Seq<char>>,
    rpc::ApiErrorView,
> {
    match list {
        Ok(list) => Ok(text::texts(list@)),
        Err(error) => Err(error@),
    }
}

/// A piece that may be stored: not a way up, and not cut by a separator.
pub open spec fn is_safe_component(piece: Seq<char>) -> bool {
    &&& piece != "."@
    &&& piece != ".."@
    &&& text::is_uncut(piece, at_slash())
}

fn unsafe_error(message: &str) -> (error: ApiError)
    ensures
        error@ == unsafe_name(message@),
{
    ApiError::new("unsafe_file_name", message)
}

/// Takes the next piece of a name: keeps it if it names a component, and complains if it leads to
/// a parent or is one too many.
fn take_piece(components: &mut Vec<String>, piece: &str, Ghost(before): Ghost<Seq<Seq<char>>>) -> (r:
    ApiResult<()>)
    requires
        text::texts(old(components)@) == named_among(before),
        piece_complaint(before) is None,
    ensures
        rpc::verdict(r) == (match piece_complaint(before.push(piece@)) {
            Some(message) => Err(unsafe_name(message)),
            None => Ok(()),
        }),
        r is Ok ==> text::texts(final(components)@) == named_among(before.push(piece@)),
{
    proof {
        assert(before.push(piece@).drop_last() =~= before);
        reveal_strlit(".");
        reveal_strlit("..");
    }
    if piece.is_empty() || text::same_text(piece, ".") {
        return Ok(());
    }
    if text::same_text(piece, "..") {
        return Err(unsafe_error("Parent path components are not accepted"));
    }
    components.push(piece.to_string());
    proof {
        assert(text::texts(components@) =~= text::texts(old(components)@).push(piece@));
    }
    if components.len() > MAX_RECURSION_DEPTH {
        return Err(unsafe_error("File path contains too many components"));
    }
    Ok(())
}

fn rooted(chars: &Vec<char>) -> (r: bool)
    ensures
        r == is_rooted(chars@),
{
    if chars.len() > 0 && (chars[0] == '/' || chars[0] == '\\') {
        return true;
    }
    chars.len() > 1 && chars[1] == ':' && (('a' <= chars[0] && chars[0] <= 'z') || ('A' <= chars[0]
        && chars[0] <= 'Z'))
}

proof fn lemma_complaint_stays(list: Seq<Seq<char>>, n: int)
    requires
        0 <= n <= list.len(),
        piece_complaint(list.take(n)) is Some,
    ensures
        piece_complaint(list) == piece_complaint(list.take(n)),
    decreases list.len() - n,
{
    if n == list.len() {
        assert(list.take(n) =~= list);
    } else {
        assert(list.take(n + 1).drop_last() =~= list.take(n));
        lemma_complaint_stays(list, n + 1);
    }
}

/// All pieces but the last stay as they are when more characters follow.
proof fn lemma_pieces_prefix(name: Seq<char>, n: int)
    requires
        0 <= n <= name.len(),
    ensures
        ({
            let part = text::pieces(name.take(n), at_slash());
            let all = text::pieces(name, at_slash());
            &&& 0 < part.len() <= all.len()
            &&& all.take(part.len() - 1) == part.drop_last()
        }),
    decreases name.len() - n,
{
    let part = text::pieces(name.take(n), at_slash());
    text::lemma_pieces(name.take(n), at_slash());
    if n == name.len() {
        assert(name.take(n) =~= name);
        assert(part.take(part.len() - 1) =~= part.drop_last());
    } else {
        lemma_pieces_prefix(name, n + 1);
        let next = text::pieces(name.take(n + 1), at_slash());
        let all = text::pieces(name, at_slash());
        assert(name.take(n + 1).drop_last() =~= name.take(n));
        assert(next.drop_last().take(part.len() - 1) =~= part.drop_last());
        assert(all.take(next.len() - 1).take(part.len() - 1) =~= all.take(part.len() - 1));
    }
}

/// Splits the name of a received file into the components under which it is stored.
pub fn relative_components(name: &str) -> (r: ApiResult<Vec<String>>)
    ensures
        texts_outcome(r) == components_of(name@),
{
    if text::text_bytes(name) > MAX_RELATIVE_NAME_BYTES {
        return Err(unsafe_error("File name is too long"));
    }
    let chars = text::chars_of(name);
    if rooted(&chars) {
        return Err(unsafe_error("Absolute file names are not accepted"));
    }
    let ghost cut = at_slash();
    let ghost all = text::pieces(name@, cut);
    let mut components: Vec<String> = Vec::new();
    let mut start: usize = 0;
    proof {
        assert(name@.take(0) =~= Seq::<char>::empty());
        assert(text::pieces(name@.take(0), cut).drop_last() =~= Seq::<Seq<char>>::empty());
        assert(text::texts(components@) =~= Seq::<Seq<char>>::empty());
        assert(name@.subrange(0, 0) =~= Seq::<char>::empty());
    }
    for i in 0..chars.len()
        invariant
            chars@ == name@,
            cut == at_slash(),
            all == text::pieces(name@, cut),
            start <= i,
            text::byte_len(name@) <= MAX_RELATIVE_NAME_BYTES,
            !is_rooted(name@),
            text::pieces(name@.take(i as int), cut).len() > 0,
            text::pieces(name@.take(i as int), cut).last() == name@.subrange(
                start as int,
                i as int,
            ),
            text::texts(components@) == named_among(
                text::pieces(name@.take(i as int), cut).drop_last(),
            ),
            piece_complaint(text::pieces(name@.take(i as int), cut).drop_last()) is None,
    {
        let ghost before = text::pieces(name@.take(i as int), cut);
        let ghost after = text::pieces(name@.take(i + 1), cut);
        proof {
            assert(name@.take(i + 1).drop_last() =~= name@.take(i as int));
            assert(name@.take(i + 1).last() == chars@[i as int]);
        }
        if chars[i] == '/' || chars[i] == '\\' {
            let piece = name.substring_char(start, i);
            proof {
                assert(before.drop_last().push(piece@) =~= before);
                assert(after.drop_last() =~= before);
            }
            if let Err(error) = take_piece(&mut components, piece, Ghost(before.drop_last())) {
                proof {
                    lemma_pieces_prefix(name@, i + 1);
                    assert(all.take(after.len() - 1) == before);
                    lemma_complaint_stays(all, before.len() as int);
                }
                return Err(error);
            }
            start = i + 1;
            assert(name@.subrange(start as int, i + 1) =~= Seq::<char>::empty());
        } else {
            assert(after.drop_last() =~= before.drop_last());
            assert(name@.subrange(start as int, i + 1) =~= name@.subrange(start as int, i as int).push(
                chars@[i as int],
            ));
        }
    }
    let piece = name.substring_char(start, chars.len());
    proof {
        assert(name@.take(name@.len() as int) =~= name@);
        assert(all.drop_last().push(piece@) =~= all);
    }
    if let Err(error) = take_piece(&mut components, piece, Ghost(all.drop_last())) {
        return Err(error);
    }
    if components.len() == 0 {
        components.push("".to_string());
        proof {
            reveal_strlit("");
            assert(""@ =~= Seq::<char>::empty());
            assert(text::texts(components@) =~= seq![Seq::<char>::empty()]);
        }
    }
    Ok(components)
}

/// The pieces that name a component stand among the pieces.
proof fn lemma_named_among(pieces: Seq<Seq<char>>)
    requires
        piece_complaint(pieces) is None,
        forall|i: int| 0 <= i < pieces.len() ==> text::is_uncut(#[trigger] pieces[i], at_slash()),
    ensures
        named_among(pieces).len() <= MAX_RECURSION_DEPTH,
        forall|i: int|
            0 <= i < named_among(pieces).len() ==> {
                &&& is_safe_component(#[trigger] named_among(pieces)[i])
                &&& named_among(pieces)[i].len() > 0
            },
    decreases pieces.len(),
{
    if pieces.len() > 0 {
        let shorter = pieces.drop_last();
        assert forall|i: int| 0 <= i < shorter.len() implies text::is_uncut(
            #[trigger] shorter[i],
            at_slash(),
        ) by {
            assert(shorter[i] == pieces[i]);
        }
        lemma_named_among(shorter);
        assert(text::is_uncut(pieces[pieces.len() - 1], at_slash()));
    }
}

/// No name leads out of the directory that it is stored in: it has one to sixteen components, and
/// none of them is `.` or `..` or holds a separator.
pub proof fn lemma_components_stay_inside(name: Seq<char>)
    requires
        components_of(name) is Ok,
    ensures
        1 <= (components_of(name)->Ok_0).len() <= MAX_RECURSION_DEPTH,
        forall|i: int|
            0 <= i < (components_of(name)->Ok_0).len() ==> is_safe_component(
                #[trigger] (components_of(name)->Ok_0)[i],
            ),
{
    reveal_strlit(".");
    reveal_strlit("..");
    text::lemma_pieces(name, at_slash());
    lemma_named_among(text::pieces(name, at_slash()));
    let list = components_of(name)->Ok_0;
    assert forall|i: int| 0 <= i < list.len() implies is_safe_component(#[trigger] list[i]) by {
        if named_among(text::pieces(name, at_slash())).len() == 0 {
            assert(list[i].len() == 0);
            assert("."@.len() == 1 && ".."@.len() == 2);
        }
    }
}

/// `sanitize` may make `safe` of a component.
pub open spec fn is_made_safe<F: Fn(&str) -> String>(
    sanitize: F,
    component: Seq<char>,
    safe: String,
) -> bool {
    exists|argument: &str|
        argument@ == component && #[trigger] call_ensures(sanitize, (argument,), safe)
}

/// The components under which a received file is stored, each made safe by `sanitize`.
pub fn sanitize_relative_name(name: &str, sanitize: impl Fn(&str) -> String) -> (r: ApiResult<
    Vec<String>,
>)
    requires
        forall|component: &str| call_requires(sanitize, (component,)),
    ensures
        match r {
            Ok(list) => {
                &&& components_of(name@) is Ok
                &&& list@.len() == (components_of(name@)->Ok_0).len()
                &&& list@.len() > 0
                &&& forall|i: int|
                    0 <= i < list@.len() ==> is_made_safe(
                        sanitize,
                        (components_of(name@)->Ok_0)[i],
                        #[trigger] list@[i],
                    )
            },
            Err(error) => components_of(name@) == Err::<Seq<Seq<char>>, _>(error@),
        },
{
    let components = match relative_components(name) {
        Ok(components) => components,
        Err(error) => {
            return Err(error);
        },
    };
    proof {
        lemma_components_stay_inside(name@);
    }
    let ghost raw = text::texts(components@);
    let mut list: Vec<String> = Vec::new();
    for i in 0..components.len()
        invariant
            raw == text::texts(components@),
            forall|component: &str| call_requires(sanitize, (component,)),
            list@.len() == i,
            forall|j: int| 0 <= j < i ==> is_made_safe(sanitize, raw[j], #[trigger] list@[j]),
    {
        let component = components[i].as_str();
        assert(raw[i as int] == component@);
        let safe = sanitize(component);
        assert(is_made_safe(sanitize, raw[i as int], safe));
        list.push(safe);
    }
    Ok(list)
}

} // verus!