//! Laws about names and places: how a name is numbered and taken apart, and where a received file
//! is stored.
use crate::acceptance;
use crate::destination;
use crate::destination::Stage;
use crate::events;
use crate::files;
use crate::naming;
use crate::paths;
use crate::rpc;
use crate::text;
use vstd::prelude::*;
use vstd::utf8::*;

verus! {

/// The number that decimal digits stand for.
pub open spec fn value_of(digits: Seq<char>) -> int
    decreases digits.len(),
{
    if digits.len() == 0 {
        0
    } else {
        10 * value_of(digits.drop_last()) + (digits.last() as int - 48)
    }
}

/// A number is written with decimal digits that stand for it, and without needless zeros.
pub proof fn lemma_decimal_text_is_the_number(n: nat)
    ensures
        ({
            let digits = text::decimal_text(n);
            &&& value_of(digits) == n
            &&& digits.len() > 0
            &&& forall|i: int| 0 <= i < digits.len() ==> '0' <= #[trigger] digits[i] <= '9'
            &&& digits.len() > 1 ==> digits[0] != '0'
        }),
    decreases n,
{
    let digits = text::decimal_text(n);
    let last = (0x30 + n % 10) as char;
    assert(last as int == 48 + n % 10);
    assert(digits.last() == last);
    if n < 10 {
        assert(digits.drop_last() =~= Seq::<char>::empty());
        assert(value_of(digits.drop_last()) == 0);
    } else {
        let front = text::decimal_text(n / 10);
        lemma_decimal_text_is_the_number(n / 10);
        assert(digits.drop_last() =~= front);
        assert forall|i: int| 0 <= i < digits.len() implies '0' <= #[trigger] digits[i] <= '9' by {
            if i < front.len() {
                assert(digits[i] == front[i]);
            }
        }
        assert(digits[0] == front[0]);
        if front.len() == 1 {
            assert(front[0] != '0') by {
                assert(front.drop_last() =~= Seq::<char>::empty());
                assert(value_of(front.drop_last()) == 0);
                assert(value_of(front) == front[0] as int - 48);
            }
        }
    }
}

/// A name with a stem and an extension is numbered between the two: the number stands in brackets
/// behind the stem, and the extension stays what it was.
pub proof fn lemma_number_stands_before_the_extension(
    stem: Seq<char>,
    extension: Seq<char>,
    index: nat,
)
    requires
        stem.len() > 0,
        !extension.contains('.'),
    ensures
        files::counted(stem + seq!['.'] + extension, index) == stem + seq![' ', '(']
            + text::decimal_text(index) + seq![')'] + seq!['.'] + extension,
{
    let name = stem + seq!['.'] + extension;
    reveal_strlit(" (");
    reveal_strlit(")");
    assert(" ("@ =~= seq![' ', '(']);
    assert(")"@ =~= seq![')']);
    files::lemma_last_dot(name);
    let dot = files::last_dot(name);
    assert(name[stem.len() as int] == '.');
    assert(dot == stem.len()) by {
        if dot > stem.len() {
            assert(name[dot] == extension[dot - stem.len() - 1]);
            assert(extension.contains(name[dot]));
        }
    }
    assert(name.take(dot) =~= stem);
    assert(name.skip(dot) =~= seq!['.'] + extension);
    assert(files::counted(name, index) =~= stem + seq![' ', '('] + text::decimal_text(index)
        + seq![')'] + seq!['.'] + extension);
}

/// A name without an extension, or one that only begins with a dot, is numbered at its end.
pub proof fn lemma_number_stands_at_the_end(name: Seq<char>, index: nat)
    requires
        forall|i: int| 1 <= i < name.len() ==> name[i] != '.',
    ensures
        files::counted(name, index) == name + seq![' ', '('] + text::decimal_text(index)
            + seq![')'],
{
    reveal_strlit(" (");
    reveal_strlit(")");
    assert(" ("@ =~= seq![' ', '(']);
    assert(")"@ =~= seq![')']);
    files::lemma_last_dot(name);
    assert(files::counted(name, index) =~= name + seq![' ', '('] + text::decimal_text(index)
        + seq![')']);
}

/// True of a character that separates the components of a name.
pub open spec fn is_slash(c: char) -> bool {
    c == '/' || c == '\\'
}

/// True of a text that can be a component by itself.
pub open spec fn is_plain_component(piece: Seq<char>) -> bool {
    &&& piece.len() > 0
    &&& piece != seq!['.']
    &&& piece != seq!['.', '.']
    &&& forall|i: int| 0 <= i < piece.len() ==> !is_slash(#[trigger] piece[i])
}

/// True of a name that begins at a root or a drive.
pub open spec fn begins_at_a_root(name: Seq<char>) -> bool {
    ||| name.len() > 0 && is_slash(name[0])
    ||| name.len() > 1 && name[1] == ':' && ('a' <= name[0] <= 'z' || 'A' <= name[0] <= 'Z')
}

proof fn lemma_one_piece(piece: Seq<char>)
    requires
        forall|i: int| 0 <= i < piece.len() ==> !is_slash(#[trigger] piece[i]),
    ensures
        text::pieces(piece, files::at_slash()) == seq![piece],
    decreases piece.len(),
{
    if piece.len() > 0 {
        assert forall|i: int| 0 <= i < piece.drop_last().len() implies !is_slash(
            #[trigger] piece.drop_last()[i],
        ) by {
            assert(!is_slash(piece[i]));
        }
        lemma_one_piece(piece.drop_last());
        assert(!is_slash(piece[piece.len() - 1]));
        assert(piece.drop_last().push(piece.last()) =~= piece);
        assert(text::pieces(piece, files::at_slash()) =~= seq![piece]);
    } else {
        assert(piece =~= Seq::<char>::empty());
    }
}

proof fn lemma_pieces_of_slashed(list: Seq<Seq<char>>)
    requires
        list.len() > 0,
        forall|i: int| 0 <= i < list.len() ==> is_plain_component(#[trigger] list[i]),
    ensures
        text::pieces(naming::slashed(list), files::at_slash()) == list,
        files::named_among(list) == list,
        list.len() <= 16 ==> files::piece_complaint(list) is None,
    decreases list.len(),
{
    reveal_strlit(".");
    reveal_strlit("..");
    assert("."@ =~= seq!['.']);
    assert(".."@ =~= seq!['.', '.']);
    let last = list.len() - 1;
    assert(is_plain_component(list[last]));
    lemma_one_piece(list[last]);
    if list.len() == 1 {
        assert(list =~= seq![list[0]]);
        assert(list.drop_last() =~= Seq::<Seq<char>>::empty());
        assert(files::named_among(list.drop_last()) =~= Seq::<Seq<char>>::empty());
        assert(files::named_among(list) =~= list);
        assert(files::piece_complaint(list.drop_last()) is None);
    } else {
        let front = list.drop_last();
        assert forall|i: int| 0 <= i < front.len() implies is_plain_component(
            #[trigger] front[i],
        ) by {
            assert(front[i] == list[i]);
        }
        lemma_pieces_of_slashed(front);
        text::lemma_pieces_joined(
            naming::slashed(front),
            '/',
            list.last(),
            files::at_slash(),
        );
        assert(naming::slashed(list) =~= naming::slashed(front).push('/') + list.last());
        assert(front + seq![list.last()] =~= list);
        assert(files::named_among(list) =~= list);
    }
}

/// A name that is made of components with slashes between them is taken apart into exactly these
/// components, in their order.
pub proof fn lemma_components_come_apart_again(list: Seq<Seq<char>>)
    requires
        1 <= list.len() <= 16,
        forall|i: int| 0 <= i < list.len() ==> is_plain_component(#[trigger] list[i]),
        encode_utf8(naming::slashed(list)).len() <= 4096,
        !begins_at_a_root(naming::slashed(list)),
    ensures
        files::components_of(naming::slashed(list)) == Ok::<_, rpc::ApiErrorView>(list),
{
    lemma_pieces_of_slashed(list);
}

proof fn lemma_named_joined(left: Seq<Seq<char>>, right: Seq<Seq<char>>)
    ensures
        files::named_among(left + right) == files::named_among(left) + files::named_among(right),
        files::piece_complaint(left) is Some ==> files::piece_complaint(left + right) is Some,
    decreases right.len(),
{
    if right.len() == 0 {
        assert(left + right =~= left);
        assert(files::named_among(left) + files::named_among(right) =~= files::named_among(left));
    } else {
        lemma_named_joined(left, right.drop_last());
        assert((left + right).drop_last() =~= left + right.drop_last());
        assert(files::named_among(left + right) =~= files::named_among(left)
            + files::named_among(right));
    }
}

/// Two names with either kind of slash between them have the components of the first and behind
/// them those of the second. Empty components and single dots count for nothing.
pub proof fn lemma_components_add_up(left: Seq<char>, slash: char, right: Seq<char>)
    requires
        is_slash(slash),
        files::components_of(left) is Ok,
        files::components_of(right) is Ok,
        files::components_of(left.push(slash) + right) is Ok,
    ensures
        ({
            let first = files::components_of(left)->Ok_0;
            let second = files::components_of(right)->Ok_0;
            let both = files::components_of(left.push(slash) + right)->Ok_0;
            let nothing = seq![Seq::<char>::empty()];
            &&& first != nothing && second != nothing ==> both == first + second
            &&& first == nothing ==> both == second
            &&& second == nothing ==> both == first
        }),
{
    let cut = files::at_slash();
    let a = text::pieces(left, cut);
    let b = text::pieces(right, cut);
    text::lemma_pieces_joined(left, slash, right, cut);
    lemma_named_joined(a, b);
    lemma_names_are_not_empty(a);
    lemma_names_are_not_empty(b);
    let nothing = seq![Seq::<char>::empty()];
    assert(nothing[0].len() == 0);
    assert(files::named_among(a) + files::named_among(b) =~= (if files::named_among(a).len() == 0 {
        files::named_among(b)
    } else if files::named_among(b).len() == 0 {
        files::named_among(a)
    } else {
        files::named_among(a) + files::named_among(b)
    }));
}

proof fn lemma_names_are_not_empty(pieces: Seq<Seq<char>>)
    ensures
        forall|i: int|
            0 <= i < files::named_among(pieces).len() ==> (#[trigger] files::named_among(
                pieces,
            )[i]).len() > 0,
    decreases pieces.len(),
{
    if pieces.len() > 0 {
        let front = pieces.drop_last();
        lemma_names_are_not_empty(front);
        let names = files::named_among(pieces);
        assert forall|i: int| 0 <= i < names.len() implies (#[trigger] names[i]).len() > 0 by {
            if i < files::named_among(front).len() {
                assert(names[i] == files::named_among(front)[i]);
            }
        }
    }
}

/// What a name without slashes comes to: a dot or nothing is an empty component, and anything else
/// but a way up is a component by itself.
pub proof fn lemma_single_component(piece: Seq<char>)
    requires
        forall|i: int| 0 <= i < piece.len() ==> !is_slash(#[trigger] piece[i]),
        encode_utf8(piece).len() <= 4096,
        !begins_at_a_root(piece),
    ensures
        piece.len() == 0 || piece == seq!['.'] ==> files::components_of(piece) == Ok::<
            _,
            rpc::ApiErrorView,
        >(seq![Seq::<char>::empty()]),
        piece == seq!['.', '.'] ==> files::components_of(piece) is Err,
        is_plain_component(piece) ==> files::components_of(piece) == Ok::<_, rpc::ApiErrorView>(
            seq![piece],
        ),
{
    reveal_strlit(".");
    reveal_strlit("..");
    assert("."@ =~= seq!['.']);
    assert(".."@ =~= seq!['.', '.']);
    lemma_one_piece(piece);
    let list = seq![piece];
    assert(list.drop_last() =~= Seq::<Seq<char>>::empty());
    assert(list.last() == piece);
    assert(files::named_among(list.drop_last()) =~= Seq::<Seq<char>>::empty());
    assert(files::piece_complaint(list.drop_last()) is None);
    if is_plain_component(piece) {
        assert(files::named_among(list) =~= list);
    }
}

proof fn lemma_way_up_is_refused(pieces: Seq<Seq<char>>, i: int)
    requires
        0 <= i < pieces.len(),
        pieces[i] == ".."@,
    ensures
        files::piece_complaint(pieces) is Some,
    decreases pieces.len(),
{
    if i < pieces.len() - 1 {
        lemma_way_up_is_refused(pieces.drop_last(), i);
    }
}

/// A name in which a way up stands between slashes, or at an end, is refused, wherever it stands.
pub proof fn lemma_names_that_are_refused(left: Seq<char>, right: Seq<char>)
    requires
        left.len() == 0 || is_slash(left.last()),
        right.len() == 0 || is_slash(right[0]),
    ensures
        files::components_of(left + seq!['.', '.'] + right) is Err,
        files::components_of(left + seq!['.', '.'] + right)->Err_0.code == "unsafe_file_name"@,
{
    reveal_strlit("..");
    assert(".."@ =~= seq!['.', '.']);
    let up = seq!['.', '.'];
    let cut = files::at_slash();
    let whole = left + up + right;
    let head = left + up;
    lemma_one_piece(up);
    let heads = text::pieces(head, cut);
    assert(heads.len() > 0 && heads.last() == up) by {
        if left.len() == 0 {
            assert(head =~= up);
        } else {
            text::lemma_pieces_joined(left.drop_last(), left.last(), up, cut);
            assert(left.drop_last().push(left.last()) + up =~= head);
        }
    }
    let all = text::pieces(whole, cut);
    let at = heads.len() - 1;
    assert(at < all.len() && all[at] == up) by {
        if right.len() == 0 {
            assert(whole =~= head);
        } else {
            text::lemma_pieces_joined(head, right[0], right.skip(1), cut);
            assert(head.push(right[0]) + right.skip(1) =~= whole);
        }
    }
    lemma_way_up_is_refused(all, at);
}

/// A name that is too long, or that begins at a root or a drive, is refused whatever it holds, and
/// what is accepted has sixteen components at most.
pub proof fn lemma_limits_of_names(name: Seq<char>)
    ensures
        encode_utf8(name).len() > 4096 ==> files::components_of(name) is Err,
        begins_at_a_root(name) ==> files::components_of(name) is Err,
        encode_utf8(name).len() > 4096 ==> files::components_of(name)->Err_0.message
            == "File name is too long"@,
        encode_utf8(name).len() <= 4096 && begins_at_a_root(name) ==> files::components_of(
            name,
        )->Err_0.message == "Absolute file names are not accepted"@,
        files::components_of(name) is Ok ==> 1 <= files::components_of(name)->Ok_0.len() <= 16,
        files::components_of(name) is Err ==> files::components_of(name)->Err_0.code
            == "unsafe_file_name"@,
{
    if files::components_of(name) is Ok {
        files::lemma_components_stay_inside(name);
    }
}

/// Names as they stand in a path.
pub open spec fn as_bytes(names: Seq<Seq<char>>) -> Seq<Seq<u8>> {
    Seq::new(names.len(), |i: int| encode_utf8(names[i]))
}

proof fn lemma_directory_is_below(root: Seq<u8>, names: Seq<Seq<char>>, level: nat)
    requires
        level <= names.len(),
        forall|i: int|
            0 <= i < names.len() ==> !paths::is_absolute(encode_utf8(#[trigger] names[i])),
    ensures
        destination::directory_at(root, names, level) == naming::below(
            root,
            as_bytes(names.take(level as int)),
        ),
    decreases level,
{
    let list = as_bytes(names.take(level as int));
    if level > 0 {
        let above = (level - 1) as nat;
        lemma_directory_is_below(root, names, above);
        assert(list.drop_last() =~= as_bytes(names.take(above as int)));
        assert(list.last() == encode_utf8(names[above as int]));
        let directory = destination::directory_at(root, names, above);
        assert(directory + seq![47u8] =~= directory.push(47u8));
    }
}

/// The name under which an attempt stores a file: the name that was asked for, and after that the
/// name with numbers from one on.
pub open spec fn attempted(name: Seq<char>, attempt: nat) -> Seq<char> {
    if attempt == 0 {
        name
    } else {
        files::counted(name, attempt)
    }
}

/// A place that is handed out lies exactly where the components lead: below the download directory
/// through every directory of the name, in order, under the name of the file or that name with the
/// number of the attempt. It is handed out only once such a file was created.
pub proof fn lemma_place_is_where_the_name_leads(
    r: destination::ReservationView,
    event: destination::EventView,
)
    requires
        destination::is_sound(r),
        destination::answers(r.stage, event),
        destination::advanced(r, event) is Ok,
        forall|i: int|
            0 <= i < r.names.len() ==> !paths::is_absolute(encode_utf8(#[trigger] r.names[i])),
        !paths::is_absolute(encode_utf8(attempted(r.names.last(), r.attempt))),
    ensures
        ({
            let (next, place) = destination::advanced(r, event)->Ok_0;
            let names = as_bytes(r.names.drop_last()).push(
                encode_utf8(attempted(r.names.last(), r.attempt)),
            );
            &&& place is Some <==> r.stage == Stage::Opening && event is Created
            &&& place is Some ==> place->0 == naming::below(r.root, names)
            &&& place is Some ==> r.attempt < 10_000
        }),
{
    let names = as_bytes(r.names.drop_last()).push(
        encode_utf8(attempted(r.names.last(), r.attempt)),
    );
    if r.stage == Stage::Opening {
        lemma_directory_is_below(r.root, r.names, r.level);
        assert(r.names.take(r.level as int) =~= r.names.drop_last());
        assert(names.drop_last() =~= as_bytes(r.names.drop_last()));
        assert(r.directory + seq![47u8] =~= r.directory.push(47u8));
    }
}

/// A reservation goes into a directory only after that directory was found, or made, and turned out
/// to lie in the download directory. Links, and things that are no directories, stop it. A name that
/// is taken leads to the next one, and nothing but that does.
pub proof fn lemma_reservation_is_careful(
    r: destination::ReservationView,
    event: destination::EventView,
)
    requires
        destination::is_sound(r),
        destination::answers(r.stage, event),
    ensures
        ({
            let step = destination::advanced(r, event);
            let next = step->Ok_0.0;
            &&& event is FoundLink ==> step is Err && step->Err_0.code == "unsafe_destination"@
            &&& event is FoundOther || event is Failed ==> step is Err && step->Err_0.code
                == "destination_error"@
            &&& event is Resolved ==> (step is Ok <==> exists|rest: Seq<Seq<u8>>|
                paths::components(event->path) == #[trigger] (paths::components(r.root) + rest))
            &&& event is Resolved && step is Err ==> step->Err_0.code == "unsafe_destination"@
            &&& event is Exists ==> (step is Ok <==> r.attempt < 9_999)
            &&& event is Exists && step is Err ==> step->Err_0.code == "destination_error"@
            &&& event is FoundDirectory ==> step is Ok && next.stage == Stage::Resolving
            &&& event is Missing ==> step is Ok && next.stage == Stage::Creating
            &&& event is Created ==> step is Ok
            &&& event is Created && r.stage == Stage::Creating ==> next.stage == Stage::Resolving
            &&& step is Ok ==> {
                &&& next.root == r.root
                &&& next.names == r.names
                &&& next.attempt == r.attempt + (if event is Exists {
                    1int
                } else {
                    0int
                })
                &&& event is Resolved && r.level + 1 < r.names.len() ==> next.level == r.level + 1
                    && next.stage == Stage::Inspecting
                &&& event is Resolved && r.level + 1 == r.names.len() ==> next.level == r.level
                    && next.stage == Stage::Opening
                &&& !(event is Resolved) ==> next.level == r.level && next.directory == r.directory
                &&& event is Exists ==> next.stage == Stage::Opening
            }
        }),
{
    if event is Resolved {
        let path = event->path;
        let inner = paths::components(path);
        let outer = paths::components(r.root);
        if paths::is_within(path, r.root) {
            let rest = inner.skip(outer.len() as int);
            assert(inner =~= inner.take(outer.len() as int) + rest);
            assert(inner == outer + rest);
        }
        if exists|rest: Seq<Seq<u8>>| inner == #[trigger] (outer + rest) {
            let rest = choose|rest: Seq<Seq<u8>>| inner == #[trigger] (outer + rest);
            assert(inner.take(outer.len() as int) =~= outer);
        }
    }
}

/// A reservation begins at the first directory of the name, or at the file where the name has no
/// directory, and with the name as it is.
pub proof fn lemma_how_a_reservation_begins(root: Seq<u8>, names: Seq<Seq<char>>)
    requires
        names.len() > 0,
        forall|i: int|
            0 <= i < names.len() ==> !paths::is_absolute(encode_utf8(#[trigger] names[i])),
    ensures
        ({
            let r = destination::begun(root, names);
            &&& r.root == root
            &&& r.names == names
            &&& r.attempt == 0
            &&& names.len() == 1 ==> r.stage == Stage::Opening && r.level == 0 && r.directory
                == root
            &&& names.len() > 1 ==> r.stage == Stage::Inspecting && r.level == 1 && r.directory
                == naming::below(root, seq![encode_utf8(names[0])])
        }),
{
    let first = encode_utf8(names[0]);
    assert(!paths::is_absolute(encode_utf8(names[0])));
    let list = seq![first];
    assert(list.drop_last() =~= Seq::<Seq<u8>>::empty());
    assert(naming::below(root, list.drop_last()) == root);
    assert(list.last() == first);
    assert(root + seq![47u8] =~= root.push(47u8));
}

/// What is asked for next is asked for the directory at hand, or for the file once all directories
/// are there.
pub proof fn lemma_what_a_reservation_asks_for(r: destination::ReservationView)
    requires
        destination::is_sound(r),
    ensures
        ({
            let action = destination::wanted(r);
            &&& r.stage == Stage::Inspecting ==> action == (destination::ActionView::Inspect {
                path: r.directory,
            })
            &&& r.stage == Stage::Creating ==> action == (
            destination::ActionView::CreateDirectory { path: r.directory })
            &&& r.stage == Stage::Resolving ==> action == (destination::ActionView::Resolve {
                path: r.directory,
            })
            &&& r.stage == Stage::Opening ==> action is CreateFile
                && destination::advanced(r, destination::EventView::Created) == Ok::<
                _,
                rpc::ApiErrorView,
            >((r, Some(action->CreateFile_path)))
        }),
{
}

/// True of a name that is one component of a path.
pub open spec fn is_path_name(name: Seq<u8>) -> bool {
    &&& name.len() > 0
    &&& name != seq![46u8]
    &&& !name.contains(47u8)
}

proof fn lemma_one_component(name: Seq<u8>)
    requires
        is_path_name(name),
    ensures
        paths::components(name) == seq![name],
        !paths::is_absolute(name),
{
    lemma_one_byte_piece(name);
    let list = seq![name];
    assert(list.drop_last() =~= Seq::<Seq<u8>>::empty());
    assert(paths::components_among(list.drop_last()) =~= Seq::<Seq<u8>>::empty());
    assert(paths::components_among(list) =~= list);
    if paths::is_absolute(name) {
        assert(name[0] == 47u8);
    }
}

proof fn lemma_one_byte_piece(name: Seq<u8>)
    requires
        !name.contains(47u8),
    ensures
        text::pieces(name, paths::at_separator()) == seq![name],
    decreases name.len(),
{
    if name.len() > 0 {
        let front = name.drop_last();
        assert forall|i: int| 0 <= i < front.len() implies front[i] != 47u8 by {
            assert(name[i] != 47u8);
        }
        lemma_one_byte_piece(front);
        assert(name[name.len() - 1] != 47u8);
        assert(front.push(name.last()) =~= name);
        assert(text::pieces(name, paths::at_separator()) =~= seq![name]);
    } else {
        assert(name =~= Seq::<u8>::empty());
    }
}

/// Going down from a path adds the names, one by one, to its components.
pub proof fn lemma_components_of_a_way_down(root: Seq<u8>, names: Seq<Seq<u8>>)
    requires
        root.len() > 0,
        root[0] == 47u8,
        forall|i: int| 0 <= i < names.len() ==> is_path_name(#[trigger] names[i]),
    ensures
        paths::is_absolute(naming::below(root, names)),
        paths::components(naming::below(root, names)) == paths::components(root) + names,
    decreases names.len(),
{
    if names.len() == 0 {
        assert(paths::components(root) + names =~= paths::components(root));
    } else {
        let front = names.drop_last();
        assert forall|i: int| 0 <= i < front.len() implies is_path_name(#[trigger] front[i]) by {
            assert(front[i] == names[i]);
        }
        lemma_components_of_a_way_down(root, front);
        let above = naming::below(root, front);
        let last = names[names.len() - 1];
        assert(is_path_name(last));
        lemma_one_component(last);
        assert(above + seq![47u8] =~= above.push(47u8));
        assert(naming::below(root, names) == paths::joined(above, last));
        paths::lemma_joined_components(above, last);
        assert(paths::components(root) + front + seq![last] =~= paths::components(root) + names);
    }
}

proof fn lemma_root_has_no_components()
    ensures
        paths::components(seq![47u8]) == Seq::<Seq<u8>>::empty(),
{
    let cut = paths::at_separator();
    let root = seq![47u8];
    assert(root.drop_last() =~= Seq::<u8>::empty());
    let pieces = text::pieces(root, cut);
    assert(text::pieces(root.drop_last(), cut) =~= seq![Seq::<u8>::empty()]);
    assert(pieces =~= seq![Seq::<u8>::empty(), Seq::<u8>::empty()]);
    assert(pieces.drop_last() =~= seq![Seq::<u8>::empty()]);
    assert(pieces.drop_last().drop_last() =~= Seq::<Seq<u8>>::empty());
    assert(paths::components_among(pieces.drop_last().drop_last()) =~= Seq::<Seq<u8>>::empty());
    assert(paths::components_among(pieces.drop_last()) =~= Seq::<Seq<u8>>::empty());
}

/// A path that goes down from the root through names lies in another such path exactly when the
/// names of the other come first in it. Its file name is its last name, unless that is a way up.
pub proof fn lemma_what_lies_within(inner: Seq<Seq<u8>>, outer: Seq<Seq<u8>>)
    requires
        forall|i: int| 0 <= i < inner.len() ==> is_path_name(#[trigger] inner[i]),
        forall|i: int| 0 <= i < outer.len() ==> is_path_name(#[trigger] outer[i]),
    ensures
        ({
            let root = seq![47u8];
            let path = naming::below(root, inner);
            &&& paths::is_within(path, naming::below(root, outer)) <==> outer.len() <= inner.len()
                && forall|i: int| 0 <= i < outer.len() ==> #[trigger] outer[i] == inner[i]
            &&& inner.len() == 0 ==> paths::file_name_of(path) is None
            &&& inner.len() > 0 && inner.last() == seq![46u8, 46u8] ==> paths::file_name_of(path)
                is None
            &&& inner.len() > 0 && inner.last() != seq![46u8, 46u8] ==> paths::file_name_of(path)
                == Some(inner.last())
        }),
{
    let root = seq![47u8];
    lemma_root_has_no_components();
    lemma_components_of_a_way_down(root, inner);
    lemma_components_of_a_way_down(root, outer);
    assert(Seq::<Seq<u8>>::empty() + inner =~= inner);
    assert(Seq::<Seq<u8>>::empty() + outer =~= outer);
    if outer.len() <= inner.len() {
        if forall|i: int| 0 <= i < outer.len() ==> #[trigger] outer[i] == inner[i] {
            assert(inner.take(outer.len() as int) =~= outer);
        }
        if inner.take(outer.len() as int) == outer {
            assert forall|i: int| 0 <= i < outer.len() implies #[trigger] outer[i] == inner[i] by {
                assert(inner.take(outer.len() as int)[i] == inner[i]);
            }
        }
    }
}

/// What stops a reservation is named: the directory, or the file, and the reason.
pub proof fn lemma_complaints_name_the_place(
    r: destination::ReservationView,
    event: destination::EventView,
)
    requires
        destination::is_sound(r),
        destination::answers(r.stage, event),
    ensures
        ({
            let step = destination::advanced(r, event);
            let message = step->Err_0.message;
            let directory = text::shown_text(r.directory);
            &&& event is FoundLink ==> message == "Destination contains a symbolic link: "@
                + directory
            &&& event is FoundOther ==> message == "Destination component is not a directory: "@
                + directory
            &&& event is Failed && r.stage == Stage::Inspecting ==> message
                == "Could not inspect "@ + directory + ": "@ + event->reason
            &&& event is Failed && r.stage == Stage::Creating ==> message == "Could not create "@
                + directory + ": "@ + event->reason
            &&& event is Failed && r.stage == Stage::Resolving ==> message == "Could not resolve "@
                + directory + ": "@ + event->reason
            &&& event is Failed && r.stage == Stage::Opening ==> message == "Could not reserve "@
                + text::shown_text(destination::wanted(r)->CreateFile_path) + ": "@ + event->reason
            &&& event is Exists && step is Err ==> message == "Could not find a unique name for "@
                + r.names.last()
        }),
{
    if event is Failed {
        let message = destination::advanced(r, event)->Err_0.message;
        let start = if r.stage == Stage::Inspecting {
            "Could not inspect "@ + text::shown_text(r.directory)
        } else if r.stage == Stage::Creating {
            "Could not create "@ + text::shown_text(r.directory)
        } else if r.stage == Stage::Resolving {
            "Could not resolve "@ + text::shown_text(r.directory)
        } else {
            "Could not reserve "@ + text::shown_text(destination::wanted(r)->CreateFile_path)
        };
        assert(message =~= start + ": "@ + event->reason);
    }
}

/// The order of names is that of their bytes: a name comes before every longer one that begins with
/// it, and where two names first differ, the one with the smaller byte comes first.
pub proof fn lemma_order_of_names(
    common: Seq<u8>,
    a: u8,
    b: u8,
    left: Seq<u8>,
    right: Seq<u8>,
)
    requires
        a < b,
    ensures
        text::bytes_before(common, common.push(a) + left),
        !text::bytes_before(common.push(a) + left, common),
        text::bytes_before(common.push(a) + left, common.push(b) + right),
        !text::bytes_before(common.push(b) + right, common.push(a) + left),
        !text::bytes_before(common, common),
{
    let n = common.len() as int;
    let x = common.push(a) + left;
    let y = common.push(b) + right;
    assert(common.take(n) =~= x.take(n));
    assert(text::splits_at(common, x, n));
    assert(x.take(n) =~= y.take(n));
    assert(text::splits_at(x, y, n));
    text::lemma_bytes_before_irreflexive(common);
    text::lemma_bytes_before_irreflexive(x);
    if text::bytes_before(x, common) {
        text::lemma_bytes_before_transitive(common, x, common);
    }
    if text::bytes_before(y, x) {
        text::lemma_bytes_before_transitive(x, y, x);
    }
}

/// What is given back is every place that was reserved, and nothing else.
pub proof fn lemma_every_place_is_given_back(reserved: Seq<events::ReservedView>)
    ensures
        acceptance::reserved_paths(reserved).len() == reserved.len(),
        forall|i: int|
            0 <= i < reserved.len() ==> acceptance::reserved_paths(reserved)[i] == (
            #[trigger] reserved[i]).path,
{
}

} // verus!
