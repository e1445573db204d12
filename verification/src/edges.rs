//! Laws about what stands between the controller and the outside: lines on a socket, paths that
//! are given, the clipboard, the identity, and what is there before the daemon starts.
use crate::client;
use crate::client::{ClipboardWrite, ProgramEnd};
use crate::identity;
use crate::identity::{IdentityFile, IdentityStep, PemError};
use crate::management;
use crate::management::{Connection, NoReply};
use crate::model::{DeviceType, ProtocolType};
use crate::paths;
use crate::rpc;
use crate::startup;
use crate::startup::{ParentDirectory, Probe, SocketPath, SocketStep};
use crate::terms;
use crate::text;
use vstd::prelude::*;
use vstd::utf8::*;

verus! {

/// True of what may stand behind the text of a line: carriage returns and newlines.
pub open spec fn is_line_end(tail: Seq<char>) -> bool {
    forall|i: int| 0 <= i < tail.len() ==> #[trigger] tail[i] == '\r' || tail[i] == '\n'
}

/// True of a text that does not end in a carriage return or a newline.
pub open spec fn has_no_line_end(text: Seq<char>) -> bool {
    text.len() > 0 ==> text.last() != '\r' && text.last() != '\n'
}

proof fn lemma_trimmed(line: Seq<char>)
    ensures
        has_no_line_end(management::trimmed(line)),
        management::trimmed(line).len() <= line.len(),
        management::trimmed(line) == line.take(management::trimmed(line).len() as int),
        is_line_end(line.skip(management::trimmed(line).len() as int)),
    decreases line.len(),
{
    let text = management::trimmed(line);
    if line.len() > 0 && (line.last() == '\n' || line.last() == '\r') {
        let front = line.drop_last();
        lemma_trimmed(front);
        let n = text.len() as int;
        assert(line.take(n) =~= front.take(n));
        assert forall|i: int| 0 <= i < line.skip(n).len() implies #[trigger] line.skip(n)[i] == '\r'
            || line.skip(n)[i] == '\n' by {
            if i < front.skip(n).len() {
                assert(front.skip(n)[i] == line.skip(n)[i]);
            }
        }
    } else {
        assert(line.take(line.len() as int) =~= line);
    }
}

proof fn lemma_trims_to(text: Seq<char>, tail: Seq<char>)
    requires
        has_no_line_end(text),
        is_line_end(tail),
    ensures
        management::trimmed(text + tail) == text,
    decreases tail.len(),
{
    if tail.len() == 0 {
        assert(text + tail =~= text);
    } else {
        let front = tail.drop_last();
        assert forall|i: int| 0 <= i < front.len() implies #[trigger] front[i] == '\r' || front[i]
            == '\n' by {
            assert(front[i] == tail[i]);
        }
        lemma_trims_to(text, front);
        assert((text + tail).drop_last() =~= text + front);
        assert((text + tail).last() == tail[tail.len() - 1]);
    }
}

/// What is read of a line is its text: whatever carriage returns and newlines stand behind it are
/// left out, as long as a newline is the last of them, and nothing else is. This holds of requests
/// and of answers.
pub proof fn lemma_line_is_read_without_its_end(text: Seq<char>, tail: Seq<char>)
    requires
        has_no_line_end(text),
        is_line_end(tail),
        tail.len() > 0,
        tail.last() == '\n',
        encode_utf8(text + tail).len() <= 8_388_608,
    ensures
        management::request_of(
            management::LineReadView::Read { bytes: encode_utf8(text + tail) },
        ) == Ok::<_, rpc::ApiErrorView>(text),
        management::answer_of(
            management::ExchangeView::Answered { bytes: encode_utf8(text + tail) },
        ) == Ok::<_, rpc::ApiErrorView>(text),
{
    let line = text + tail;
    encode_utf8_valid_utf8(line);
    encode_utf8_decode_utf8(line);
    lemma_trims_to(text, tail);
    assert(line.last() == tail.last());
    encode_utf8_first_scalar(line);
}

/// What is taken as a request, or as an answer, was a whole line of UTF-8 within the limit, and is
/// that line without its end.
pub proof fn lemma_only_whole_lines_are_read(bytes: Seq<u8>)
    ensures
        ({
            let request = management::request_of(management::LineReadView::Read { bytes });
            let answer = management::answer_of(management::ExchangeView::Answered { bytes });
            let line = decode_utf8(bytes);
            &&& request is Ok <==> answer is Ok
            &&& request is Ok <==> valid_utf8(bytes) && 1 <= bytes.len() <= 8_388_608 && line.len()
                > 0 && line.last() == '\n'
            &&& request is Ok ==> request->Ok_0 == answer->Ok_0
            &&& request is Ok ==> {
                let text = request->Ok_0;
                &&& has_no_line_end(text)
                &&& text.len() <= line.len()
                &&& text == line.take(text.len() as int)
                &&& is_line_end(line.skip(text.len() as int))
            }
            &&& request is Err ==> request->Err_0.code == (if !valid_utf8(bytes) {
                "invalid_request"@
            } else if bytes.len() == 0 {
                "empty_request"@
            } else if bytes.len() > 8_388_608 {
                "request_too_large"@
            } else {
                "invalid_request"@
            })
            &&& answer is Err ==> answer->Err_0.code == "protocol_error"@
        }),
{
    lemma_trimmed(decode_utf8(bytes));
}

/// A request within the limit is written as it is, with a newline behind it; one beyond it is not
/// written. A response within the limit is written as it is, with a newline behind it; one beyond it
/// is replaced by one and the same line, whatever it was.
pub proof fn lemma_what_is_written(bytes: Seq<u8>, others: Seq<u8>)
    ensures
        ({
            let request = management::request_line(Some(bytes));
            let response = management::response_line(Some(bytes));
            let is_small = bytes.len() <= 8_388_608;
            &&& request is Ok <==> is_small
            &&& is_small ==> request->Ok_0 == bytes.push(10u8)
            &&& !is_small ==> request->Err_0.code == "request_too_large"@
            &&& is_small ==> response == bytes.push(10u8)
            &&& response.len() > 0 && response.last() == 10u8
            &&& !is_small && others.len() > 8_388_608 ==> response == management::response_line(
                Some(others),
            )
            &&& management::response_line(None) == encode_utf8(
                "{\"ok\":false,\"error\":{\"code\":\"serialization_error\",\"message\":\"Could not serialize response\"}}"@,
            ).push(10u8)
            &&& !is_small ==> response == encode_utf8(
                "{\"ok\":false,\"error\":{\"code\":\"response_too_large\",\"message\":\"Controller response exceeds the management API limit\"}}"@,
            ).push(10u8)
            &&& management::request_line(None) is Err
            &&& management::request_line(None)->Err_0.code == "serialization_error"@
        }),
{
    reveal_strlit(
        "{\"ok\":false,\"error\":{\"code\":\"serialization_error\",\"message\":\"Could not serialize response\"}}",
    );
    lemma_few_bytes(management::unserializable_text());
}

proof fn lemma_few_bytes(text: Seq<char>)
    ensures
        encode_utf8(text).len() <= 4 * text.len(),
    decreases text.len(),
{
    if text.len() > 0 {
        lemma_few_bytes(text.drop_first());
    }
}

/// A daemon is spoken to only if it is known to be of the same user, and no failure is taken for
/// anything else than a daemon that cannot be reached.
pub proof fn lemma_only_the_own_daemon(connection: Connection, own: u32, socket: Seq<char>)
    ensures
        ({
            let verdict = management::connection_verdict(connection, own, socket);
            &&& verdict is Ok <==> connection == (Connection::Connected { uid: Some(own) })
            &&& verdict is Err ==> verdict->Err_0.code == "daemon_unavailable"@
        }),
{
}

/// Where a path that a caller gives leads, seen from a directory.
pub open spec fn seen_from(current: Seq<u8>, path: Seq<u8>) -> Seq<u8> {
    if path.len() > 0 && path[0] == 47u8 {
        path
    } else if current.len() == 0 || current.last() == 47u8 {
        current + path
    } else {
        current + seq![47u8] + path
    }
}

proof fn lemma_path_texts(current: Seq<u8>, list: Seq<Seq<u8>>)
    ensures
        ({
            let texts = client::path_texts(current, list);
            &&& texts is Ok <==> forall|i: int|
                0 <= i < list.len() ==> valid_utf8(seen_from(current, #[trigger] list[i]))
            &&& texts is Ok ==> texts->Ok_0.len() == list.len() && forall|i: int|
                0 <= i < list.len() ==> texts->Ok_0[i] == decode_utf8(
                    seen_from(current, #[trigger] list[i]),
                )
            &&& texts is Err ==> texts->Err_0.code == "invalid_path"@
        }),
    decreases list.len(),
{
    if list.len() > 0 {
        let front = list.drop_last();
        let last = list.len() - 1;
        lemma_path_texts(current, front);
        assert(client::absolute_path(current, list.last()) == seen_from(current, list[last])) by {
            assert(current + seq![47u8] =~= current.push(47u8));
        }
        let texts = client::path_texts(current, list);
        if texts is Ok {
            assert forall|i: int| 0 <= i < list.len() implies valid_utf8(
                seen_from(current, #[trigger] list[i]),
            ) && texts->Ok_0[i] == decode_utf8(seen_from(current, list[i])) by {
                if i < last {
                    assert(front[i] == list[i]);
                }
            }
        } else {
            if forall|i: int|
                0 <= i < list.len() ==> valid_utf8(seen_from(current, #[trigger] list[i])) {
                assert forall|i: int| 0 <= i < front.len() implies valid_utf8(
                    seen_from(current, #[trigger] front[i]),
                ) by {
                    assert(front[i] == list[i]);
                }
                assert(valid_utf8(seen_from(current, list[last])));
            }
        }
    }
}

/// Selected paths are handed over one for one, in their order: an absolute one as it is, and any
/// other as it is seen from the current directory. They are refused exactly when the current
/// directory is not known or one of them is not valid UTF-8.
pub proof fn lemma_selected_paths_are_absolute(current: Option<Seq<u8>>, list: Seq<Seq<u8>>)
    ensures
        ({
            let selected = client::selected_paths(current, list);
            &&& selected is Ok <==> current is Some && forall|i: int|
                0 <= i < list.len() ==> valid_utf8(seen_from(current->0, #[trigger] list[i]))
            &&& selected is Ok ==> selected->Ok_0.len() == list.len()
            &&& selected is Ok ==> forall|i: int|
                0 <= i < list.len() ==> selected->Ok_0[i] == decode_utf8(
                    seen_from(current->0, #[trigger] list[i]),
                )
            &&& selected is Err ==> selected->Err_0.code == "invalid_path"@
        }),
{
    if current is Some {
        lemma_path_texts(current->0, list);
    }
}

/// The clipboard gives its text exactly when the program that reads it succeeded with up to half a
/// mebibyte of UTF-8, and the text is all that the program wrote. Copying counts as done exactly
/// when the program that copies succeeded.
pub proof fn lemma_clipboard_is_read_whole(
    read: client::ClipboardReadView,
    end: ProgramEnd,
    write: ClipboardWrite,
)
    ensures
        ({
            let output = client::clipboard_output(read);
            let bytes = read->output;
            let text = client::clipboard_text_of(bytes, end);
            let verdict = client::clipboard_verdict(write);
            &&& output is Ok <==> read is Read && bytes.len() <= 524_288
            &&& output is Ok ==> output->Ok_0 == bytes
            &&& output is Err ==> output->Err_0.code == (if read is Read {
                "text_too_large"@
            } else {
                "clipboard_unavailable"@
            })
            &&& text is Ok <==> end == (ProgramEnd::Exited { success: true }) && valid_utf8(bytes)
            &&& text is Ok ==> text->Ok_0 == decode_utf8(bytes)
            &&& text is Err ==> text->Err_0.code == (if end == (ProgramEnd::Exited {
                success: true,
            }) {
                "clipboard_not_text"@
            } else {
                "clipboard_unavailable"@
            })
            &&& verdict is Ok <==> write == (ClipboardWrite::Exited { success: true })
            &&& verdict is Err ==> verdict->Err_0.code == "clipboard_unavailable"@
        }),
{
}

/// True of the place of the first block that is a certificate.
pub open spec fn is_first_certificate(
    blocks: Seq<(Seq<char>, Seq<u8>, Seq<char>)>,
    k: int,
) -> bool {
    &&& 0 <= k < blocks.len()
    &&& blocks[k].0 == "CERTIFICATE"@
    &&& forall|j: int| 0 <= j < k ==> (#[trigger] blocks[j]).0 != "CERTIFICATE"@
}

/// True of a tag that ends in the words for a private key.
pub open spec fn is_key_tag(tag: Seq<char>) -> bool {
    exists|kind: Seq<char>| tag == #[trigger] (kind + "PRIVATE KEY"@)
}

/// True of the place of the first block that is a private key.
pub open spec fn is_first_key(blocks: Seq<(Seq<char>, Seq<u8>, Seq<char>)>, k: int) -> bool {
    &&& 0 <= k < blocks.len()
    &&& is_key_tag(blocks[k].0)
    &&& forall|j: int| 0 <= j < k ==> !is_key_tag((#[trigger] blocks[j]).0)
}

proof fn lemma_certificate_place(blocks: Seq<(Seq<char>, Seq<u8>, Seq<char>)>, i: int)
    requires
        0 <= i <= blocks.len(),
        forall|j: int| 0 <= j < i ==> (#[trigger] blocks[j]).0 != "CERTIFICATE"@,
    ensures
        ({
            let place = identity::certificate_place(blocks, i);
            &&& place < blocks.len() ==> is_first_certificate(blocks, place)
            &&& place >= blocks.len() ==> forall|k: int| !#[trigger] is_first_certificate(blocks, k)
        }),
    decreases blocks.len() - i,
{
    if i < blocks.len() && blocks[i].0 != "CERTIFICATE"@ {
        lemma_certificate_place(blocks, i + 1);
    }
}

proof fn lemma_key_tag(tag: Seq<char>)
    ensures
        text::finishes_with(tag, "PRIVATE KEY"@) <==> is_key_tag(tag),
{
    let suffix = "PRIVATE KEY"@;
    if text::finishes_with(tag, suffix) {
        let kind = tag.take(tag.len() - suffix.len());
        assert(tag =~= kind + tag.skip(tag.len() - suffix.len()));
        assert(tag == kind + suffix);
    }
    if is_key_tag(tag) {
        let kind = choose|kind: Seq<char>| tag == #[trigger] (kind + suffix);
        assert(tag.skip(tag.len() - suffix.len()) =~= suffix);
    }
}

proof fn lemma_key_place(blocks: Seq<(Seq<char>, Seq<u8>, Seq<char>)>, i: int)
    requires
        0 <= i <= blocks.len(),
        forall|j: int| 0 <= j < i ==> !is_key_tag((#[trigger] blocks[j]).0),
    ensures
        ({
            let place = identity::private_key_place(blocks, i);
            &&& place < blocks.len() ==> is_first_key(blocks, place)
            &&& place >= blocks.len() ==> forall|k: int| !#[trigger] is_first_key(blocks, k)
        }),
    decreases blocks.len() - i,
{
    if i < blocks.len() {
        lemma_key_tag(blocks[i].0);
        if !text::finishes_with(blocks[i].0, "PRIVATE KEY"@) {
            lemma_key_place(blocks, i + 1);
        }
    }
}

/// An identity is made of the first certificate and the first private key of a file, whatever else
/// stands in it and in whatever order; the fingerprint is taken of the contents of that same
/// certificate. What is missing is named, the certificate first.
pub proof fn lemma_identity_is_the_first_pair(blocks: Seq<(Seq<char>, Seq<u8>, Seq<char>)>)
    ensures
        ({
            let material = identity::material_in(Some(blocks));
            let has_certificate = exists|c: int| #[trigger] is_first_certificate(blocks, c);
            let has_key = exists|k: int| #[trigger] is_first_key(blocks, k);
            &&& material is Ok <==> has_certificate && has_key
            &&& !has_certificate ==> material == Err::<(Seq<char>, Seq<char>, Seq<u8>), _>(
                PemError::MissingCertificate,
            )
            &&& has_certificate && !has_key ==> material == Err::<
                (Seq<char>, Seq<char>, Seq<u8>),
                _,
            >(PemError::MissingPrivateKey)
            &&& forall|c: int, k: int| #[trigger]
                is_first_certificate(blocks, c) && #[trigger] is_first_key(blocks, k) ==> material
                    == Ok::<_, PemError>((blocks[c].2, blocks[k].2, blocks[c].1))
        }),
{
    lemma_certificate_place(blocks, 0);
    lemma_key_place(blocks, 0);
    let cert = identity::certificate_place(blocks, 0);
    let key = identity::private_key_place(blocks, 0);
    assert forall|c: int, k: int| #[trigger]
        is_first_certificate(blocks, c) && #[trigger] is_first_key(blocks, k) implies c == cert && k
        == key by {
        assert(cert < blocks.len() && key < blocks.len());
        assert(!(c < cert) && !(cert < c));
        assert(!(k < key) && !(key < k));
    }
}

/// Key material is kept exactly when its private key can be used, and is kept as it is.
pub proof fn lemma_only_usable_keys(
    material: (Seq<char>, Seq<char>, Seq<u8>),
    usable: bool,
)
    ensures
        identity::only_usable(material, usable) is Ok <==> usable,
        usable ==> identity::only_usable(material, usable)->Ok_0 == material,
        !usable ==> identity::only_usable(material, usable)->Err_0
            == PemError::UnusablePrivateKey,
{
}

/// An alias is valid exactly when it holds something other than white space, has up to 128
/// characters, and none of them is a control character.
pub proof fn lemma_which_aliases_are_valid(alias: Seq<char>)
    ensures
        identity::alias_verdict(alias) is Ok <==> {
            &&& exists|i: int| 0 <= i < alias.len() && !text::is_space_char(#[trigger] alias[i])
            &&& alias.len() <= 128
            &&& terms::is_clean(alias, encode_utf8(alias).len())
        },
{
    if text::has_control(alias) {
        let i = choose|i: int| 0 <= i < alias.len() && text::is_control_char(#[trigger] alias[i]);
        assert(!terms::is_clean(alias, encode_utf8(alias).len())) by {
            let code = alias[i] as u32;
        }
    } else {
        assert forall|i: int| 0 <= i < alias.len() implies {
            let code = (#[trigger] alias[i]) as u32;
            0x20 <= code && (code < 0x7f || 0x9f < code)
        } by {
            assert(!text::is_control_char(alias[i]));
        }
    }
}

/// A text a number of times over.
pub open spec fn repeated(text: Seq<char>, times: nat) -> Seq<char>
    decreases times,
{
    if times == 0 {
        Seq::empty()
    } else {
        repeated(text, (times - 1) as nat) + text
    }
}

proof fn lemma_without_endings(text: Seq<char>, suffix: Seq<char>)
    requires
        suffix.len() > 0,
    ensures
        !text::finishes_with(text::without_endings(text, suffix), suffix),
        exists|times: nat|
            text == text::without_endings(text, suffix) + #[trigger] repeated(suffix, times),
    decreases text.len(),
{
    if text::finishes_with(text, suffix) {
        let front = text.take(text.len() - suffix.len());
        lemma_without_endings(front, suffix);
        let stem = text::without_endings(text, suffix);
        let times = choose|times: nat| front == stem + #[trigger] repeated(suffix, times);
        let more = times + 1;
        assert(repeated(suffix, more) == repeated(suffix, times) + suffix);
        assert(text =~= front + text.skip(text.len() - suffix.len()));
        assert(text =~= stem + repeated(suffix, more));
    } else {
        assert(text =~= text + repeated(suffix, 0));
    }
}

/// An alias that is asked for is taken if it is valid and is an error if it is not. Where none is
/// asked for, a valid one of the graphical application counts, and else the name of the host without
/// the `.local` at its end, however often that stands there, or the name of the system where nothing
/// is left.
pub proof fn lemma_where_the_alias_comes_from(
    requested: Option<Seq<char>>,
    preferred: Option<Seq<char>>,
    hostname: Seq<char>,
)
    ensures
        ({
            let alias = identity::resolved_alias(requested, preferred, hostname);
            let is_preferred = preferred is Some && identity::alias_verdict(preferred->0) is Ok;
            &&& alias is Err <==> requested is Some && identity::alias_verdict(requested->0) is Err
            &&& requested is Some && alias is Ok ==> alias->Ok_0 == requested->0
            &&& requested is None && is_preferred ==> alias->Ok_0 == preferred->0
            &&& requested is None && !is_preferred ==> {
                ||| exists|times: nat|
                    {
                        &&& hostname == alias->Ok_0 + #[trigger] repeated(".local"@, times)
                        &&& alias->Ok_0.len() > 0
                        &&& !exists|stem: Seq<char>| alias->Ok_0 == #[trigger] (stem + ".local"@)
                    }
                ||| alias->Ok_0 == "Omarchy"@ && exists|times: nat|
                    hostname == #[trigger] repeated(".local"@, times)
            }
        }),
{
    let suffix = ".local"@;
    reveal_strlit(".local");
    lemma_without_endings(hostname, suffix);
    let stem = text::without_endings(hostname, suffix);
    let times = choose|times: nat| hostname == stem + #[trigger] repeated(suffix, times);
    if exists|front: Seq<char>| stem == #[trigger] (front + suffix) {
        let front = choose|front: Seq<char>| stem == #[trigger] (front + suffix);
        assert(stem.skip(stem.len() - suffix.len()) =~= suffix);
    }
    if stem.len() == 0 {
        assert(hostname =~= repeated(suffix, times));
    }
}

/// An identity is made anew exactly when there is no file, and read exactly when there is a regular
/// file of up to 128 kibibytes; anything else stops the daemon.
pub proof fn lemma_identity_file(found: IdentityFile)
    ensures
        identity::identity_plan(found) == Ok::<_, Seq<char>>(IdentityStep::Generate) <==> found
            == IdentityFile::Missing,
        identity::identity_plan(found) == Ok::<_, Seq<char>>(IdentityStep::Read) <==> found
            is Present && found->is_file && found->len <= 131_072,
{
}

/// A path of the environment counts only if it is absolute, and what is put below a directory stands
/// behind it with one slash between them.
pub proof fn lemma_paths_of_the_environment(
    path: Option<Seq<u8>>,
    system: Option<Seq<u8>>,
    tail: Seq<char>,
)
    requires
        encode_utf8(tail).len() > 0,
        encode_utf8(tail)[0] != 47u8,
    ensures
        ({
            let absolute = path is Some && path->0.len() > 0 && path->0[0] == 47u8;
            let below = identity::below(path, tail);
            &&& identity::only_absolute(path) is Some <==> absolute
            &&& absolute ==> identity::only_absolute(path) == path
            &&& identity::home_of(path, system) == (if absolute {
                path
            } else {
                system
            })
            &&& below is Some <==> path is Some
            &&& absolute && path->0.last() != 47u8 ==> below->0 == path->0 + seq![47u8]
                + encode_utf8(tail)
            &&& absolute && path->0.last() == 47u8 ==> below->0 == path->0 + encode_utf8(tail)
        }),
{
    if path is Some {
        assert(path->0 + seq![47u8] =~= path->0.push(47u8));
    }
}

/// A daemon starts only with a port and with absolute paths for its socket and its destination.
pub proof fn lemma_which_configurations_start(port: u16, socket: Seq<u8>, destination: Seq<u8>)
    ensures
        startup::config_verdict(port, socket, destination) is Ok <==> {
            &&& port != 0
            &&& socket.len() > 0 && socket[0] == 47u8
            &&& destination.len() > 0 && destination[0] == 47u8
        },
{
}

/// The directory of the socket must be a directory itself, of the same user, in which neither the
/// group nor anybody else may write.
pub proof fn lemma_which_directories_are_private(parent: ParentDirectory, own: u32)
    ensures
        startup::parent_verdict(parent, own) is Ok <==> {
            &&& parent.is_dir
            &&& !parent.is_link
            &&& parent.uid == own
            &&& (parent.mode / 16) % 2 == 0
            &&& (parent.mode / 2) % 2 == 0
        },
{
    let mode = parent.mode;
    assert(mode & 0o022 == 0 <==> (mode / 16) % 2 == 0 && (mode / 2) % 2 == 0) by (bit_vector);
}

/// A socket is created where nothing is, and replaced only where a socket is at which nobody
/// listens, and which is still the same one when that is known. Anything else stops the daemon.
pub proof fn lemma_what_becomes_of_a_socket(found: SocketPath, probe: Probe, again: SocketPath)
    ensures
        ({
            let plan = startup::socket_plan(found);
            let probed = startup::probe_plan(probe);
            &&& plan == Ok::<_, Seq<char>>(SocketStep::Bind) <==> found is Missing
            &&& plan == Ok::<_, Seq<char>>(SocketStep::Probe) <==> found is Present
                && found->is_socket
            &&& plan is Ok ==> plan->Ok_0 == SocketStep::Bind || plan->Ok_0 == SocketStep::Probe
            &&& probed is Ok <==> probe is Refused
            &&& probed is Ok ==> probed->Ok_0 == SocketStep::Recheck
            &&& startup::is_same_socket(found, again) <==> {
                &&& found is Present
                &&& again is Present
                &&& again->is_socket
                &&& found->device == again->device
                &&& found->inode == again->inode
            }
        }),
{
}

/// The twenty-five characters that count as white space.
pub open spec fn white_space() -> Seq<u32> {
    seq![
        0x09,
        0x0a,
        0x0b,
        0x0c,
        0x0d,
        0x20,
        0x85,
        0xa0,
        0x1680,
        0x2000,
        0x2001,
        0x2002,
        0x2003,
        0x2004,
        0x2005,
        0x2006,
        0x2007,
        0x2008,
        0x2009,
        0x200a,
        0x2028,
        0x2029,
        0x202f,
        0x205f,
        0x3000,
    ]
}

/// A character is white space exactly when it is one of the twenty-five.
pub proof fn lemma_what_is_white_space(c: char)
    ensures
        text::is_space_char(c) <==> exists|i: int|
            0 <= i < 25 && #[trigger] white_space()[i] == c as u32,
{
    let code = c as u32;
    let list = white_space();
    if text::is_space_char(c) {
        assert(list[0] == 0x09 && list[1] == 0x0a && list[2] == 0x0b && list[3] == 0x0c && list[4]
            == 0x0d && list[5] == 0x20 && list[6] == 0x85 && list[7] == 0xa0 && list[8] == 0x1680);
        assert(list[9] == 0x2000 && list[10] == 0x2001 && list[11] == 0x2002 && list[12] == 0x2003
            && list[13] == 0x2004 && list[14] == 0x2005 && list[15] == 0x2006);
        assert(list[16] == 0x2007 && list[17] == 0x2008 && list[18] == 0x2009 && list[19] == 0x200a
            && list[20] == 0x2028 && list[21] == 0x2029);
        assert(list[22] == 0x202f && list[23] == 0x205f && list[24] == 0x3000);
    }
}

/// A device presents itself by its own alias, fingerprint and port, over HTTPS and without offering
/// downloads.
pub proof fn lemma_device_presents_itself(
    own: identity::IdentityView,
    protocol_version: Seq<char>,
)
    ensures
        ({
            let info = identity::presented(own, protocol_version);
            &&& info.alias == own.alias
            &&& info.fingerprint == own.fingerprint
            &&& info.port == own.port
            &&& info.version == protocol_version
            &&& info.protocol == ProtocolType::Https
            &&& info.device_type == Some(DeviceType::Headless)
            &&& info.device_model == Some("Omarchy"@)
            &&& !info.download
        }),
{
}

/// A request that gets no answer is told why: that the daemon is stopping, or that the time is up.
pub proof fn lemma_why_there_is_no_answer(reason: NoReply)
    ensures
        management::no_reply_error(reason).code == (if reason is TimedOut {
            "request_timeout"@
        } else {
            "daemon_stopping"@
        }),
{
}

/// Bytes read as text exactly when they are valid UTF-8, and then as the text that they encode.
pub proof fn lemma_text_is_what_bytes_encode(chars: Seq<char>, bytes: Seq<u8>)
    ensures
        text::utf8_text(encode_utf8(chars)) == Some(chars),
        text::shown_text(encode_utf8(chars)) == chars,
        text::utf8_text(bytes) is Some <==> valid_utf8(bytes),
{
    encode_utf8_valid_utf8(chars);
    encode_utf8_decode_utf8(chars);
}

} // verus!
