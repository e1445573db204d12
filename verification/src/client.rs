//! What the commands of the program ask of the daemon, and the clipboard.
use crate::offer;
use crate::paths;
use crate::rpc;
use crate::rpc::{ApiError, ApiResult, RpcRequest};
use crate::text;
use vstd::prelude::*;

verus! {

/// A command of the program. Paths are bytes.
#[derive(Debug)]
pub enum Command {
    Daemon,
    Ping,
    Snapshot,
    Refresh,
    SendFiles { device: String, paths: Vec<Vec<u8>> },
    SendText { device: String, text: String },
    SendClipboard { device: String },
    Accept { request: String },
    Decline { request: String },
    Cancel { transfer: String },
    Shutdown,
}

/// What a command comes to: a request, or the text of the clipboard that is to be sent first.
#[derive(Debug)]
pub enum CommandStep {
    Send { request: RpcRequest },
    ReadClipboard { device: String },
}

/// The path of a selected file: absolute, and taken from the current directory where it was not.
pub open spec fn absolute_path(current: Seq<u8>, path: Seq<u8>) -> Seq<u8> {
    if paths::is_absolute(path) {
        path
    } else {
        paths::joined(current, path)
    }
}

/// The texts of paths, which must be valid UTF-8, as far as the first that is not.
pub open spec fn path_texts(current: Seq<u8>, list: Seq<Seq<u8>>) -> Result<
    Seq<Seq<char>>,
    rpc::ApiErrorView,
>
    decreases list.len(),
{
    if list.len() == 0 {
        Ok(Seq::empty())
    } else {
        match path_texts(current, list.drop_last()) {
            Err(error) => Err(error),
            Ok(before) => match text::utf8_text(absolute_path(current, list.last())) {
                Some(text) => Ok(before.push(text)),
                None => Err(
                    rpc::api_error("invalid_path"@, "Selected path is not valid UTF-8"@),
                ),
            },
        }
    }
}

/// The absolute paths of selected files. The current directory must be known.
pub open spec fn selected_paths(current: Option<Seq<u8>>, list: Seq<Seq<u8>>) -> Result<
    Seq<Seq<char>>,
    rpc::ApiErrorView,
> {
    match current {
        None => Err(
            rpc::api_error("invalid_path"@, "Could not determine the current directory"@),
        ),
        Some(current) => path_texts(current, list),
    }
}

pub open spec fn paths_outcome(r: ApiResult<Vec<String>>) -> Result<
    Seq<Seq<char>>,
    rpc::ApiErrorView,
> {
    match r {
        Ok(list) => Ok(text::texts(list@)),
        Err(error) => Err(error@),
    }
}

proof fn lemma_path_failure(current: Seq<u8>, list: Seq<Seq<u8>>, n: int)
    requires
        0 <= n <= list.len(),
        path_texts(current, list.take(n)) is Err,
    ensures
        path_texts(current, list) == path_texts(current, list.take(n)),
    decreases list.len() - n,
{
    if n == list.len() {
        assert(list.take(n) =~= list);
    } else {
        assert(list.take(n + 1).drop_last() =~= list.take(n));
        lemma_path_failure(current, list, n + 1);
    }
}

/// The absolute paths of selected files.
pub fn absolute_paths(current: Option<Vec<u8>>, list: &Vec<Vec<u8>>) -> (r: ApiResult<Vec<String>>)
    ensures
        paths_outcome(r) == selected_paths(
            paths::opt_bytes(current),
            paths::byte_lists(list@),
        ),
{
    let base = match &current {
        Some(base) => base,
        None => {
            return Err(
                ApiError::new("invalid_path", "Could not determine the current directory"),
            );
        },
    };
    let ghost all = paths::byte_lists(list@);
    let mut found: Vec<String> = Vec::new();
    assert(all.take(0) =~= Seq::<Seq<u8>>::empty());
    assert(text::texts(found@) =~= Seq::<Seq<char>>::empty());
    for i in 0..list.len()
        invariant
            all == paths::byte_lists(list@),
            paths::opt_bytes(current) == Some(base@),
            path_texts(base@, all.take(i as int)) == Ok::<Seq<Seq<char>>, rpc::ApiErrorView>(
                text::texts(found@),
            ),
    {
        let path = &list[i];
        proof {
            assert(all[i as int] == path@);
            assert(all.take(i + 1).drop_last() =~= all.take(i as int));
        }
        let full = if paths::absolute(path.as_slice()) {
            paths::owned(path.as_slice())
        } else {
            paths::join(base.as_slice(), path.as_slice())
        };
        match text::text_from_utf8(full) {
            Some(text) => {
                let ghost before = text::texts(found@);
                found.push(text);
                assert(text::texts(found@) =~= before.push(text@));
            },
            None => {
                proof {
                    lemma_path_failure(base@, all, i + 1);
                }
                return Err(ApiError::new("invalid_path", "Selected path is not valid UTF-8"));
            },
        }
    }
    assert(all.take(list@.len() as int) =~= all);
    Ok(found)
}

/// What a command asks of the daemon. The current directory is given, where it is known.
pub fn command_to_request(command: Command, current: Option<Vec<u8>>) -> (step: ApiResult<
    CommandStep,
>)
    ensures
        match command {
            Command::Daemon => step is Err && (step->Err_0)@ == rpc::api_error(
                "invalid_arguments"@,
                "Daemon command cannot be sent as an RPC request"@,
            ),
            Command::Ping => step == Ok::<_, ApiError>(
                CommandStep::Send { request: RpcRequest::Ping {  } },
            ),
            Command::Snapshot => step == Ok::<_, ApiError>(
                CommandStep::Send { request: RpcRequest::Snapshot {  } },
            ),
            Command::Refresh => step == Ok::<_, ApiError>(
                CommandStep::Send { request: RpcRequest::Refresh {  } },
            ),
            Command::SendFiles { device, paths } => match selected_paths(
                paths::opt_bytes(current),
                paths::byte_lists(paths@),
            ) {
                Err(error) => step is Err && (step->Err_0)@ == error,
                Ok(texts) => {
                    &&& step is Ok
                    &&& step->Ok_0 matches CommandStep::Send {
                        request: RpcRequest::SendFiles { device: to, paths: list },
                    }
                    &&& to == device
                    &&& text::texts(list@) == texts
                },
            },
            Command::SendText { device, text } => step == Ok::<_, ApiError>(
                CommandStep::Send { request: RpcRequest::SendText { device, text } },
            ),
            Command::SendClipboard { device } => step == Ok::<_, ApiError>(
                CommandStep::ReadClipboard { device },
            ),
            Command::Accept { request } => step == Ok::<_, ApiError>(
                CommandStep::Send { request: RpcRequest::Accept { request } },
            ),
            Command::Decline { request } => step == Ok::<_, ApiError>(
                CommandStep::Send { request: RpcRequest::Decline { request } },
            ),
            Command::Cancel { transfer } => step == Ok::<_, ApiError>(
                CommandStep::Send { request: RpcRequest::Cancel { transfer } },
            ),
            Command::Shutdown => step == Ok::<_, ApiError>(
                CommandStep::Send { request: RpcRequest::Shutdown {  } },
            ),
        },
{
    let request = match command {
        Command::Ping => RpcRequest::Ping {  },
        Command::Snapshot => RpcRequest::Snapshot {  },
        Command::Refresh => RpcRequest::Refresh {  },
        Command::SendFiles { device, paths } => match absolute_paths(current, &paths) {
            Ok(list) => RpcRequest::SendFiles { device, paths: list },
            Err(error) => {
                return Err(error);
            },
        },
        Command::SendText { device, text } => RpcRequest::SendText { device, text },
        Command::SendClipboard { device } => {
            return Ok(CommandStep::ReadClipboard { device });
        },
        Command::Accept { request } => RpcRequest::Accept { request },
        Command::Decline { request } => RpcRequest::Decline { request },
        Command::Cancel { transfer } => RpcRequest::Cancel { transfer },
        Command::Shutdown => RpcRequest::Shutdown {  },
        Command::Daemon => {
            return Err(
                ApiError::new(
                    "invalid_arguments",
                    "Daemon command cannot be sent as an RPC request",
                ),
            );
        },
    };
    Ok(CommandStep::Send { request })
}

/// What reading the clipboard comes to. At most one byte more than is allowed is read.
#[derive(Debug)]
pub enum ClipboardRead {
    NoProgram,
    NoOutput,
    TimedOut,
    Failed,
    Read { output: Vec<u8> },
}

#[verifier::ext_equal]
pub enum ClipboardReadView {
    NoProgram,
    NoOutput,
    TimedOut,
    Failed,
    Read { output: Seq<u8> },
}

impl View for ClipboardRead {
    type V = ClipboardReadView;

    open spec fn view(&self) -> ClipboardReadView {
        match self {
            ClipboardRead::NoProgram => ClipboardReadView::NoProgram,
            ClipboardRead::NoOutput => ClipboardReadView::NoOutput,
            ClipboardRead::TimedOut => ClipboardReadView::TimedOut,
            ClipboardRead::Failed => ClipboardReadView::Failed,
            ClipboardRead::Read { output } => ClipboardReadView::Read { output: output@ },
        }
    }
}

pub open spec fn no_clipboard(message: Seq<char>) -> rpc::ApiErrorView {
    rpc::api_error("clipboard_unavailable"@, message)
}

/// The output of the clipboard program, which must be within the limit.
pub open spec fn clipboard_output(read: ClipboardReadView) -> Result<Seq<u8>, rpc::ApiErrorView> {
    match read {
        ClipboardReadView::NoProgram => Err(no_clipboard("Could not execute wl-paste"@)),
        ClipboardReadView::NoOutput => Err(no_clipboard("Could not read the clipboard"@)),
        ClipboardReadView::TimedOut => Err(no_clipboard("Reading the clipboard timed out"@)),
        ClipboardReadView::Failed => Err(no_clipboard("Could not read the clipboard"@)),
        ClipboardReadView::Read { output } => if output.len() > offer::MAX_TEXT_BYTES {
            Err(
                rpc::api_error(
                    "text_too_large"@,
                    "Clipboard text is limited to 524288 UTF-8 bytes"@,
                ),
            )
        } else {
            Ok(output)
        },
    }
}

fn clipboard_error<T>(message: &str) -> (r: ApiResult<T>)
    ensures
        r is Err,
        (r->Err_0)@ == no_clipboard(message@),
{
    Err(ApiError::new("clipboard_unavailable", message))
}

/// Takes the output of the clipboard program. Where it is refused, the program is to be stopped.
pub fn take_clipboard(read: ClipboardRead) -> (r: ApiResult<Vec<u8>>)
    ensures
        (match r {
            Ok(output) => Ok(output@),
            Err(error) => Err(error@),
        }) == clipboard_output(read@),
{
    match read {
        ClipboardRead::NoProgram => clipboard_error("Could not execute wl-paste"),
        ClipboardRead::NoOutput => clipboard_error("Could not read the clipboard"),
        ClipboardRead::TimedOut => clipboard_error("Reading the clipboard timed out"),
        ClipboardRead::Failed => clipboard_error("Could not read the clipboard"),
        ClipboardRead::Read { output } => {
            if output.len() > offer::MAX_TEXT_BYTES {
                return Err(
                    ApiError::new(
                        "text_too_large",
                        "Clipboard text is limited to 524288 UTF-8 bytes",
                    ),
                );
            }
            Ok(output)
        },
    }
}

/// How a program ended.
#[derive(Clone, Copy, Debug, PartialEq, Eq, Structural)]
pub enum ProgramEnd {
    Exited { success: bool },
    Unknown,
    StillRunning,
}

/// The text of the clipboard: the program must have succeeded, and its output be valid UTF-8.
pub open spec fn clipboard_text_of(output: Seq<u8>, end: ProgramEnd) -> Result<
    Seq<char>,
    rpc::ApiErrorView,
> {
    match end {
        ProgramEnd::Unknown => Err(no_clipboard("wl-paste failed"@)),
        ProgramEnd::StillRunning => Err(no_clipboard("wl-paste did not exit"@)),
        ProgramEnd::Exited { success } => if !success {
            Err(no_clipboard("wl-paste could not read the clipboard"@))
        } else {
            match text::utf8_text(output) {
                Some(text) => Ok(text),
                None => Err(
                    rpc::api_error(
                        "clipboard_not_text"@,
                        "Clipboard contents are not valid UTF-8 text"@,
                    ),
                ),
            }
        },
    }
}

/// The text of the clipboard from the output of the program that reads it.
pub fn clipboard_text(output: Vec<u8>, end: ProgramEnd) -> (r: ApiResult<String>)
    ensures
        (match r {
            Ok(text) => Ok(text@),
            Err(error) => Err(error@),
        }) == clipboard_text_of(output@, end),
{
    match end {
        ProgramEnd::Unknown => clipboard_error("wl-paste failed"),
        ProgramEnd::StillRunning => clipboard_error("wl-paste did not exit"),
        ProgramEnd::Exited { success } => {
            if !success {
                return clipboard_error("wl-paste could not read the clipboard");
            }
            match text::text_from_utf8(output) {
                Some(text) => Ok(text),
                None => Err(
                    ApiError::new(
                        "clipboard_not_text",
                        "Clipboard contents are not valid UTF-8 text",
                    ),
                ),
            }
        },
    }
}

/// What writing the clipboard comes to.
#[derive(Clone, Copy, Debug, PartialEq, Eq, Structural)]
pub enum ClipboardWrite {
    NoProgram,
    NoInput,
    Failed,
    TimedOut,
    Exited { success: bool },
}

pub open spec fn clipboard_verdict(write: ClipboardWrite) -> Result<(), rpc::ApiErrorView> {
    match write {
        ClipboardWrite::NoProgram => Err(no_clipboard("Could not execute wl-copy"@)),
        ClipboardWrite::NoInput => Err(no_clipboard("Could not write the clipboard"@)),
        ClipboardWrite::Failed => Err(no_clipboard("Could not write the clipboard"@)),
        ClipboardWrite::TimedOut => Err(no_clipboard("Writing the clipboard timed out"@)),
        ClipboardWrite::Exited { success } => if success {
            Ok(())
        } else {
            Err(no_clipboard("wl-copy could not write the clipboard"@))
        },
    }
}

/// Whether a text was copied to the clipboard.
pub fn check_clipboard_write(write: ClipboardWrite) -> (r: ApiResult<()>)
    ensures
        rpc::verdict(r) == clipboard_verdict(write),
{
    match write {
        ClipboardWrite::NoProgram => clipboard_error("Could not execute wl-copy"),
        ClipboardWrite::NoInput => clipboard_error("Could not write the clipboard"),
        ClipboardWrite::Failed => clipboard_error("Could not write the clipboard"),
        ClipboardWrite::TimedOut => clipboard_error("Writing the clipboard timed out"),
        ClipboardWrite::Exited { success } => {
            if success {
                Ok(())
            } else {
                clipboard_error("wl-copy could not write the clipboard")
            }
        },
    }
}

} // verus!
