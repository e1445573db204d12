use localsend_controller::client::{
    absolute_paths, check_clipboard_write, clipboard_text, command_to_request, take_clipboard,
    ClipboardRead, ClipboardWrite, Command, CommandStep, ProgramEnd,
};
use localsend_controller::rpc::RpcRequest;

fn sent(command: Command) -> RpcRequest {
    match command_to_request(command, Some(b"/work".to_vec())).unwrap() {
        CommandStep::Send { request } => request,
        CommandStep::ReadClipboard { .. } => panic!("no clipboard is needed"),
    }
}

#[test]
fn commands_become_requests() {
    assert!(matches!(sent(Command::Ping), RpcRequest::Ping {}));
    assert!(matches!(sent(Command::Snapshot), RpcRequest::Snapshot {}));
    assert!(matches!(sent(Command::Refresh), RpcRequest::Refresh {}));
    assert!(matches!(sent(Command::Shutdown), RpcRequest::Shutdown {}));
    match sent(Command::SendText {
        device: "D".to_string(),
        text: "T".to_string(),
    }) {
        RpcRequest::SendText { device, text } => {
            assert_eq!((device.as_str(), text.as_str()), ("D", "T"))
        }
        _ => panic!("wrong request"),
    }
    match sent(Command::SendFiles {
        device: "D".to_string(),
        paths: vec![b"a".to_vec(), b"/b".to_vec()],
    }) {
        RpcRequest::SendFiles { device, paths } => {
            assert_eq!(device, "D");
            assert_eq!(paths, ["/work/a", "/b"]);
        }
        _ => panic!("wrong request"),
    }
    match sent(Command::Accept {
        request: "R".to_string(),
    }) {
        RpcRequest::Accept { request } => assert_eq!(request, "R"),
        _ => panic!("wrong request"),
    }
    match sent(Command::Decline {
        request: "R".to_string(),
    }) {
        RpcRequest::Decline { request } => assert_eq!(request, "R"),
        _ => panic!("wrong request"),
    }
    match sent(Command::Cancel {
        transfer: "T".to_string(),
    }) {
        RpcRequest::Cancel { transfer } => assert_eq!(transfer, "T"),
        _ => panic!("wrong request"),
    }
    match command_to_request(
        Command::SendClipboard {
            device: "D".to_string(),
        },
        None,
    )
    .unwrap()
    {
        CommandStep::ReadClipboard { device } => assert_eq!(device, "D"),
        CommandStep::Send { .. } => panic!("the clipboard is needed"),
    }
    let error = command_to_request(Command::Daemon, None).unwrap_err();
    assert_eq!(error.code, "invalid_arguments");
    assert_eq!(
        error.message,
        "Daemon command cannot be sent as an RPC request"
    );
}

#[test]
fn paths_are_made_absolute() {
    let current = || Some(b"/work/".to_vec());
    assert_eq!(
        absolute_paths(current(), &vec![b"x y".to_vec()]).unwrap(),
        ["/work/x y"]
    );
    assert_eq!(absolute_paths(current(), &vec![]).unwrap().len(), 0);
    let error = absolute_paths(None, &vec![b"/x".to_vec()]).unwrap_err();
    assert_eq!(error.code, "invalid_path");
    assert_eq!(error.message, "Could not determine the current directory");
    let error = absolute_paths(current(), &vec![b"a".to_vec(), vec![0xff]]).unwrap_err();
    assert_eq!(error.code, "invalid_path");
    assert_eq!(error.message, "Selected path is not valid UTF-8");
}

#[test]
fn the_clipboard_is_read_within_its_limit() {
    let told = |read: ClipboardRead| {
        let error = take_clipboard(read).unwrap_err();
        (error.code, error.message)
    };
    let unavailable = |message: &str| ("clipboard_unavailable".to_string(), message.to_string());
    assert_eq!(
        told(ClipboardRead::NoProgram),
        unavailable("Could not execute wl-paste")
    );
    assert_eq!(
        told(ClipboardRead::NoOutput),
        unavailable("Could not read the clipboard")
    );
    assert_eq!(
        told(ClipboardRead::TimedOut),
        unavailable("Reading the clipboard timed out")
    );
    assert_eq!(
        told(ClipboardRead::Failed),
        unavailable("Could not read the clipboard")
    );
    assert_eq!(
        told(ClipboardRead::Read {
            output: vec![b'x'; 524_289]
        }),
        (
            "text_too_large".to_string(),
            "Clipboard text is limited to 524288 UTF-8 bytes".to_string()
        )
    );
    let output = take_clipboard(ClipboardRead::Read {
        output: vec![b'x'; 524_288],
    })
    .unwrap();
    assert_eq!(output.len(), 524_288);
}

#[test]
fn the_clipboard_holds_text() {
    let done = ProgramEnd::Exited { success: true };
    assert_eq!(clipboard_text("é".into(), done).unwrap(), "é");
    let told = |output: Vec<u8>, end: ProgramEnd| {
        let error = clipboard_text(output, end).unwrap_err();
        (error.code, error.message)
    };
    let unavailable = |message: &str| ("clipboard_unavailable".to_string(), message.to_string());
    assert_eq!(
        told(vec![], ProgramEnd::Unknown),
        unavailable("wl-paste failed")
    );
    assert_eq!(
        told(vec![], ProgramEnd::StillRunning),
        unavailable("wl-paste did not exit")
    );
    assert_eq!(
        told(vec![], ProgramEnd::Exited { success: false }),
        unavailable("wl-paste could not read the clipboard")
    );
    assert_eq!(
        told(vec![0xff], done),
        (
            "clipboard_not_text".to_string(),
            "Clipboard contents are not valid UTF-8 text".to_string()
        )
    );
}

#[test]
fn writing_the_clipboard_can_fail() {
    assert!(check_clipboard_write(ClipboardWrite::Exited { success: true }).is_ok());
    let told = |write: ClipboardWrite| {
        let error = check_clipboard_write(write).unwrap_err();
        assert_eq!(error.code, "clipboard_unavailable");
        error.message
    };
    assert_eq!(told(ClipboardWrite::NoProgram), "Could not execute wl-copy");
    assert_eq!(told(ClipboardWrite::NoInput), "Could not write the clipboard");
    assert_eq!(told(ClipboardWrite::Failed), "Could not write the clipboard");
    assert_eq!(
        told(ClipboardWrite::TimedOut),
        "Writing the clipboard timed out"
    );
    assert_eq!(
        told(ClipboardWrite::Exited { success: false }),
        "wl-copy could not write the clipboard"
    );
}
