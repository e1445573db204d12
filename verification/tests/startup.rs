use localsend_controller::startup::{
    check_config, check_destination, check_parent, plan_probed, plan_rechecked, plan_socket,
    DaemonConfig, ParentDirectory, Probe, SocketGuard, SocketPath, SocketStep,
};

fn config(port: u16, socket: &str, destination: &str) -> DaemonConfig {
    DaemonConfig {
        socket: socket.as_bytes().to_vec(),
        port,
        destination: destination.as_bytes().to_vec(),
        alias: "Desk".to_string(),
        state_directory: b"/state".to_vec(),
    }
}

#[test]
fn configurations_are_checked() {
    assert_eq!(check_config(&config(1, "/s", "/d")), Ok(()));
    assert_eq!(
        check_config(&config(0, "s", "d")),
        Err("Port 0 is not supported")
    );
    assert_eq!(
        check_config(&config(1, "s", "d")),
        Err("Socket path must be absolute")
    );
    assert_eq!(
        check_config(&config(1, "/s", "")),
        Err("Destination path must be absolute")
    );
}

#[test]
fn destinations_are_directories_with_readable_names() {
    assert_eq!(
        check_destination(true, b"/dl".to_vec()),
        Ok("/dl".to_string())
    );
    assert_eq!(
        check_destination(false, b"/dl".to_vec()),
        Err("Destination is not a directory")
    );
    assert_eq!(
        check_destination(true, vec![b'/', 0xc3]),
        Err("Destination path must be valid UTF-8")
    );
}

#[test]
fn the_socket_stands_in_a_private_directory() {
    let private = ParentDirectory {
        is_dir: true,
        is_link: false,
        uid: 1000,
        mode: 0o40755,
    };
    assert_eq!(check_parent(private, 1000), Ok(()));
    let invalid = Err("Socket parent directory is invalid");
    let shared = Err("Socket parent directory must be private to the current user");
    assert_eq!(
        check_parent(
            ParentDirectory {
                is_dir: false,
                ..private
            },
            1000
        ),
        invalid
    );
    assert_eq!(
        check_parent(
            ParentDirectory {
                is_link: true,
                ..private
            },
            1000
        ),
        invalid
    );
    assert_eq!(check_parent(private, 1001), shared);
    for mode in [0o40775, 0o40757, 0o40720] {
        assert_eq!(check_parent(ParentDirectory { mode, ..private }, 1000), shared);
    }
}

#[test]
fn only_stale_sockets_are_replaced() {
    let socket = SocketPath::Present {
        is_socket: true,
        device: 1,
        inode: 2,
    };
    let other = SocketPath::Present {
        is_socket: true,
        device: 1,
        inode: 3,
    };
    let file = SocketPath::Present {
        is_socket: false,
        device: 1,
        inode: 2,
    };
    assert_eq!(plan_socket(SocketPath::Missing), Ok(SocketStep::Bind));
    assert_eq!(plan_socket(socket), Ok(SocketStep::Probe));
    assert_eq!(
        plan_socket(file),
        Err("Refusing to replace a non-socket management path")
    );
    assert_eq!(
        plan_socket(SocketPath::Uninspectable),
        Err("Could not inspect management socket")
    );
    assert_eq!(
        plan_probed(Probe::Answered),
        Err("A LocalSend controller daemon is already running")
    );
    assert_eq!(plan_probed(Probe::Refused), Ok(SocketStep::Recheck));
    assert_eq!(
        plan_probed(Probe::Failed),
        Err("Could not verify existing management socket")
    );
    assert_eq!(plan_rechecked(socket, socket), Ok(SocketStep::Replace));
    for now in [other, file, SocketPath::Missing] {
        assert_eq!(
            plan_rechecked(socket, now),
            Err("Management socket changed while checking whether it was stale")
        );
    }
    let guard = SocketGuard {
        device: 1,
        inode: 2,
    };
    assert!(guard.removes(socket));
    assert!(!guard.removes(other));
    assert!(!guard.removes(file));
    assert!(!guard.removes(SocketPath::Missing));
}
