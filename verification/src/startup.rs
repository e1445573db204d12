//! Checks before the daemon starts: its configuration, its directories and its socket.
use crate::identity;
use crate::paths;
use crate::text;
use vstd::prelude::*;

verus! {

/// How the daemon is to run. Paths are bytes.
#[derive(Debug)]
pub struct DaemonConfig {
    pub socket: Vec<u8>,
    pub port: u16,
    pub destination: Vec<u8>,
    pub alias: String,
    pub state_directory: Vec<u8>,
}

/// The verdict on a configuration: a port, and absolute paths for the socket and the destination.
pub open spec fn config_verdict(port: u16, socket: Seq<u8>, destination: Seq<u8>) -> Result<
    (),
    Seq<char>,
> {
    if port == 0 {
        Err("Port 0 is not supported"@)
    } else if !paths::is_absolute(socket) {
        Err("Socket path must be absolute"@)
    } else if !paths::is_absolute(destination) {
        Err("Destination path must be absolute"@)
    } else {
        Ok(())
    }
}

pub fn check_config(config: &DaemonConfig) -> (r: Result<(), &'static str>)
    ensures
        identity::outcome(r) == config_verdict(
            config.port,
            config.socket@,
            config.destination@,
        ),
{
    if config.port == 0 {
        return Err("Port 0 is not supported");
    }
    if !paths::absolute(config.socket.as_slice()) {
        return Err("Socket path must be absolute");
    }
    if !paths::absolute(config.destination.as_slice()) {
        return Err("Destination path must be absolute");
    }
    Ok(())
}

/// The destination as text: it must be a directory, and its real path valid UTF-8.
pub fn check_destination(is_dir: bool, path: Vec<u8>) -> (r: Result<String, &'static str>)
    ensures
        (match r {
            Ok(text) => Ok(text@),
            Err(message) => Err(message@),
        }) == (if !is_dir {
            Err("Destination is not a directory"@)
        } else {
            match text::utf8_text(path@) {
                Some(text) => Ok(text),
                None => Err("Destination path must be valid UTF-8"@),
            }
        }),
{
    if !is_dir {
        return Err("Destination is not a directory");
    }
    match text::text_from_utf8(path) {
        Some(text) => Ok(text),
        None => Err("Destination path must be valid UTF-8"),
    }
}

/// What is known of the directory that the socket stands in.
#[derive(Clone, Copy, Debug, PartialEq, Eq, Structural)]
pub struct ParentDirectory {
    pub is_dir: bool,
    pub is_link: bool,
    pub uid: u32,
    pub mode: u32,
}

/// The verdict on the directory that the socket stands in: a real directory of the same user, in
/// which nobody else may write.
pub open spec fn parent_verdict(parent: ParentDirectory, own: u32) -> Result<(), Seq<char>> {
    if !parent.is_dir || parent.is_link {
        Err("Socket parent directory is invalid"@)
    } else if parent.uid != own || parent.mode & 0o022 != 0 {
        Err("Socket parent directory must be private to the current user"@)
    } else {
        Ok(())
    }
}

pub fn check_parent(parent: ParentDirectory, own: u32) -> (r: Result<(), &'static str>)
    ensures
        identity::outcome(r) == parent_verdict(parent, own),
{
    if !parent.is_dir || parent.is_link {
        return Err("Socket parent directory is invalid");
    }
    if parent.uid != own || parent.mode & 0o022 != 0 {
        return Err("Socket parent directory must be private to the current user");
    }
    Ok(())
}

/// What is at the path of the socket.
#[derive(Clone, Copy, Debug, PartialEq, Eq, Structural)]
pub enum SocketPath {
    Missing,
    Uninspectable,
    Present { is_socket: bool, device: u64, inode: u64 },
}

/// What is to be done about the path of the socket.
#[derive(Clone, Copy, Debug, PartialEq, Eq, Structural)]
pub enum SocketStep {
    /// Create the socket.
    Bind,
    /// Try whether a daemon answers at the socket that is there.
    Probe,
    /// Look again whether the same socket is there.
    Recheck,
    /// Remove the socket that is there, then create another.
    Replace,
}

pub open spec fn socket_plan(found: SocketPath) -> Result<SocketStep, Seq<char>> {
    match found {
        SocketPath::Missing => Ok(SocketStep::Bind),
        SocketPath::Uninspectable => Err("Could not inspect management socket"@),
        SocketPath::Present { is_socket, .. } => if is_socket {
            Ok(SocketStep::Probe)
        } else {
            Err("Refusing to replace a non-socket management path"@)
        },
    }
}

/// Decides what is done about what is at the path of the socket: only a socket is replaced, and
/// only after it was tried.
pub fn plan_socket(found: SocketPath) -> (step: Result<SocketStep, &'static str>)
    ensures
        identity::outcome(step) == socket_plan(found),
{
    match found {
        SocketPath::Missing => Ok(SocketStep::Bind),
        SocketPath::Uninspectable => Err("Could not inspect management socket"),
        SocketPath::Present { is_socket, .. } => if is_socket {
            Ok(SocketStep::Probe)
        } else {
            Err("Refusing to replace a non-socket management path")
        },
    }
}

/// What trying the socket that is there comes to.
#[derive(Clone, Copy, Debug, PartialEq, Eq, Structural)]
pub enum Probe {
    Answered,
    Refused,
    Failed,
}

pub open spec fn probe_plan(probe: Probe) -> Result<SocketStep, Seq<char>> {
    match probe {
        Probe::Answered => Err("A LocalSend controller daemon is already running"@),
        Probe::Refused => Ok(SocketStep::Recheck),
        Probe::Failed => Err("Could not verify existing management socket"@),
    }
}

/// Decides what is done about a socket that was tried: it is stale only if nobody listens.
pub fn plan_probed(probe: Probe) -> (step: Result<SocketStep, &'static str>)
    ensures
        identity::outcome(step) == probe_plan(probe),
{
    match probe {
        Probe::Answered => Err("A LocalSend controller daemon is already running"),
        Probe::Refused => Ok(SocketStep::Recheck),
        Probe::Failed => Err("Could not verify existing management socket"),
    }
}

/// True when the same socket is found twice.
pub open spec fn is_same_socket(before: SocketPath, now: SocketPath) -> bool {
    match (before, now) {
        (
            SocketPath::Present { device, inode, .. },
            SocketPath::Present { is_socket, device: d, inode: i },
        ) => is_socket && d == device && i == inode,
        _ => false,
    }
}

fn same_socket(before: SocketPath, now: SocketPath) -> (r: bool)
    ensures
        r == is_same_socket(before, now),
{
    match before {
        SocketPath::Present { is_socket: _, device, inode } => match now {
            SocketPath::Present { is_socket, device: d, inode: i } => is_socket && d == device && i
                == inode,
            _ => false,
        },
        _ => false,
    }
}

/// Decides what is done about a stale socket: it is replaced if it is still the one that was tried.
pub fn plan_rechecked(before: SocketPath, now: SocketPath) -> (step: Result<
    SocketStep,
    &'static str,
>)
    ensures
        identity::outcome(step) == (if is_same_socket(before, now) {
            Ok(SocketStep::Replace)
        } else {
            Err("Management socket changed while checking whether it was stale"@)
        }),
{
    if same_socket(before, now) {
        Ok(SocketStep::Replace)
    } else {
        Err("Management socket changed while checking whether it was stale")
    }
}

/// The socket that this daemon created.
#[derive(Clone, Copy, Debug, PartialEq, Eq, Structural)]
pub struct SocketGuard {
    pub device: u64,
    pub inode: u64,
}

impl SocketGuard {
    /// Whether what is at the path is removed in the end: only the socket that this daemon created.
    pub fn removes(&self, found: SocketPath) -> (r: bool)
        ensures
            r == is_same_socket(
                SocketPath::Present { is_socket: true, device: self.device, inode: self.inode },
                found,
            ),
    {
        same_socket(
            SocketPath::Present { is_socket: true, device: self.device, inode: self.inode },
            found,
        )
    }
}

/// A socket at which a daemon answers is never replaced, nor is anything that is not a socket.
pub proof fn lemma_live_socket_stays(found: SocketPath, probe: Probe, again: SocketPath)
    requires
        socket_plan(found) == Ok::<SocketStep, Seq<char>>(SocketStep::Probe),
        probe_plan(probe) == Ok::<SocketStep, Seq<char>>(SocketStep::Recheck),
        is_same_socket(found, again),
    ensures
        probe == Probe::Refused,
        found is Present && found->is_socket,
        again is Present && again->is_socket,
{
}

} // verus!
