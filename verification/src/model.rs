//! What the LocalSend protocol says of files, devices and senders, as plain values.
use crate::text;
use vstd::prelude::*;

verus! {

#[derive(Clone, Copy, Debug, PartialEq, Eq, Structural)]
pub enum DeviceType {
    Mobile,
    Desktop,
    Web,
    Headless,
    Server,
}

#[derive(Clone, Copy, Debug, PartialEq, Eq, Structural)]
pub enum ProtocolType {
    Http,
    Https,
}

/// The written name of a kind of device.
pub open spec fn device_type_text(device_type: DeviceType) -> Seq<char> {
    match device_type {
        DeviceType::Mobile => "mobile"@,
        DeviceType::Desktop => "desktop"@,
        DeviceType::Web => "web"@,
        DeviceType::Headless => "headless"@,
        DeviceType::Server => "server"@,
    }
}

/// The written name of a protocol.
pub open spec fn protocol_text(protocol: ProtocolType) -> Seq<char> {
    match protocol {
        ProtocolType::Http => "http"@,
        ProtocolType::Https => "https"@,
    }
}

pub open spec fn opt_device_type_text(device_type: Option<DeviceType>) -> Option<Seq<char>> {
    match device_type {
        Some(device_type) => Some(device_type_text(device_type)),
        None => None,
    }
}

pub fn device_type_name(device_type: &DeviceType) -> (name: String)
    ensures
        name@ == device_type_text(*device_type),
{
    let name = match device_type {
        DeviceType::Mobile => "mobile",
        DeviceType::Desktop => "desktop",
        DeviceType::Web => "web",
        DeviceType::Headless => "headless",
        DeviceType::Server => "server",
    };
    name.to_string()
}

pub fn opt_device_type_name(device_type: &Option<DeviceType>) -> (name: Option<String>)
    ensures
        text::opt_text(name) == opt_device_type_text(*device_type),
{
    match device_type {
        Some(device_type) => Some(device_type_name(device_type)),
        None => None,
    }
}

pub fn protocol_name(protocol: ProtocolType) -> (name: &'static str)
    ensures
        name@ == protocol_text(protocol),
{
    match protocol {
        ProtocolType::Http => "http",
        ProtocolType::Https => "https",
    }
}

/// Times that a file system keeps of a file.
#[derive(Debug)]
pub struct FileMetadata {
    pub modified: Option<String>,
    pub accessed: Option<String>,
}

#[verifier::ext_equal]
pub struct MetadataView {
    pub modified: Option<Seq<char>>,
    pub accessed: Option<Seq<char>>,
}

impl View for FileMetadata {
    type V = MetadataView;

    open spec fn view(&self) -> MetadataView {
        MetadataView {
            modified: text::opt_text(self.modified),
            accessed: text::opt_text(self.accessed),
        }
    }
}

pub open spec fn opt_metadata(metadata: Option<FileMetadata>) -> Option<MetadataView> {
    match metadata {
        Some(metadata) => Some(metadata@),
        None => None,
    }
}

/// A file as the protocol describes it.
#[derive(Debug)]
pub struct FileDto {
    pub id: String,
    pub file_name: String,
    pub size: u64,
    pub file_type: String,
    pub sha256: Option<String>,
    pub preview: Option<String>,
    pub metadata: Option<FileMetadata>,
}

#[verifier::ext_equal]
pub struct FileDtoView {
    pub id: Seq<char>,
    pub file_name: Seq<char>,
    pub size: u64,
    pub file_type: Seq<char>,
    pub sha256: Option<Seq<char>>,
    pub preview: Option<Seq<char>>,
    pub metadata: Option<MetadataView>,
}

impl View for FileDto {
    type V = FileDtoView;

    open spec fn view(&self) -> FileDtoView {
        FileDtoView {
            id: self.id@,
            file_name: self.file_name@,
            size: self.size,
            file_type: self.file_type@,
            sha256: text::opt_text(self.sha256),
            preview: text::opt_text(self.preview),
            metadata: opt_metadata(self.metadata),
        }
    }
}

impl Clone for FileMetadata {
    fn clone(&self) -> (copy: Self)
        ensures
            copy == *self,
    {
        FileMetadata {
            modified: text::clone_opt(&self.modified),
            accessed: text::clone_opt(&self.accessed),
        }
    }
}

impl Clone for FileDto {
    fn clone(&self) -> (copy: Self)
        ensures
            copy == *self,
    {
        FileDto {
            id: self.id.clone(),
            file_name: self.file_name.clone(),
            size: self.size,
            file_type: self.file_type.clone(),
            sha256: text::clone_opt(&self.sha256),
            preview: text::clone_opt(&self.preview),
            metadata: match &self.metadata {
                Some(metadata) => Some(metadata.clone()),
                None => None,
            },
        }
    }
}

/// An entry of an offer: a file under the key by which the sender lists it.
#[derive(Debug)]
pub struct OfferEntry {
    pub key: String,
    pub file: FileDto,
}

#[verifier::ext_equal]
pub struct EntryView {
    pub key: Seq<char>,
    pub file: FileDtoView,
}

impl View for OfferEntry {
    type V = EntryView;

    open spec fn view(&self) -> EntryView {
        EntryView { key: self.key@, file: self.file@ }
    }
}

/// What a device says of itself when it registers.
#[derive(Debug)]
pub struct RegisterDto {
    pub alias: String,
    pub version: String,
    pub device_model: Option<String>,
    pub device_type: Option<DeviceType>,
    pub fingerprint: String,
    pub port: u16,
    pub protocol: ProtocolType,
    pub download: bool,
}

#[verifier::ext_equal]
pub struct RegisterView {
    pub alias: Seq<char>,
    pub version: Seq<char>,
    pub device_model: Option<Seq<char>>,
    pub device_type: Option<DeviceType>,
    pub fingerprint: Seq<char>,
    pub port: u16,
    pub protocol: ProtocolType,
    pub download: bool,
}

impl View for RegisterDto {
    type V = RegisterView;

    open spec fn view(&self) -> RegisterView {
        RegisterView {
            alias: self.alias@,
            version: self.version@,
            device_model: text::opt_text(self.device_model),
            device_type: self.device_type,
            fingerprint: self.fingerprint@,
            port: self.port,
            protocol: self.protocol,
            download: self.download,
        }
    }
}

/// An address at which a device answers.
#[derive(Debug)]
pub struct HttpChannel {
    pub host: String,
    pub port: u16,
    pub protocol: ProtocolType,
}

#[verifier::ext_equal]
pub struct ChannelView {
    pub host: Seq<char>,
    pub port: u16,
    pub protocol: ProtocolType,
}

impl View for HttpChannel {
    type V = ChannelView;

    open spec fn view(&self) -> ChannelView {
        ChannelView { host: self.host@, port: self.port, protocol: self.protocol }
    }
}

impl Clone for HttpChannel {
    fn clone(&self) -> (copy: Self)
        ensures
            copy == *self,
    {
        HttpChannel { host: self.host.clone(), port: self.port, protocol: self.protocol }
    }
}

pub open spec fn opt_channel(channel: Option<HttpChannel>) -> Option<ChannelView> {
    match channel {
        Some(channel) => Some(channel@),
        None => None,
    }
}

/// Where the sender of an incoming transfer is reached.
#[derive(Debug)]
pub struct SenderTarget {
    pub host: String,
    pub port: u16,
    pub protocol: ProtocolType,
    pub fingerprint: String,
}

#[verifier::ext_equal]
pub struct TargetView {
    pub host: Seq<char>,
    pub port: u16,
    pub protocol: ProtocolType,
    pub fingerprint: Seq<char>,
}

impl View for SenderTarget {
    type V = TargetView;

    open spec fn view(&self) -> TargetView {
        TargetView {
            host: self.host@,
            port: self.port,
            protocol: self.protocol,
            fingerprint: self.fingerprint@,
        }
    }
}

impl Clone for SenderTarget {
    fn clone(&self) -> (copy: Self)
        ensures
            copy == *self,
    {
        SenderTarget {
            host: self.host.clone(),
            port: self.port,
            protocol: self.protocol,
            fingerprint: self.fingerprint.clone(),
        }
    }
}

/// The certificate fingerprint that a peer must show: its own where it speaks HTTPS, none where it
/// speaks HTTP.
pub open spec fn expected_fingerprint_text(protocol: ProtocolType, fingerprint: Seq<char>) -> Option<
    Seq<char>,
> {
    match protocol {
        ProtocolType::Https => Some(fingerprint),
        ProtocolType::Http => None,
    }
}

pub fn expected_fingerprint(protocol: ProtocolType, fingerprint: &str) -> (expected: Option<String>)
    ensures
        text::opt_text(expected) == expected_fingerprint_text(protocol, fingerprint@),
{
    match protocol {
        ProtocolType::Https => Some(fingerprint.to_string()),
        ProtocolType::Http => None,
    }
}

} // verus!
