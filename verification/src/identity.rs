//! Who this device is on the network, and where it keeps its state.
use crate::model::{DeviceType, ProtocolType, RegisterDto};
use crate::model;
use crate::paths;
use crate::text;
use vstd::prelude::*;
use vstd::string::*;

verus! {

/// Largest identity file that is read, in bytes.
pub const MAX_IDENTITY_BYTES: u64 = 131_072;

/// Largest preferences file that is read, in bytes.
pub const MAX_PREFERENCES_BYTES: u64 = 2_097_152;

/// The name, address and keys of this device.
#[derive(Debug)]
pub struct Identity {
    pub alias: String,
    pub port: u16,
    pub cert_pem: String,
    pub key_pem: String,
    pub fingerprint: String,
}

#[verifier::ext_equal]
pub struct IdentityView {
    pub alias: Seq<char>,
    pub port: u16,
    pub cert_pem: Seq<char>,
    pub key_pem: Seq<char>,
    pub fingerprint: Seq<char>,
}

impl View for Identity {
    type V = IdentityView;

    open spec fn view(&self) -> IdentityView {
        IdentityView {
            alias: self.alias@,
            port: self.port,
            cert_pem: self.cert_pem@,
            key_pem: self.key_pem@,
            fingerprint: self.fingerprint@,
        }
    }
}

impl Clone for Identity {
    fn clone(&self) -> (copy: Self)
        ensures
            copy == *self,
    {
        Identity {
            alias: self.alias.clone(),
            port: self.port,
            cert_pem: self.cert_pem.clone(),
            key_pem: self.key_pem.clone(),
            fingerprint: self.fingerprint.clone(),
        }
    }
}

/// A block of a PEM file: its tag, its contents, and the block written out anew.
#[derive(Debug)]
pub struct PemBlock {
    pub tag: String,
    pub contents: Vec<u8>,
    pub encoded: String,
}

/// The blocks of a PEM text, each as its tag, its contents and the block written out anew, where
/// the text can be parsed.
pub uninterp spec fn pem_blocks(text: Seq<char>) -> Option<
    Seq<(Seq<char>, Seq<u8>, Seq<char>)>,
>;

/// The model of a list of blocks.
pub open spec fn block_views(blocks: Seq<PemBlock>) -> Seq<(Seq<char>, Seq<u8>, Seq<char>)> {
    blocks.map_values(|block: PemBlock| (block.tag@, block.contents@, block.encoded@))
}

/// `pem::parse_many`, with each block written out by `pem::encode`. Claimed: blocks and their
/// written form depend on the text alone. Which texts parse, and into what, is left unsaid.
#[verifier::external_body]
fn parse_pem(text: &str) -> (blocks: Option<Vec<PemBlock>>)
    ensures
        (match blocks {
            Some(blocks) => Some(block_views(blocks@)),
            None => None,
        }) == pem_blocks(text@),
{
    let blocks = pem::parse_many(text).ok()?;
    Some(
        blocks.iter().map(
            |block| PemBlock {
                tag: block.tag().to_string(),
                contents: block.contents().to_vec(),
                encoded: pem::encode(block),
            },
        ).collect(),
    )
}

/// True of the PEM texts that hold a private key that can sign.
pub uninterp spec fn is_usable_key(text: Seq<char>) -> bool;

/// Whether `rcgen::KeyPair::from_pem` accepts a private key. Claimed: that depends on the text
/// alone. Which keys it accepts is left unsaid.
#[verifier::external_body]
fn key_pair_loads(text: &str) -> (r: bool)
    ensures
        r == is_usable_key(text@),
{
    rcgen::KeyPair::from_pem(text).is_ok()
}

/// Why a PEM text is not an identity.
#[derive(Clone, Copy, Debug, PartialEq, Eq, Structural)]
pub enum PemError {
    Unreadable,
    MissingCertificate,
    MissingPrivateKey,
    UnusablePrivateKey,
}

/// The place of the first block from `i` on that is a certificate; the number of blocks where none
/// is.
pub open spec fn certificate_place(
    blocks: Seq<(Seq<char>, Seq<u8>, Seq<char>)>,
    i: int,
) -> int
    decreases blocks.len() - i,
{
    if i < 0 || i >= blocks.len() {
        blocks.len() as int
    } else if blocks[i].0 == "CERTIFICATE"@ {
        i
    } else {
        certificate_place(blocks, i + 1)
    }
}

/// The place of the first block from `i` on that is a private key of some sort; the number of
/// blocks where none is.
pub open spec fn private_key_place(
    blocks: Seq<(Seq<char>, Seq<u8>, Seq<char>)>,
    i: int,
) -> int
    decreases blocks.len() - i,
{
    if i < 0 || i >= blocks.len() {
        blocks.len() as int
    } else if text::finishes_with(blocks[i].0, "PRIVATE KEY"@) {
        i
    } else {
        private_key_place(blocks, i + 1)
    }
}

/// The parts of an identity that a file holds: the certificate and the key as PEM text, and the
/// contents of the certificate.
#[derive(Debug)]
pub struct KeyMaterial {
    pub cert_pem: String,
    pub key_pem: String,
    pub cert_der: Vec<u8>,
}

/// The key material among blocks: the first certificate and the first private key.
pub open spec fn material_in(blocks: Option<Seq<(Seq<char>, Seq<u8>, Seq<char>)>>) -> Result<
    (Seq<char>, Seq<char>, Seq<u8>),
    PemError,
> {
    match blocks {
        None => Err(PemError::Unreadable),
        Some(blocks) => {
            let cert = certificate_place(blocks, 0);
            let key = private_key_place(blocks, 0);
            if cert >= blocks.len() {
                Err(PemError::MissingCertificate)
            } else if key >= blocks.len() {
                Err(PemError::MissingPrivateKey)
            } else {
                Ok((blocks[cert].2, blocks[key].2, blocks[cert].1))
            }
        },
    }
}

pub open spec fn material_view(material: Result<KeyMaterial, PemError>) -> Result<
    (Seq<char>, Seq<char>, Seq<u8>),
    PemError,
> {
    match material {
        Ok(material) => Ok((material.cert_pem@, material.key_pem@, material.cert_der@)),
        Err(error) => Err(error),
    }
}

fn find_certificate(blocks: &Vec<PemBlock>) -> (place: usize)
    ensures
        place == certificate_place(block_views(blocks@), 0),
        place <= blocks@.len(),
{
    let ghost list = block_views(blocks@);
    let mut i: usize = 0;
    while i < blocks.len()
        invariant
            list == block_views(blocks@),
            i <= blocks@.len(),
            certificate_place(list, 0) == certificate_place(list, i as int),
        decreases blocks@.len() - i,
    {
        assert(list[i as int].0 == blocks@[i as int].tag@);
        if text::same_text(blocks[i].tag.as_str(), "CERTIFICATE") {
            return i;
        }
        i += 1;
    }
    i
}

fn find_private_key(blocks: &Vec<PemBlock>) -> (place: usize)
    ensures
        place == private_key_place(block_views(blocks@), 0),
        place <= blocks@.len(),
{
    let ghost list = block_views(blocks@);
    let mut i: usize = 0;
    while i < blocks.len()
        invariant
            list == block_views(blocks@),
            i <= blocks@.len(),
            private_key_place(list, 0) == private_key_place(list, i as int),
        decreases blocks@.len() - i,
    {
        assert(list[i as int].0 == blocks@[i as int].tag@);
        if text::ends_with(blocks[i].tag.as_str(), "PRIVATE KEY") {
            return i;
        }
        i += 1;
    }
    i
}

/// Picks the certificate and the private key out of the blocks of a file.
pub fn select_material(blocks: Option<Vec<PemBlock>>) -> (material: Result<KeyMaterial, PemError>)
    ensures
        material_view(material) == material_in(
            match blocks {
                Some(blocks) => Some(block_views(blocks@)),
                None => None,
            },
        ),
{
    match blocks {
        None => Err(PemError::Unreadable),
        Some(blocks) => {
            let ghost list = block_views(blocks@);
            let cert = find_certificate(&blocks);
            if cert >= blocks.len() {
                return Err(PemError::MissingCertificate);
            }
            let key = find_private_key(&blocks);
            if key >= blocks.len() {
                return Err(PemError::MissingPrivateKey);
            }
            assert(list[cert as int] == (
                blocks@[cert as int].tag@,
                blocks@[cert as int].contents@,
                blocks@[cert as int].encoded@,
            ));
            assert(list[key as int].2 == blocks@[key as int].encoded@);
            Ok(
                KeyMaterial {
                    cert_pem: blocks[cert].encoded.clone(),
                    key_pem: blocks[key].encoded.clone(),
                    cert_der: paths::owned(blocks[cert].contents.as_slice()),
                },
            )
        },
    }
}

/// Key material whose private key is usable.
pub open spec fn only_usable(material: (Seq<char>, Seq<char>, Seq<u8>), usable: bool) -> Result<
    (Seq<char>, Seq<char>, Seq<u8>),
    PemError,
> {
    if usable {
        Ok(material)
    } else {
        Err(PemError::UnusablePrivateKey)
    }
}

/// Key material, if its private key is usable.
pub fn keep_usable(material: KeyMaterial, usable: bool) -> (r: Result<KeyMaterial, PemError>)
    ensures
        material_view(r) == only_usable(
            (material.cert_pem@, material.key_pem@, material.cert_der@),
            usable,
        ),
{
    if usable {
        Ok(material)
    } else {
        Err(PemError::UnusablePrivateKey)
    }
}

/// What a PEM text comes to: its key material, if the private key in it is usable.
pub open spec fn material_of(text: Seq<char>) -> Result<
    (Seq<char>, Seq<char>, Seq<u8>),
    PemError,
> {
    match material_in(pem_blocks(text)) {
        Ok(material) => only_usable(material, is_usable_key(material.1)),
        Err(error) => Err(error),
    }
}

impl Identity {
    /// Reads an identity from a PEM text that holds a certificate and a private key.
    /// `fingerprint_of` gives the fingerprint of a certificate from its contents.
    pub fn from_pem(
        text: &str,
        alias: String,
        port: u16,
        fingerprint_of: impl Fn(&Vec<u8>) -> String,
    ) -> (r: Result<Identity, PemError>)
        requires
            forall|der: &Vec<u8>| call_requires(fingerprint_of, (der,)),
        ensures
            match r {
                Ok(identity) => {
                    &&& identity.alias@ == alias@
                    &&& identity.port == port
                    &&& material_of(text@) is Ok
                    &&& identity.cert_pem@ == (material_of(text@)->Ok_0).0
                    &&& identity.key_pem@ == (material_of(text@)->Ok_0).1
                    &&& exists|der: Vec<u8>|
                        der@ == (material_of(text@)->Ok_0).2 && call_ensures(
                            fingerprint_of,
                            (&der,),
                            identity.fingerprint,
                        )
                },
                Err(error) => material_of(text@) == Err::<(Seq<char>, Seq<char>, Seq<u8>), _>(
                    error,
                ),
            },
    {
        let material = match select_material(parse_pem(text)) {
            Ok(material) => material,
            Err(error) => {
                return Err(error);
            },
        };
        let usable = key_pair_loads(material.key_pem.as_str());
        let material = match keep_usable(material, usable) {
            Ok(material) => material,
            Err(error) => {
                return Err(error);
            },
        };
        let fingerprint = fingerprint_of(&material.cert_der);
        Ok(
            Identity {
                alias,
                port,
                cert_pem: material.cert_pem,
                key_pem: material.key_pem,
                fingerprint,
            },
        )
    }

    /// What the identity file holds: the certificate and, behind it, the private key.
    pub fn file_text(&self) -> (text: String)
        ensures
            text@ == self@.cert_pem + self@.key_pem,
    {
        text::join2(self.cert_pem.as_str(), self.key_pem.as_str())
    }

    /// The certificate and the key that the receiver answers with.
    pub fn tls_config(&self) -> (config: TlsConfig)
        ensures
            config.cert@ == self@.cert_pem,
            config.private_key@ == self@.key_pem,
    {
        TlsConfig { cert: self.cert_pem.clone(), private_key: self.key_pem.clone() }
    }

    /// What the receiver says of this device, in the given version of the protocol.
    pub fn client_info(&self, protocol_version: &str) -> (info: ClientInfo)
        ensures
            info.alias@ == self@.alias,
            info.version@ == protocol_version@,
            text::opt_text(info.device_model) == Some("Omarchy"@),
            info.device_type == Some(DeviceType::Headless),
            info.token@ == self@.fingerprint,
    {
        ClientInfo {
            alias: self.alias.clone(),
            version: protocol_version.to_string(),
            device_model: Some("Omarchy".to_string()),
            device_type: Some(DeviceType::Headless),
            token: self.fingerprint.clone(),
        }
    }

    /// How this device announces itself to the network, in the given version of the protocol.
    pub fn multicast_device(&self, protocol_version: &str) -> (info: RegisterDto)
        ensures
            info@ == presented(self@, protocol_version@),
    {
        self.register_dto(protocol_version)
    }

    /// How this device presents itself to others, in the given version of the protocol.
    pub fn register_dto(&self, protocol_version: &str) -> (info: RegisterDto)
        ensures
            info@ == presented(self@, protocol_version@),
    {
        RegisterDto {
            alias: self.alias.clone(),
            version: protocol_version.to_string(),
            device_model: Some("Omarchy".to_string()),
            device_type: Some(DeviceType::Headless),
            fingerprint: self.fingerprint.clone(),
            port: self.port,
            protocol: ProtocolType::Https,
            download: false,
        }
    }
}

/// A certificate and its private key, as PEM text.
#[derive(Debug)]
pub struct TlsConfig {
    pub cert: String,
    pub private_key: String,
}

/// What the receiver says of this device.
#[derive(Debug)]
pub struct ClientInfo {
    pub alias: String,
    pub version: String,
    pub device_model: Option<String>,
    pub device_type: Option<DeviceType>,
    pub token: String,
}

/// How a device presents itself to others.
pub open spec fn presented(identity: IdentityView, protocol_version: Seq<char>) -> model::RegisterView {
    model::RegisterView {
        alias: identity.alias,
        version: protocol_version,
        device_model: Some("Omarchy"@),
        device_type: Some(DeviceType::Headless),
        fingerprint: identity.fingerprint,
        port: identity.port,
        protocol: ProtocolType::Https,
        download: false,
    }
}

/// What is found where the identity file should be.
#[derive(Clone, Copy, Debug, PartialEq, Eq, Structural)]
pub enum IdentityFile {
    Missing,
    Uninspectable,
    Present { is_file: bool, len: u64 },
}

/// What is to be done about the identity file.
#[derive(Clone, Copy, Debug, PartialEq, Eq, Structural)]
pub enum IdentityStep {
    Generate,
    Read,
}

pub open spec fn identity_plan(found: IdentityFile) -> Result<IdentityStep, Seq<char>> {
    match found {
        IdentityFile::Missing => Ok(IdentityStep::Generate),
        IdentityFile::Uninspectable => Err("Could not inspect identity file"@),
        IdentityFile::Present { is_file, len } => if !is_file {
            Err("Identity path is not a file"@)
        } else if len > MAX_IDENTITY_BYTES {
            Err("Identity file is too large"@)
        } else {
            Ok(IdentityStep::Read)
        },
    }
}

/// The model of a result whose error is a message.
pub open spec fn outcome<T>(result: Result<T, &'static str>) -> Result<T, Seq<char>> {
    match result {
        Ok(value) => Ok(value),
        Err(message) => Err(message@),
    }
}

/// Decides whether the identity is read or generated: a missing file is generated, and what is
/// there must be a regular file that is not too large.
pub fn plan_identity(found: IdentityFile) -> (step: Result<IdentityStep, &'static str>)
    ensures
        outcome(step) == identity_plan(found),
{
    match found {
        IdentityFile::Missing => Ok(IdentityStep::Generate),
        IdentityFile::Uninspectable => Err("Could not inspect identity file"),
        IdentityFile::Present { is_file, len } => if !is_file {
            Err("Identity path is not a file")
        } else if len > MAX_IDENTITY_BYTES {
            Err("Identity file is too large")
        } else {
            Ok(IdentityStep::Read)
        },
    }
}

/// The verdict on an alias: it must not be blank, must have at most 128 characters, and must not
/// have control characters.
pub open spec fn alias_verdict(alias: Seq<char>) -> Result<(), Seq<char>> {
    if text::is_blank(alias) {
        Err("Alias must not be empty"@)
    } else if alias.len() > 128 {
        Err("Alias is too long"@)
    } else if text::has_control(alias) {
        Err("Alias contains control characters"@)
    } else {
        Ok(())
    }
}

pub fn validate_alias(alias: &str) -> (r: Result<(), &'static str>)
    ensures
        outcome(r) == alias_verdict(alias@),
{
    if text::is_blank_text(alias) {
        return Err("Alias must not be empty");
    }
    let len: usize = alias.unicode_len();
    if len > 128 {
        return Err("Alias is too long");
    }
    if text::contains_control(alias) {
        return Err("Alias contains control characters");
    }
    Ok(())
}

/// Whether the preferences of the graphical application are read: they must be a regular file that
/// is not too large.
pub fn reads_preferences(is_file: bool, len: u64) -> (r: bool)
    ensures
        r == (is_file && len <= MAX_PREFERENCES_BYTES),
{
    is_file && len <= MAX_PREFERENCES_BYTES
}

/// The alias that the preferences of the graphical application give, where it is a valid one.
pub open spec fn preferred_alias(alias: Option<Seq<char>>) -> Option<Seq<char>> {
    match alias {
        Some(alias) => if alias_verdict(alias) is Ok {
            Some(alias)
        } else {
            None
        },
        None => None,
    }
}

/// The alias that the preferences of the graphical application give, where it is a valid one.
pub fn gui_alias(alias: Option<String>) -> (r: Option<String>)
    ensures
        text::opt_text(r) == preferred_alias(text::opt_text(alias)),
{
    match alias {
        Some(alias) => match validate_alias(alias.as_str()) {
            Ok(_) => Some(alias),
            Err(_) => None,
        },
        None => None,
    }
}

/// The name of a host as an alias: without `.local` at its end, and `Omarchy` where nothing is
/// left.
pub open spec fn host_alias(hostname: Seq<char>) -> Seq<char> {
    let stem = text::without_endings(hostname, ".local"@);
    if stem.len() == 0 {
        "Omarchy"@
    } else {
        stem
    }
}

/// The alias of this device: the one that is asked for, if it is valid; else the valid one of the
/// graphical application; else the name of the host.
pub open spec fn resolved_alias(
    requested: Option<Seq<char>>,
    preferred: Option<Seq<char>>,
    hostname: Seq<char>,
) -> Result<Seq<char>, Seq<char>> {
    match requested {
        Some(alias) => match alias_verdict(alias) {
            Ok(_) => Ok(alias),
            Err(message) => Err(message),
        },
        None => match preferred_alias(preferred) {
            Some(alias) => Ok(alias),
            None => Ok(host_alias(hostname)),
        },
    }
}

pub fn resolve_alias(
    requested: Option<String>,
    preferred: Option<String>,
    hostname: &str,
) -> (alias: Result<String, &'static str>)
    ensures
        (match alias {
            Ok(alias) => Ok(alias@),
            Err(message) => Err(message@),
        }) == resolved_alias(text::opt_text(requested), text::opt_text(preferred), hostname@),
{
    if let Some(alias) = requested {
        return match validate_alias(alias.as_str()) {
            Ok(_) => Ok(alias),
            Err(message) => Err(message),
        };
    }
    if let Some(alias) = gui_alias(preferred) {
        return Ok(alias);
    }
    let stem = text::strip_endings(hostname, ".local");
    if stem.as_str().is_empty() {
        Ok("Omarchy".to_string())
    } else {
        Ok(stem)
    }
}

/// The path if it is there and absolute.
pub open spec fn only_absolute(path: Option<Seq<u8>>) -> Option<Seq<u8>> {
    match path {
        Some(path) => if paths::is_absolute(path) {
            Some(path)
        } else {
            None
        },
        None => None,
    }
}

fn keep_absolute(path: Option<Vec<u8>>) -> (r: Option<Vec<u8>>)
    ensures
        paths::opt_bytes(r) == only_absolute(paths::opt_bytes(path)),
{
    match path {
        Some(path) => if paths::absolute(path.as_slice()) {
            Some(path)
        } else {
            None
        },
        None => None,
    }
}

/// The home directory: `HOME` if it is an absolute path, else what the system says.
pub open spec fn home_of(home: Option<Seq<u8>>, system: Option<Seq<u8>>) -> Option<Seq<u8>> {
    match only_absolute(home) {
        Some(path) => Some(path),
        None => system,
    }
}

pub fn home_directory(home: Option<Vec<u8>>, system: Option<Vec<u8>>) -> (r: Option<Vec<u8>>)
    ensures
        paths::opt_bytes(r) == home_of(paths::opt_bytes(home), paths::opt_bytes(system)),
{
    match keep_absolute(home) {
        Some(path) => Some(path),
        None => system,
    }
}

/// One path behind another, where the first is there.
pub open spec fn below(base: Option<Seq<u8>>, tail: Seq<char>) -> Option<Seq<u8>> {
    match base {
        Some(base) => Some(paths::joined(base, vstd::utf8::encode_utf8(tail))),
        None => None,
    }
}

fn put_below(base: Option<Vec<u8>>, tail: &str) -> (r: Option<Vec<u8>>)
    ensures
        paths::opt_bytes(r) == below(paths::opt_bytes(base), tail@),
{
    match base {
        Some(base) => Some(paths::join(base.as_slice(), tail.as_bytes())),
        None => None,
    }
}

/// The model of a path or the message that says why there is none.
pub open spec fn path_outcome(path: Result<Vec<u8>, &'static str>) -> Result<
    Seq<u8>,
    Seq<char>,
> {
    match path {
        Ok(path) => Ok(path@),
        Err(message) => Err(message@),
    }
}

/// A path that must be there.
pub open spec fn demanded(path: Option<Seq<u8>>, message: Seq<char>) -> Result<
    Seq<u8>,
    Seq<char>,
> {
    match path {
        Some(path) => Ok(path),
        None => Err(message),
    }
}

/// Where the state of the daemon is kept: below `XDG_STATE_HOME` if that is an absolute path, else
/// below the home directory.
pub fn state_directory(state_home: Option<Vec<u8>>, home: Option<Vec<u8>>) -> (r: Result<
    Vec<u8>,
    &'static str,
>)
    ensures
        path_outcome(r) == demanded(
            below(
                match only_absolute(paths::opt_bytes(state_home)) {
                    Some(base) => Some(base),
                    None => below(paths::opt_bytes(home), ".local/state"@),
                },
                "omarchy/localsend-controller"@,
            ),
            "Neither XDG_STATE_HOME nor HOME provides an absolute state directory"@,
        ),
{
    let base = match keep_absolute(state_home) {
        Some(base) => Some(base),
        None => put_below(home, ".local/state"),
    };
    match put_below(base, "omarchy/localsend-controller") {
        Some(path) => Ok(path),
        None => Err("Neither XDG_STATE_HOME nor HOME provides an absolute state directory"),
    }
}

/// Where the management socket stands unless another place is asked for: below `XDG_RUNTIME_DIR`,
/// which must be an absolute path.
pub fn default_socket_path(runtime: Option<Vec<u8>>) -> (r: Result<Vec<u8>, &'static str>)
    ensures
        path_outcome(r) == demanded(
            below(only_absolute(paths::opt_bytes(runtime)), "omarchy-localsend.sock"@),
            "XDG_RUNTIME_DIR is missing or not absolute"@,
        ),
{
    match put_below(keep_absolute(runtime), "omarchy-localsend.sock") {
        Some(path) => Ok(path),
        None => Err("XDG_RUNTIME_DIR is missing or not absolute"),
    }
}

/// Where received files go unless another place is asked for: the download directory of the user,
/// else `Downloads` below the home directory.
pub fn default_destination(downloads: Option<Vec<u8>>, home: Option<Vec<u8>>) -> (r: Result<
    Vec<u8>,
    &'static str,
>)
    ensures
        path_outcome(r) == demanded(
            match paths::opt_bytes(downloads) {
                Some(path) => Some(path),
                None => below(paths::opt_bytes(home), "Downloads"@),
            },
            "Could not determine the XDG Downloads directory"@,
        ),
{
    let path = match downloads {
        Some(path) => Some(path),
        None => put_below(home, "Downloads"),
    };
    match path {
        Some(path) => Ok(path),
        None => Err("Could not determine the XDG Downloads directory"),
    }
}

/// Where the graphical application keeps its preferences.
pub fn preferences_path(home: Option<Vec<u8>>) -> (r: Option<Vec<u8>>)
    ensures
        paths::opt_bytes(r) == below(
            paths::opt_bytes(home),
            ".local/share/org.localsend.localsend_app/shared_preferences.json"@,
        ),
{
    put_below(home, ".local/share/org.localsend.localsend_app/shared_preferences.json")
}

} // verus!
