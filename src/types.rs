//! The values that the ledger stores and that cross the node's interface,
//! each with a mathematical model for contracts to speak of.
use vstd::prelude::*;

verus! {

/// Credits a peer must attach to a delivery call.
pub const SUBMIT_CALL_PAYMENT: u64 = 1_000_000_000;

/// Credits attached to a directory lookup.
pub const LOOKUP_DOMAIN_CALL_PAYMENT: u64 = 1_000_000_000;

/// Number of entries in one page of an inbox listing.
pub const INBOX_PAGE_SIZE: usize = 50;

/// Largest body, in bytes, that an inbox listing includes for an unread message.
pub const UNREAD_BODY_LIMIT: usize = 1_000_000;

/// Largest body, in bytes, that an inbox listing includes for a read message.
pub const READ_BODY_LIMIT: usize = 102_400;

/// The views of a list of strings.
pub open spec fn strs(v: Seq<String>) -> Seq<Seq<char>> {
    v.map_values(|s: String| s@)
}

/// The view of an optional string.
pub open spec fn opt_str(o: Option<String>) -> Option<Seq<char>> {
    match o {
        Some(s) => Some(s@),
        None => None,
    }
}

/// The views of an optional list of strings.
pub open spec fn opt_strs(o: Option<Vec<String>>) -> Option<Seq<Seq<char>>> {
    match o {
        Some(v) => Some(strs(v@)),
        None => None,
    }
}

/// Copies a list of strings.
pub fn copy_strings(v: &Vec<String>) -> (r: Vec<String>)
    ensures
        strs(r@) == strs(v@),
{
    let r = v.clone();
    assert(r@ =~= v@);
    r
}

/// An identity of a caller or a node: the bytes of its principal.
pub struct Identity {
    pub bytes: Vec<u8>,
}

impl View for Identity {
    type V = Seq<u8>;

    open spec fn view(&self) -> Seq<u8> {
        self.bytes@
    }
}

impl Identity {
    pub fn from_bytes(bytes: Vec<u8>) -> (r: Identity)
        ensures
            r@ == bytes@,
    {
        Identity { bytes }
    }

    /// Whether two identities hold the same bytes.
    pub fn same_as(&self, other: &Identity) -> (r: bool)
        ensures
            r == (self@ == other@),
    {
        if self.bytes.len() != other.bytes.len() {
            return false;
        }
        let mut i: usize = 0;
        while i < self.bytes.len()
            invariant
                self.bytes@.len() == other.bytes@.len(),
                i <= self.bytes@.len(),
                forall|j: int| 0 <= j < i ==> self.bytes@[j] == other.bytes@[j],
            decreases self.bytes@.len() - i,
        {
            if self.bytes[i] != other.bytes[i] {
                return false;
            }
            i = i + 1;
        }
        assert(self.bytes@ =~= other.bytes@);
        true
    }

    pub fn copy(&self) -> (r: Identity)
        ensures
            r@ == self@,
    {
        let bytes = self.bytes.clone();
        assert(bytes@ =~= self.bytes@);
        Identity { bytes }
    }
}

/// The channel a message came in through.
#[derive(PartialEq, Eq, Structural, Clone, Copy, Debug)]
pub enum SenderChannel {
    Web2,
    Ethereum,
    ICP,
}

/// The name of a channel in headers.
pub open spec fn channel_name(c: SenderChannel) -> Seq<char> {
    match c {
        SenderChannel::Web2 => "web2"@,
        SenderChannel::Ethereum => "ethereum"@,
        SenderChannel::ICP => "icp"@,
    }
}

/// The channel whose name is `s`, if any.
pub open spec fn channel_named(s: Seq<char>) -> Option<SenderChannel> {
    if s == "web2"@ {
        Some(SenderChannel::Web2)
    } else if s == "ethereum"@ {
        Some(SenderChannel::Ethereum)
    } else if s == "icp"@ {
        Some(SenderChannel::ICP)
    } else {
        None
    }
}

impl SenderChannel {
    pub fn to_string(&self) -> (r: String)
        ensures
            r@ == channel_name(*self),
    {
        match self {
            SenderChannel::Web2 => "web2".to_string(),
            SenderChannel::Ethereum => "ethereum".to_string(),
            SenderChannel::ICP => "icp".to_string(),
        }
    }

    pub fn from_str(s: &str) -> (r: Result<SenderChannel, String>)
        ensures
            channel_named(s@) is Some ==> r == Ok::<SenderChannel, String>(channel_named(s@)->0),
            channel_named(s@) is None ==> (r matches Err(m) && m@ == "Channel type is invalid"@),
    {
        let text = s.to_string();
        if text == "web2".to_string() {
            Ok(SenderChannel::Web2)
        } else if text == "ethereum".to_string() {
            Ok(SenderChannel::Ethereum)
        } else if text == "icp".to_string() {
            Ok(SenderChannel::ICP)
        } else {
            Err("Channel type is invalid".to_string())
        }
    }
}

/// Model of a message header.
pub struct HeaderModel {
    pub from: Seq<char>,
    pub timestamp: u64,
    pub content_type: Option<Seq<char>>,
    pub to: Seq<Seq<char>>,
    pub subject: Option<Seq<char>>,
    pub cc: Option<Seq<Seq<char>>>,
    pub bcc: Option<Seq<Seq<char>>>,
    pub sender_name: Option<Seq<char>>,
    pub sender_canister_id: Option<Seq<char>>,
    pub sender_channel: Option<Seq<char>>,
    pub receipient_canister_id: Option<Seq<char>>,
}

/// The header of a message: who sent it, to whom, when and about what.
pub struct MailHeader {
    pub from: String,
    pub timestamp: u64,
    pub content_type: Option<String>,
    pub to: Vec<String>,
    pub subject: Option<String>,
    pub cc: Option<Vec<String>>,
    pub bcc: Option<Vec<String>>,
    pub sender_name: Option<String>,
    pub sender_canister_id: Option<String>,
    pub sender_channel: Option<String>,
    pub receipient_canister_id: Option<String>,
}

impl View for MailHeader {
    type V = HeaderModel;

    open spec fn view(&self) -> HeaderModel {
        HeaderModel {
            from: self.from@,
            timestamp: self.timestamp,
            content_type: opt_str(self.content_type),
            to: strs(self.to@),
            subject: opt_str(self.subject),
            cc: opt_strs(self.cc),
            bcc: opt_strs(self.bcc),
            sender_name: opt_str(self.sender_name),
            sender_canister_id: opt_str(self.sender_canister_id),
            sender_channel: opt_str(self.sender_channel),
            receipient_canister_id: opt_str(self.receipient_canister_id),
        }
    }
}

/// Copies an optional list of strings.
fn copy_opt_strings(o: &Option<Vec<String>>) -> (r: Option<Vec<String>>)
    ensures
        opt_strs(r) == opt_strs(*o),
{
    match o {
        Some(v) => Some(copy_strings(v)),
        None => None,
    }
}

impl Clone for MailHeader {
    fn clone(&self) -> (r: Self)
        ensures
            r@ == self@,
    {
        MailHeader {
            from: self.from.clone(),
            timestamp: self.timestamp,
            content_type: self.content_type.clone(),
            to: copy_strings(&self.to),
            subject: self.subject.clone(),
            cc: copy_opt_strings(&self.cc),
            bcc: copy_opt_strings(&self.bcc),
            sender_name: self.sender_name.clone(),
            sender_canister_id: self.sender_canister_id.clone(),
            sender_channel: self.sender_channel.clone(),
            receipient_canister_id: self.receipient_canister_id.clone(),
        }
    }
}

impl Default for MailHeader {
    fn default() -> (r: Self)
        ensures
            r@.from.len() == 0,
            r@.timestamp == 0,
            r@.to.len() == 0,
            r@.content_type is None,
            r@.subject is None,
            r@.cc is None,
            r@.bcc is None,
            r@.sender_name is None,
            r@.sender_canister_id is None,
            r@.sender_channel is None,
            r@.receipient_canister_id is None,
    {
        MailHeader {
            from: String::new(),
            timestamp: 0,
            content_type: None,
            to: Vec::new(),
            subject: None,
            cc: None,
            bcc: None,
            sender_name: None,
            sender_canister_id: None,
            sender_channel: None,
            receipient_canister_id: None,
        }
    }
}

/// Copies a byte buffer.
pub fn copy_bytes(b: &Vec<u8>) -> (r: Vec<u8>)
    ensures
        r@ == b@,
{
    let r = b.clone();
    assert(r@ =~= b@);
    r
}

/// Model of a reply in a thread.
pub struct ReplyModel {
    pub content: Seq<u8>,
    pub sender_address: Seq<char>,
    pub principal: Option<Seq<char>>,
    pub timestamp: u64,
}

/// A reply appended to a stored message.
pub struct MailReply {
    pub content: Vec<u8>,
    pub sender_address: String,
    pub principal: Option<String>,
    pub timestamp: u64,
}

impl View for MailReply {
    type V = ReplyModel;

    open spec fn view(&self) -> ReplyModel {
        ReplyModel {
            content: self.content@,
            sender_address: self.sender_address@,
            principal: opt_str(self.principal),
            timestamp: self.timestamp,
        }
    }
}

impl Clone for MailReply {
    fn clone(&self) -> (r: Self)
        ensures
            r@ == self@,
    {
        MailReply {
            content: copy_bytes(&self.content),
            sender_address: self.sender_address.clone(),
            principal: self.principal.clone(),
            timestamp: self.timestamp,
        }
    }
}

/// The models of a list of replies.
pub open spec fn replies_view(v: Seq<MailReply>) -> Seq<ReplyModel> {
    v.map_values(|r: MailReply| r@)
}

/// Copies a list of replies.
pub fn copy_replies(v: &Vec<MailReply>) -> (r: Vec<MailReply>)
    ensures
        replies_view(r@) == replies_view(v@),
{
    let mut r: Vec<MailReply> = Vec::new();
    let mut i: usize = 0;
    while i < v.len()
        invariant
            i <= v@.len(),
            r@.len() == i,
            forall|j: int| 0 <= j < i ==> #[trigger] r@[j]@ == v@[j]@,
        decreases v@.len() - i,
    {
        let c = v[i].clone();
        r.push(c);
        i = i + 1;
    }
    assert(replies_view(r@) =~= replies_view(v@));
    r
}

/// Model of a message.
pub struct MailModel {
    pub correlation_id: Option<Seq<char>>,
    pub header: HeaderModel,
    pub body: Seq<u8>,
    pub reply_messages: Option<Seq<ReplyModel>>,
}

/// A message: header, opaque body, its thread of replies and the handle
/// that ties it to a copy on another node.
pub struct Mail {
    pub correlation_id: Option<String>,
    pub header: MailHeader,
    pub body: Vec<u8>,
    pub reply_messages: Option<Vec<MailReply>>,
}

impl View for Mail {
    type V = MailModel;

    open spec fn view(&self) -> MailModel {
        MailModel {
            correlation_id: opt_str(self.correlation_id),
            header: self.header@,
            body: self.body@,
            reply_messages: match self.reply_messages {
                Some(v) => Some(replies_view(v@)),
                None => None,
            },
        }
    }
}

impl Clone for Mail {
    fn clone(&self) -> (r: Self)
        ensures
            r@ == self@,
    {
        let reply_messages = match &self.reply_messages {
            Some(v) => Some(copy_replies(v)),
            None => None,
        };
        Mail {
            correlation_id: self.correlation_id.clone(),
            header: self.header.clone(),
            body: copy_bytes(&self.body),
            reply_messages,
        }
    }
}

/// A message as handed to the external gateway.
pub struct OutgoingMail {
    pub id: String,
    pub header: MailHeader,
    pub body: Vec<u8>,
}

/// Whether a caller authored a thread or received it.
#[derive(PartialEq, Eq, Structural, Clone, Copy, Debug)]
pub enum MailRole {
    Sender,
    Receipient,
}

/// The signing keys a node may use for gateway payloads.
#[derive(PartialEq, Eq, Structural, Clone, Copy, Debug)]
pub enum EcdsaKeyIds {
    TestKeyLocalDevelopment,
    TestKey1,
    ProductionKey1,
}

impl EcdsaKeyIds {
    /// The name of the key in the signing service.
    pub fn key_name(&self) -> (r: String)
        ensures
            r@ == match *self {
                EcdsaKeyIds::TestKeyLocalDevelopment => "dfx_test_key"@,
                EcdsaKeyIds::TestKey1 => "test_key_1"@,
                EcdsaKeyIds::ProductionKey1 => "key_1"@,
            },
    {
        match self {
            EcdsaKeyIds::TestKeyLocalDevelopment => "dfx_test_key".to_string(),
            EcdsaKeyIds::TestKey1 => "test_key_1".to_string(),
            EcdsaKeyIds::ProductionKey1 => "key_1".to_string(),
        }
    }
}

/// Read flag of a stored message.
pub struct MailStatus {
    pub read: bool,
    pub mail_id: String,
}

/// A newsletter's title and description.
pub struct Newsletter {
    pub title: String,
    pub desciption: String,
}

impl Clone for Newsletter {
    fn clone(&self) -> (r: Self)
        ensures
            r.title@ == self.title@,
            r.desciption@ == self.desciption@,
    {
        Newsletter { title: self.title.clone(), desciption: self.desciption.clone() }
    }
}

/// A user's public profile.
pub struct Profile {
    pub name: String,
    pub portfolio: String,
    pub photo: Vec<u8>,
}

impl Clone for Profile {
    fn clone(&self) -> (r: Self)
        ensures
            r.name@ == self.name@,
            r.portfolio@ == self.portfolio@,
            r.photo@ == self.photo@,
    {
        Profile {
            name: self.name.clone(),
            portfolio: self.portfolio.clone(),
            photo: copy_bytes(&self.photo),
        }
    }
}

/// A node's name and description.
pub struct LedgerInfo {
    pub name: String,
    pub description: String,
}

impl Clone for LedgerInfo {
    fn clone(&self) -> (r: Self)
        ensures
            r.name@ == self.name@,
            r.description@ == self.description@,
    {
        LedgerInfo { name: self.name.clone(), description: self.description.clone() }
    }
}

impl Default for LedgerInfo {
    fn default() -> (r: Self)
        ensures
            r.name@.len() == 0,
            r.description@.len() == 0,
    {
        LedgerInfo { name: String::new(), description: String::new() }
    }
}

/// The node's settings, given when it is created.
pub struct LedgerConfiguration {
    pub registry_canister: String,
    pub token_address: String,
    pub permissioned: bool,
    pub mta_url: String,
    pub domain_name: String,
    pub show_logs: bool,
    pub version: String,
}

impl Default for LedgerConfiguration {
    fn default() -> (r: Self)
        ensures
            r.registry_canister@.len() == 0,
            r.token_address@.len() == 0,
            !r.permissioned,
            r.mta_url@.len() == 0,
            r.domain_name@.len() == 0,
            !r.show_logs,
            r.version@.len() == 0,
    {
        LedgerConfiguration {
            registry_canister: String::new(),
            token_address: String::new(),
            permissioned: false,
            mta_url: String::new(),
            domain_name: String::new(),
            show_logs: false,
            version: String::new(),
        }
    }
}

/// Errors of the mailbox ledger and of routing.
#[derive(PartialEq, Eq, Debug)]
pub enum MailError {
    NoUserAddressFound,
    InternalSystemMailCollision,
    FailedToGenerateMailId,
    MailNotFound,
    NotAuthorized,
    PermissionedSystem,
    AddressExist,
    DomainNotFound,
    MailTransferError(String),
    NotFound,
    HttpSendMail(String),
    GeneralError(String),
}

/// The text a mail error is shown as.
pub open spec fn mail_error_text(e: MailError) -> Seq<char> {
    match e {
        MailError::NoUserAddressFound => "No user Address Found"@,
        MailError::InternalSystemMailCollision => "A rare event of Hash map collision"@,
        MailError::FailedToGenerateMailId => "System failed to Generate Mail Id"@,
        MailError::MailNotFound => "Mail not found"@,
        MailError::NotAuthorized => "You are not authorized"@,
        MailError::PermissionedSystem => "This is a Permissioned System"@,
        MailError::AddressExist => "Address do exist"@,
        MailError::DomainNotFound => "Domain not Found"@,
        MailError::MailTransferError(_) => "Mail Transfer Error"@,
        MailError::NotFound => "Not Found"@,
        MailError::HttpSendMail(_) => "Error using internal HTTP outcall"@,
        MailError::GeneralError(m) => m@,
    }
}

impl MailError {
    /// The text this error is shown as.
    pub fn message(&self) -> (r: String)
        ensures
            r@ == mail_error_text(*self),
    {
        match self {
            MailError::NoUserAddressFound => "No user Address Found".to_string(),
            MailError::InternalSystemMailCollision => "A rare event of Hash map collision".to_string(),
            MailError::FailedToGenerateMailId => "System failed to Generate Mail Id".to_string(),
            MailError::MailNotFound => "Mail not found".to_string(),
            MailError::NotAuthorized => "You are not authorized".to_string(),
            MailError::PermissionedSystem => "This is a Permissioned System".to_string(),
            MailError::AddressExist => "Address do exist".to_string(),
            MailError::DomainNotFound => "Domain not Found".to_string(),
            MailError::MailTransferError(_) => "Mail Transfer Error".to_string(),
            MailError::NotFound => "Not Found".to_string(),
            MailError::HttpSendMail(_) => "Error using internal HTTP outcall".to_string(),
            MailError::GeneralError(m) => m.clone(),
        }
    }
}

/// Errors of the domain directory.
#[derive(PartialEq, Eq, Debug)]
pub enum RegistryError {
    NotFound,
    FailedToUpgrade(String),
    FailedToCreateCanister,
    FailedToInstallCode(String),
    GeneralError(String),
}

/// The text a directory error is shown as.
pub open spec fn registry_error_text(e: RegistryError) -> Seq<char> {
    match e {
        RegistryError::NotFound => "Resource not Found"@,
        RegistryError::FailedToUpgrade(_) => "Failed to upgrade"@,
        RegistryError::FailedToCreateCanister => "Failed to create new canister"@,
        RegistryError::FailedToInstallCode(_) => "Failed to install code"@,
        RegistryError::GeneralError(m) => "General Error: "@ + m@,
    }
}

impl RegistryError {
    /// The text this error is shown as.
    pub fn message(&self) -> (r: String)
        ensures
            r@ == registry_error_text(*self),
    {
        match self {
            RegistryError::NotFound => "Resource not Found".to_string(),
            RegistryError::FailedToUpgrade(_) => "Failed to upgrade".to_string(),
            RegistryError::FailedToCreateCanister => "Failed to create new canister".to_string(),
            RegistryError::FailedToInstallCode(_) => "Failed to install code".to_string(),
            RegistryError::GeneralError(m) => {
                let mut r = "General Error: ".to_string();
                r.append(m.as_str());
                r
            },
        }
    }
}

/// One entry of an inbox listing.
pub struct InboxData {
    pub header: MailHeader,
    pub read: bool,
    pub mail_id: String,
    pub content: Option<Vec<u8>>,
}

} // verus!
