//! The routing sessions of outbound messages and replies. A session decides
//! what to do next from what happened last: the caller performs each action
//! (minting an id, asking the directory, calling a node, signing, posting to
//! the gateway) and hands the answer back as an event.
use vstd::prelude::*;

use crate::external::{hex_encode, hex_text, sha256_digest, sha256_of};
use crate::ledger::{
    added, after_submit, is_registered, recipients, reply_result_matches, stored_reply, submit_result, Ledger,
    LedgerModel,
};
use crate::routing::{
    all_valid, declared, domains_of, push_domains, reports_first_invalid, transfer_matches, transfer_result,
    DomainOutcome,
};
use crate::types::{
    strs, HeaderModel, Identity, Mail, MailError, MailModel, MailReply, OutgoingMail, ReplyModel,
};

verus! {

/// What the directory answered for a domain.
pub enum Resolution {
    /// The call did not complete.
    Fault,
    /// No node owns the domain.
    NotFound,
    /// The textual identity of the node that owns the domain.
    Node(String),
}

/// What a node answered to a delivery call.
pub enum PeerAnswer {
    /// The call did not complete.
    Fault,
    /// The node refused the message.
    Rejected(MailError),
    /// The node stored the message.
    Accepted,
}

/// An answer to the last action of a send session.
pub enum SendEvent {
    /// Random bytes for an id, or `None` when none could be had.
    Minted(Option<Vec<u8>>),
    Resolved(Resolution),
    PeerAnswered(PeerAnswer),
    /// A signature over the given hash, or the signing service's error.
    Signed(Result<Vec<u8>, String>),
    /// The status of the gateway's answer, or the outcall's error.
    Posted(Result<u64, String>),
}

/// What a send session asks for next.
pub enum SendAction {
    /// Random bytes for a new id.
    MintId,
    /// The node that owns a domain.
    Resolve(String),
    /// A delivery call to a node.
    DeliverRemote { node: String, mail: Mail },
    /// A signature over a hash.
    Sign(Vec<u8>),
    /// A post of an envelope to the gateway, with these headers.
    PostToGateway { url: String, headers: Vec<(String, String)>, envelope: OutgoingMail },
    /// Nothing: the event was not one the session waits for.
    Idle,
    /// The send is over, with this result.
    Finished(Result<(), MailError>),
}

/// Where a send session stands.
#[derive(PartialEq, Eq, Structural, Clone, Copy, Debug)]
pub enum SendStage {
    /// Waiting for the correlation id's bytes.
    Correlation,
    /// Waiting for the id of the copy stored on this node.
    LocalId,
    /// Waiting for the directory.
    Lookup,
    /// Waiting for the owning node.
    Remote,
    /// Waiting for the id of the gateway envelope.
    GatewayId,
    /// Waiting for the envelope's signature.
    Signing,
    /// Waiting for the gateway.
    Posting,
    /// Over.
    Done,
}

/// The text of the error for a gateway answer other than status 200.
pub open spec fn gateway_refusal_text() -> Seq<char> {
    "Gateway answered with a status other than 200"@
}

/// How the gateway's answer ends a dispatch: only status 200 accepts it.
pub fn gateway_status_result(status: u64) -> (r: Result<(), MailError>)
    ensures
        status == 200 ==> r is Ok,
        status != 200 ==> (r matches Err(MailError::HttpSendMail(t)) && t@ == gateway_refusal_text()),
{
    if status == 200 {
        Ok(())
    } else {
        Err(MailError::HttpSendMail("Gateway answered with a status other than 200".to_string()))
    }
}

/// Model of a gateway envelope: id, header and body.
pub struct EnvelopeModel {
    pub id: Seq<char>,
    pub header: HeaderModel,
    pub body: Seq<u8>,
}

/// Model of a send session.
pub struct SendView {
    pub mail: MailModel,
    pub sender: Seq<char>,
    pub node_id: Seq<char>,
    pub platform: Seq<char>,
    pub gateway_url: Seq<char>,
    pub domains: Seq<Seq<char>>,
    pub outcomes: Seq<DomainOutcome>,
    pub stage: SendStage,
    pub envelope: Option<EnvelopeModel>,
}

/// The stage in which the `n`th domain is taken up.
pub open spec fn opening_stage(domains: Seq<Seq<char>>, n: int, platform: Seq<char>) -> SendStage {
    if n >= domains.len() {
        SendStage::Done
    } else if domains[n] == platform {
        SendStage::LocalId
    } else {
        SendStage::Lookup
    }
}

/// Whether `s` takes up its next domain: its stage is the opening one and
/// `a` asks for what that stage waits for, or sums up when no domain is left.
pub open spec fn opens(s: SendView, a: SendAction) -> bool {
    let n = s.outcomes.len() as int;
    &&& s.stage == opening_stage(s.domains, n, s.platform)
    &&& n >= s.domains.len() ==> (a matches SendAction::Finished(r) && transfer_matches(s.domains, s.outcomes, r))
    &&& n < s.domains.len() && s.domains[n] == s.platform ==> a is MintId
    &&& n < s.domains.len() && s.domains[n] != s.platform ==> (a matches SendAction::Resolve(d) && d@ == s.domains[n])
}

/// The ledger once the sender's copy is kept under the correlation id and
/// listed in the sender's sent set.
pub open spec fn with_sender_copy(l: LedgerModel, mail: MailModel, cid: Seq<char>, sender: Seq<char>) -> LedgerModel {
    LedgerModel {
        mails: l.mails.insert(cid, mail),
        sent: l.sent.insert(sender, added(l.sent, sender, cid)),
        ..l
    }
}

/// The copy stored on this node, marked with the node's identity.
pub open spec fn local_copy(mail: MailModel, node_id: Seq<char>) -> MailModel {
    MailModel { header: HeaderModel { receipient_canister_id: Some(node_id), ..mail.header }, ..mail }
}

/// The session with one more domain's outcome.
pub open spec fn recorded(o: SendView, outcome: DomainOutcome) -> SendView {
    SendView { outcomes: o.outcomes.push(outcome), ..o }
}

/// Whether a session that ended with `err` went from `o` to `s`.
pub open spec fn aborted(o: SendView, s: SendView, a: SendAction, err: MailError) -> bool {
    &&& s == SendView { stage: SendStage::Done, ..o }
    &&& a == SendAction::Finished(Err(err))
}

/// One step of a send session, from `o` and ledger `l0` on event `e`, to `s`
/// and ledger `l1`, asking for `a`.
pub open spec fn send_step(o: SendView, s: SendView, l0: LedgerModel, l1: LedgerModel, e: SendEvent, a: SendAction) -> bool {
    match (o.stage, e) {
        (SendStage::Correlation, SendEvent::Minted(None)) => aborted(o, s, a, MailError::FailedToGenerateMailId)
            && l1 == l0,
        (SendStage::Correlation, SendEvent::Minted(Some(b))) => {
            let cid = hex_text(b@);
            let mail = MailModel { correlation_id: Some(cid), ..o.mail };
            if l0.mails.contains_key(cid) {
                aborted(o, s, a, MailError::InternalSystemMailCollision) && l1 == l0
            } else {
                &&& l1 == with_sender_copy(l0, mail, cid, o.sender)
                &&& opens(s, a)
                &&& s == SendView { mail, stage: s.stage, ..o }
            }
        },
        (SendStage::LocalId, SendEvent::Minted(None)) => aborted(o, s, a, MailError::FailedToGenerateMailId) && l1
            == l0,
        (SendStage::LocalId, SendEvent::Minted(Some(b))) => {
            let id = hex_text(b@);
            let copy = local_copy(o.mail, o.node_id);
            let outcome = if submit_result(l0, copy, id) is Ok {
                DomainOutcome::Delivered
            } else {
                DomainOutcome::LocalRejected
            };
            &&& l1 == after_submit(l0, copy, id)
            &&& opens(s, a)
            &&& s == SendView { stage: s.stage, ..recorded(o, outcome) }
        },
        (SendStage::Lookup, SendEvent::Resolved(Resolution::Fault)) => l1 == l0 && opens(s, a) && s == SendView {
            stage: s.stage,
            ..recorded(o, DomainOutcome::LookupFailed)
        },
        (SendStage::Lookup, SendEvent::Resolved(Resolution::NotFound)) => l1 == l0 && a is MintId && s
            == SendView { stage: SendStage::GatewayId, ..o },
        (SendStage::Lookup, SendEvent::Resolved(Resolution::Node(n))) => l1 == l0 && s == SendView {
            stage: SendStage::Remote,
            ..o
        } && (a matches SendAction::DeliverRemote { node, mail } && node@ == n@ && mail@ == o.mail),
        (SendStage::Remote, SendEvent::PeerAnswered(answer)) => {
            let outcome = match answer {
                PeerAnswer::Fault => DomainOutcome::PeerUnreachable,
                PeerAnswer::Rejected(err) => DomainOutcome::PeerRejected(err),
                PeerAnswer::Accepted => DomainOutcome::Delivered,
            };
            l1 == l0 && opens(s, a) && s == SendView { stage: s.stage, ..recorded(o, outcome) }
        },
        (SendStage::GatewayId, SendEvent::Minted(None)) => aborted(o, s, a, MailError::FailedToGenerateMailId)
            && l1 == l0,
        (SendStage::GatewayId, SendEvent::Minted(Some(b))) => {
            let envelope = EnvelopeModel { id: hex_text(b@), header: o.mail.header, body: o.mail.body };
            &&& l1 == l0
            &&& s == SendView { stage: SendStage::Signing, envelope: Some(envelope), ..o }
            &&& a matches SendAction::Sign(h) && h@ == sha256_of(hex_text(b@))
        },
        (SendStage::Signing, SendEvent::Signed(Err(m))) => l1 == l0 && s == SendView {
            stage: SendStage::Done,
            ..o
        } && (a matches SendAction::Finished(Err(MailError::HttpSendMail(t))) && t@ == m@),
        (SendStage::Signing, SendEvent::Signed(Ok(sig))) => {
            &&& l1 == l0
            &&& s == SendView { stage: SendStage::Posting, ..o }
            &&& a matches SendAction::PostToGateway { url, headers, envelope } && url@ == o.gateway_url
                && headers@.len() == 2 && headers@[0].0@ == "x-sig"@ && headers@[0].1@ == hex_text(sig@)
                && headers@[1].0@ == "x-principal"@ && headers@[1].1@ == o.node_id && o.envelope == Some(
                EnvelopeModel { id: envelope.id@, header: envelope.header@, body: envelope.body@ },
            )
        },
        (SendStage::Posting, SendEvent::Posted(Err(m))) => l1 == l0 && s == SendView {
            stage: SendStage::Done,
            ..o
        } && (a matches SendAction::Finished(Err(MailError::HttpSendMail(t))) && t@ == m@),
        (SendStage::Posting, SendEvent::Posted(Ok(status))) => if status == 200 {
            l1 == l0 && opens(s, a) && s == SendView { stage: s.stage, ..recorded(o, DomainOutcome::SentToGateway) }
        } else {
            l1 == l0 && s == SendView { stage: SendStage::Done, ..o } && (a matches SendAction::Finished(
                Err(MailError::HttpSendMail(t)),
            ) && t@ == gateway_refusal_text())
        },
        _ => l1 == l0 && s == o && a is Idle,
    }
}

/// The routing of one outbound message to the domains of its recipients.
pub struct SendSession {
    mail: Mail,
    sender: String,
    node_id: String,
    platform_domain: String,
    gateway_url: String,
    domains: Vec<String>,
    outcomes: Vec<DomainOutcome>,
    stage: SendStage,
    envelope: Option<OutgoingMail>,
}

impl View for SendSession {
    type V = SendView;

    closed spec fn view(&self) -> SendView {
        SendView {
            mail: self.mail@,
            sender: self.sender@,
            node_id: self.node_id@,
            platform: self.platform_domain@,
            gateway_url: self.gateway_url@,
            domains: strs(self.domains@),
            outcomes: self.outcomes@,
            stage: self.stage,
            envelope: match self.envelope {
                Some(e) => Some(EnvelopeModel { id: e.id@, header: e.header@, body: e.body@ }),
                None => None,
            },
        }
    }
}

/// Whether a session's parts agree: the outcomes so far fit the domains,
/// a domain is in hand while the session waits on it, and an envelope is
/// at hand while it is signed and posted.
pub open spec fn send_wf(s: SendView) -> bool {
    &&& s.outcomes.len() <= s.domains.len()
    &&& s.stage == SendStage::Correlation ==> s.outcomes.len() == 0
    &&& (s.stage == SendStage::LocalId || s.stage == SendStage::Lookup || s.stage == SendStage::Remote || s.stage
        == SendStage::GatewayId || s.stage == SendStage::Signing || s.stage == SendStage::Posting) ==> s.outcomes.len()
        < s.domains.len()
    &&& (s.stage == SendStage::Signing || s.stage == SendStage::Posting) ==> s.envelope is Some
}

impl SendSession {
    /// Starts routing `mail` for the caller: the sender becomes the caller's
    /// address and every recipient address must parse.
    pub fn start(ledger: &Ledger, caller: &Identity, mail: Mail, node_id: String) -> (r: Result<(SendSession, SendAction), MailError>)
        requires
            ledger.wf(),
        ensures
            !ledger@.users.contains_key(caller@) ==> r == Err::<(SendSession, SendAction), MailError>(
                MailError::NoUserAddressFound,
            ),
            ledger@.users.contains_key(caller@) && !all_valid(declared(mail@.header)) ==> (r matches Err(
                MailError::GeneralError(m),
            ) && reports_first_invalid(declared(mail@.header), m@)),
            ledger@.users.contains_key(caller@) && all_valid(declared(mail@.header)) ==> (r matches Ok((s, a)) && a is MintId
                && send_wf(s@) && s@ == SendView {
                mail: MailModel {
                    header: HeaderModel { from: ledger@.users[caller@], ..mail@.header },
                    ..mail@
                },
                sender: ledger@.users[caller@],
                node_id: node_id@,
                platform: ledger@.config.domain_name@,
                gateway_url: ledger@.config.mta_url@,
                domains: domains_of(declared(mail@.header)),
                outcomes: Seq::empty(),
                stage: SendStage::Correlation,
                envelope: None,
            }),
    {
        let sender = match ledger.get_user_address(caller) {
            Some(a) => a,
            None => {
                return Err(MailError::NoUserAddressFound);
            },
        };
        let mut mail = mail;
        mail.header.from = sender.clone();
        let domains = match Ledger::get_receipients_domains(&mail) {
            Ok(d) => d,
            Err(e) => {
                return Err(e);
            },
        };
        let session = SendSession {
            mail,
            sender,
            node_id,
            platform_domain: ledger.get_domain_name(),
            gateway_url: ledger.get_mail_transfer_agent_url(),
            domains,
            outcomes: Vec::new(),
            stage: SendStage::Correlation,
            envelope: None,
        };
        assert(session@.outcomes =~= Seq::<DomainOutcome>::empty());
        Ok((session, SendAction::MintId))
    }

    /// Takes up the next domain, or sums up when none is left.
    fn open_next(&mut self) -> (a: SendAction)
        requires
            old(self)@.outcomes.len() <= old(self)@.domains.len(),
        ensures
            final(self)@ == (SendView { stage: final(self)@.stage, ..old(self)@ }),
            opens(final(self)@, a),
            send_wf(final(self)@),
    {
        let n = self.outcomes.len();
        if n == self.domains.len() {
            self.stage = SendStage::Done;
            SendAction::Finished(transfer_result(&self.domains, &self.outcomes))
        } else if self.domains[n] == self.platform_domain {
            self.stage = SendStage::LocalId;
            SendAction::MintId
        } else {
            self.stage = SendStage::Lookup;
            SendAction::Resolve(self.domains[n].clone())
        }
    }

    /// Records how the current domain ended and takes up the next one.
    fn record(&mut self, outcome: DomainOutcome) -> (a: SendAction)
        requires
            old(self)@.outcomes.len() < old(self)@.domains.len(),
        ensures
            final(self)@ == (SendView { stage: final(self)@.stage, ..recorded(old(self)@, outcome) }),
            opens(final(self)@, a),
            send_wf(final(self)@),
    {
        self.outcomes.push(outcome);
        self.open_next()
    }

    /// Ends the session with an error.
    fn abort(&mut self, err: MailError) -> (a: SendAction)
        requires
            send_wf(old(self)@),
        ensures
            aborted(old(self)@, final(self)@, a, err),
            send_wf(final(self)@),
    {
        self.stage = SendStage::Done;
        SendAction::Finished(Err(err))
    }

    /// Advances the session on the answer to its last action.
    pub fn step(&mut self, ledger: &mut Ledger, event: SendEvent) -> (a: SendAction)
        requires
            old(ledger).wf(),
            send_wf(old(self)@),
        ensures
            final(ledger).wf(),
            send_wf(final(self)@),
            send_step(old(self)@, final(self)@, old(ledger)@, final(ledger)@, event, a),
    {
        match (self.stage, event) {
            (SendStage::Correlation, SendEvent::Minted(None)) => self.abort(MailError::FailedToGenerateMailId),
            (SendStage::Correlation, SendEvent::Minted(Some(bytes))) => {
                let cid = hex_encode(&bytes);
                let mut copy = self.mail.clone();
                copy.correlation_id = Some(cid.clone());
                if ledger.store_mail(copy, cid.clone()).is_err() {
                    return self.abort(MailError::InternalSystemMailCollision);
                }
                self.mail.correlation_id = Some(cid.clone());
                ledger.add_to_sent(cid, self.sender.clone());
                self.open_next()
            },
            (SendStage::LocalId, SendEvent::Minted(None)) => self.abort(MailError::FailedToGenerateMailId),
            (SendStage::LocalId, SendEvent::Minted(Some(bytes))) => {
                let id = hex_encode(&bytes);
                let mut copy = self.mail.clone();
                copy.header.receipient_canister_id = Some(self.node_id.clone());
                let outcome = match ledger.submit_mail(copy, id) {
                    Ok(()) => DomainOutcome::Delivered,
                    Err(_) => DomainOutcome::LocalRejected,
                };
                self.record(outcome)
            },
            (SendStage::Lookup, SendEvent::Resolved(Resolution::Fault)) => self.record(DomainOutcome::LookupFailed),
            (SendStage::Lookup, SendEvent::Resolved(Resolution::NotFound)) => {
                self.stage = SendStage::GatewayId;
                SendAction::MintId
            },
            (SendStage::Lookup, SendEvent::Resolved(Resolution::Node(node))) => {
                self.stage = SendStage::Remote;
                SendAction::DeliverRemote { node, mail: self.mail.clone() }
            },
            (SendStage::Remote, SendEvent::PeerAnswered(answer)) => {
                let outcome = match answer {
                    PeerAnswer::Fault => DomainOutcome::PeerUnreachable,
                    PeerAnswer::Rejected(err) => DomainOutcome::PeerRejected(err),
                    PeerAnswer::Accepted => DomainOutcome::Delivered,
                };
                self.record(outcome)
            },
            (SendStage::GatewayId, SendEvent::Minted(None)) => self.abort(MailError::FailedToGenerateMailId),
            (SendStage::GatewayId, SendEvent::Minted(Some(bytes))) => {
                let id = hex_encode(&bytes);
                let hash = sha256_digest(id.as_str());
                self.envelope = Some(
                    OutgoingMail { id, header: self.mail.header.clone(), body: crate::types::copy_bytes(&self.mail.body) },
                );
                self.stage = SendStage::Signing;
                SendAction::Sign(hash)
            },
            (SendStage::Signing, SendEvent::Signed(Err(m))) => self.abort(MailError::HttpSendMail(m)),
            (SendStage::Signing, SendEvent::Signed(Ok(sig))) => {
                let envelope = match &self.envelope {
                    Some(e) => OutgoingMail {
                        id: e.id.clone(),
                        header: e.header.clone(),
                        body: crate::types::copy_bytes(&e.body),
                    },
                    None => {
                        return SendAction::Idle;
                    },
                };
                let headers = vec![
                    ("x-sig".to_string(), hex_encode(&sig)),
                    ("x-principal".to_string(), self.node_id.clone()),
                ];
                self.stage = SendStage::Posting;
                SendAction::PostToGateway { url: self.gateway_url.clone(), headers, envelope }
            },
            (SendStage::Posting, SendEvent::Posted(Err(m))) => self.abort(MailError::HttpSendMail(m)),
            (SendStage::Posting, SendEvent::Posted(Ok(status))) => match gateway_status_result(status) {
                Ok(()) => self.record(DomainOutcome::SentToGateway),
                Err(e) => self.abort(e),
            },
            _ => SendAction::Idle,
        }
    }

    /// How each domain taken up so far ended, in order.
    pub fn outcomes(&self) -> (r: &Vec<DomainOutcome>)
        ensures
            r@ == self@.outcomes,
    {
        &self.outcomes
    }

    /// The recipient domains, in routing order.
    pub fn domains(&self) -> (r: &Vec<String>)
        ensures
            strs(r@) == self@.domains,
    {
        &self.domains
    }

    pub fn stage(&self) -> (r: SendStage)
        ensures
            r == self@.stage,
    {
        self.stage
    }
}

/// An answer to the last action of a reply session.
pub enum ReplyEvent {
    Resolved(Resolution),
    PeerAnswered(PeerAnswer),
}

/// What a reply session asks for next.
pub enum ReplyAction {
    /// The node that owns a domain.
    Resolve(String),
    /// A call that stores the reply on a node.
    DeliverReply { node: String, correlation_id: String, reply: MailReply },
    /// Nothing: the event was not one the session waits for.
    Idle,
    /// The reply is over, with the result of storing it on this node.
    Finished(Result<(), MailError>),
}

/// Where a reply session stands.
#[derive(PartialEq, Eq, Structural, Clone, Copy, Debug)]
pub enum ReplyStage {
    Lookup,
    Remote,
    Done,
}

/// Model of a reply session.
pub struct ReplyView {
    pub correlation_id: Seq<char>,
    pub reply: ReplyModel,
    pub now: u64,
    pub platform: Seq<char>,
    pub domains: Seq<Seq<char>>,
    pub next: int,
    pub stage: ReplyStage,
}

/// The first domain from index `n` on that another node owns, or the
/// number of domains when there is none.
pub open spec fn next_foreign(domains: Seq<Seq<char>>, n: int, platform: Seq<char>) -> int
    decreases domains.len() - n,
{
    if n >= domains.len() {
        domains.len() as int
    } else if domains[n] != platform {
        n
    } else {
        next_foreign(domains, n + 1, platform)
    }
}

/// Whether `s` takes up the first foreign domain from `n` on, or, when none
/// is left, stores the reply on this node and finishes with that result.
pub open spec fn reply_opens(o: ReplyView, n: int, s: ReplyView, l0: LedgerModel, l1: LedgerModel, a: ReplyAction) -> bool {
    let k = next_foreign(o.domains, n, o.platform);
    if k >= o.domains.len() {
        &&& s == ReplyView { next: k, stage: ReplyStage::Done, ..o }
        &&& l1 == stored_reply(l0, o.correlation_id, o.reply, o.now)
        &&& a matches ReplyAction::Finished(r) && reply_result_matches(l0, o.correlation_id, o.reply, r)
    } else {
        &&& s == ReplyView { next: k, stage: ReplyStage::Lookup, ..o }
        &&& l1 == l0
        &&& a matches ReplyAction::Resolve(d) && d@ == o.domains[k]
    }
}

/// One step of a reply session.
pub open spec fn reply_step(o: ReplyView, s: ReplyView, l0: LedgerModel, l1: LedgerModel, e: ReplyEvent, a: ReplyAction) -> bool {
    match (o.stage, e) {
        (ReplyStage::Lookup, ReplyEvent::Resolved(Resolution::Node(n))) => {
            &&& l1 == l0
            &&& s == ReplyView { stage: ReplyStage::Remote, ..o }
            &&& a matches ReplyAction::DeliverReply { node, correlation_id, reply } && node@ == n@ && correlation_id@
                == o.correlation_id && reply@ == o.reply
        },
        (ReplyStage::Lookup, ReplyEvent::Resolved(_)) => reply_opens(o, o.next + 1, s, l0, l1, a),
        (ReplyStage::Remote, ReplyEvent::PeerAnswered(_)) => reply_opens(o, o.next + 1, s, l0, l1, a),
        _ => l1 == l0 && s == o && a is Idle,
    }
}

/// The addresses a reply goes to, the other party of the thread: the
/// recipients when the replier sent the message, its sender when the
/// replier received it.
pub open spec fn reply_targets(header: HeaderModel, user: Seq<char>) -> Seq<Seq<char>> {
    if header.from == user {
        header.to
    } else if header.to.contains(user) {
        seq![header.from]
    } else {
        Seq::empty()
    }
}

fn holds(list: &Vec<String>, s: &String) -> (r: bool)
    ensures
        r == strs(list@).contains(s@),
{
    let mut i: usize = 0;
    while i < list.len()
        invariant
            i <= list@.len(),
            forall|j: int| 0 <= j < i ==> list@[j]@ != s@,
        decreases list@.len() - i,
    {
        if list[i] == *s {
            assert(strs(list@)[i as int] == s@);
            return true;
        }
        i = i + 1;
    }
    assert(!strs(list@).contains(s@)) by {
        if strs(list@).contains(s@) {
            let k = choose|k: int| 0 <= k < strs(list@).len() && strs(list@)[k] == s@;
            assert(list@[k]@ == s@);
        }
    }
    false
}

/// The routing of one reply to the other party of its thread.
pub struct ReplySession {
    correlation_id: String,
    reply: MailReply,
    now: u64,
    platform_domain: String,
    domains: Vec<String>,
    next: usize,
    stage: ReplyStage,
}

impl View for ReplySession {
    type V = ReplyView;

    closed spec fn view(&self) -> ReplyView {
        ReplyView {
            correlation_id: self.correlation_id@,
            reply: self.reply@,
            now: self.now,
            platform: self.platform_domain@,
            domains: strs(self.domains@),
            next: self.next as int,
            stage: self.stage,
        }
    }
}

/// Whether a reply session's position fits its domains.
pub open spec fn reply_wf(s: ReplyView) -> bool {
    &&& 0 <= s.next <= s.domains.len()
    &&& s.stage != ReplyStage::Done ==> s.next < s.domains.len()
}

proof fn lemma_next_foreign(domains: Seq<Seq<char>>, n: int, platform: Seq<char>)
    requires
        0 <= n,
    ensures
        n <= next_foreign(domains, n, platform) || n > domains.len(),
        next_foreign(domains, n, platform) <= domains.len(),
        next_foreign(domains, n, platform) < domains.len() ==> domains[next_foreign(domains, n, platform)] != platform,
    decreases domains.len() - n,
{
    if n < domains.len() && domains[n] == platform {
        lemma_next_foreign(domains, n + 1, platform);
    }
}

impl ReplySession {
    /// Takes up the first foreign domain from `n` on, or stores the reply
    /// here and finishes.
    fn open_from(&mut self, ledger: &mut Ledger, n: usize) -> (a: ReplyAction)
        requires
            old(ledger).wf(),
            n <= old(self)@.domains.len(),
        ensures
            final(ledger).wf(),
            reply_wf(final(self)@),
            reply_opens(old(self)@, n as int, final(self)@, old(ledger)@, final(ledger)@, a),
    {
        let mut k = n;
        while k < self.domains.len() && self.domains[k] == self.platform_domain
            invariant
                n <= k <= self.domains@.len(),
                self@ == old(self)@,
                next_foreign(self@.domains, k as int, self@.platform) == next_foreign(self@.domains, n as int, self@.platform),
            decreases self.domains@.len() - k,
        {
            k = k + 1;
        }
        proof {
            lemma_next_foreign(self@.domains, n as int, self@.platform);
        }
        self.next = k;
        if k == self.domains.len() {
            self.stage = ReplyStage::Done;
            let r = ledger.store_reply(self.correlation_id.clone(), self.reply.clone(), self.now);
            ReplyAction::Finished(r)
        } else {
            self.stage = ReplyStage::Lookup;
            ReplyAction::Resolve(self.domains[k].clone())
        }
    }

    /// Starts routing a reply from the caller under a correlation id; the
    /// reply's sender becomes the caller's address.
    pub fn start(ledger: &mut Ledger, caller: &Identity, correlation_id: String, reply: MailReply, now: u64) -> (r: Result<
        (ReplySession, ReplyAction),
        MailError,
    >)
        requires
            old(ledger).wf(),
        ensures
            final(ledger).wf(),
            r is Err ==> final(ledger)@ == old(ledger)@,
            !old(ledger)@.users.contains_key(caller@) ==> r == Err::<(ReplySession, ReplyAction), MailError>(
                MailError::NoUserAddressFound,
            ),
            old(ledger)@.users.contains_key(caller@) && !(old(ledger)@.correlations.contains_key(correlation_id@)
                && old(ledger)@.mails.contains_key(old(ledger)@.correlations[correlation_id@]))
                ==> r == Err::<(ReplySession, ReplyAction), MailError>(MailError::MailNotFound),
            old(ledger)@.users.contains_key(caller@) && old(ledger)@.correlations.contains_key(correlation_id@)
                && old(ledger)@.mails.contains_key(old(ledger)@.correlations[correlation_id@]) ==> {
                let user = old(ledger)@.users[caller@];
                let targets = reply_targets(old(ledger)@.mails[old(ledger)@.correlations[correlation_id@]].header, user);
                let base = ReplyView {
                    correlation_id: correlation_id@,
                    reply: ReplyModel { sender_address: user, ..reply@ },
                    now,
                    platform: old(ledger)@.config.domain_name@,
                    domains: domains_of(targets),
                    next: 0,
                    stage: ReplyStage::Lookup,
                };
                &&& !all_valid(targets) ==> (r matches Err(MailError::GeneralError(m)) && reports_first_invalid(
                    targets,
                    m@,
                ))
                &&& all_valid(targets) && targets.len() == 0 ==> r == Err::<(ReplySession, ReplyAction), MailError>(
                    MailError::NotAuthorized,
                )
                &&& all_valid(targets) && targets.len() > 0 ==> (r matches Ok((s, a)) && reply_wf(s@) && reply_opens(
                    base,
                    0,
                    s@,
                    old(ledger)@,
                    final(ledger)@,
                    a,
                ))
            },
    {
        let user = match ledger.get_user_address(caller) {
            Some(a) => a,
            None => {
                return Err(MailError::NoUserAddressFound);
            },
        };
        let mail_id = match ledger.lookup_correlation(&correlation_id) {
            Some(m) => m,
            None => {
                return Err(MailError::MailNotFound);
            },
        };
        let mail = match ledger.get_stored_mail(&mail_id) {
            Some(m) => m,
            None => {
                return Err(MailError::MailNotFound);
            },
        };
        let ghost targets = reply_targets(mail@.header, user@);
        let mut addresses: Vec<String> = Vec::new();
        if mail.header.from == user {
            addresses = crate::types::copy_strings(&mail.header.to);
        } else if holds(&mail.header.to, &user) {
            addresses.push(mail.header.from.clone());
            assert(strs(addresses@) =~= seq![mail@.header.from]);
        }
        assert(strs(addresses@) == targets);
        let mut domains: Vec<String> = Vec::new();
        match push_domains(&addresses, &mut domains) {
            Ok(()) => {},
            Err(e) => {
                return Err(e);
            },
        }
        proof {
            assert(strs(Seq::<String>::empty()) =~= Seq::<Seq<char>>::empty());
        }
        if domains.len() == 0 {
            assert(domains_of(targets).len() == targets.len());
            return Err(MailError::NotAuthorized);
        }
        let mut reply = reply;
        reply.sender_address = user;
        let mut session = ReplySession {
            correlation_id,
            reply,
            now,
            platform_domain: ledger.get_domain_name(),
            domains,
            next: 0,
            stage: ReplyStage::Lookup,
        };
        assert(strs(session.domains@) =~= domains_of(targets));
        let a = session.open_from(ledger, 0);
        Ok((session, a))
    }

    /// Advances the session on the answer to its last action.
    pub fn step(&mut self, ledger: &mut Ledger, event: ReplyEvent) -> (a: ReplyAction)
        requires
            old(ledger).wf(),
            reply_wf(old(self)@),
        ensures
            final(ledger).wf(),
            reply_wf(final(self)@),
            reply_step(old(self)@, final(self)@, old(ledger)@, final(ledger)@, event, a),
    {
        match (self.stage, event) {
            (ReplyStage::Lookup, ReplyEvent::Resolved(Resolution::Node(node))) => {
                self.stage = ReplyStage::Remote;
                ReplyAction::DeliverReply {
                    node,
                    correlation_id: self.correlation_id.clone(),
                    reply: self.reply.clone(),
                }
            },
            (ReplyStage::Lookup, ReplyEvent::Resolved(_)) => {
                let len = self.domains.len();
                assert(self.next < len);
                let n = self.next + 1;
                self.open_from(ledger, n)
            },
            (ReplyStage::Remote, ReplyEvent::PeerAnswered(_)) => {
                let len = self.domains.len();
                assert(self.next < len);
                let n = self.next + 1;
                self.open_from(ledger, n)
            },
            _ => ReplyAction::Idle,
        }
    }
}

/// A message to this node's own domain only, with a registered recipient
/// and fresh ids, is stored unread in that recipient's inbox after two
/// answers, with no lookup, node call or gateway post, and the send ends
/// in success.
pub proof fn lemma_local_send(
    o: SendView,
    s1: SendView,
    s2: SendView,
    l0: LedgerModel,
    l1: LedgerModel,
    l2: LedgerModel,
    b1: Vec<u8>,
    b2: Vec<u8>,
    a1: SendAction,
    a2: SendAction,
    rcpt: Seq<char>,
)
    requires
        o.stage == SendStage::Correlation,
        o.outcomes.len() == 0,
        o.domains == seq![o.platform],
        recipients(o.mail.header).contains(rcpt),
        is_registered(l0, rcpt),
        !l0.mails.contains_key(hex_text(b1@)),
        !l0.mails.contains_key(hex_text(b2@)),
        hex_text(b1@) != hex_text(b2@),
        send_step(o, s1, l0, l1, SendEvent::Minted(Some(b1)), a1),
        send_step(s1, s2, l1, l2, SendEvent::Minted(Some(b2)), a2),
    ensures
        a1 is MintId,
        a2 matches SendAction::Finished(r) && r is Ok,
        l2.inboxes[rcpt] == l0.inboxes[rcpt].push(hex_text(b2@)),
        l2.read[hex_text(b2@)] == false,
        s2.stage == SendStage::Done,
{
    let id = hex_text(b2@);
    let copy = local_copy(s1.mail, s1.node_id);
    assert(recipients(copy.header) == recipients(o.mail.header));
    assert(is_registered(l1, rcpt));
    assert(submit_result(l1, copy, id) is Ok);
    let outcomes = seq![DomainOutcome::Delivered];
    assert(s2.outcomes =~= outcomes);
    reveal_with_fuel(crate::routing::failure_entries, 2);
    assert(crate::routing::failure_entries(s2.domains, s2.outcomes, 1).len() == 0);
}

/// A message to one domain that no node owns, whose gateway post fails,
/// ends in the gateway error after the post, and leaves every inbox and
/// read flag as it was.
pub proof fn lemma_gateway_failure(
    o: SendView,
    s1: SendView,
    s2: SendView,
    s3: SendView,
    s4: SendView,
    s5: SendView,
    l0: LedgerModel,
    l1: LedgerModel,
    l2: LedgerModel,
    l3: LedgerModel,
    l4: LedgerModel,
    l5: LedgerModel,
    b1: Vec<u8>,
    b2: Vec<u8>,
    sig: Vec<u8>,
    fault: String,
    a1: SendAction,
    a2: SendAction,
    a3: SendAction,
    a4: SendAction,
    a5: SendAction,
)
    requires
        o.stage == SendStage::Correlation,
        o.outcomes.len() == 0,
        o.domains.len() == 1,
        o.domains[0] != o.platform,
        !l0.mails.contains_key(hex_text(b1@)),
        send_step(o, s1, l0, l1, SendEvent::Minted(Some(b1)), a1),
        send_step(s1, s2, l1, l2, SendEvent::Resolved(Resolution::NotFound), a2),
        send_step(s2, s3, l2, l3, SendEvent::Minted(Some(b2)), a3),
        send_step(s3, s4, l3, l4, SendEvent::Signed(Ok(sig)), a4),
        send_step(s4, s5, l4, l5, SendEvent::Posted(Err(fault)), a5),
    ensures
        a5 matches SendAction::Finished(Err(MailError::HttpSendMail(t))) && t@ == fault@,
        l5.inboxes == l0.inboxes,
        l5.read == l0.read,
        l5.mails.contains_key(hex_text(b1@)),
        s5.stage == SendStage::Done,
{
    assert(s1.stage == SendStage::Lookup);
}

/// No step of a send takes back a delivery: every id in an inbox before a
/// step is still there after it, whatever the step's event, so local
/// deliveries stand however later domains end.
pub proof fn lemma_step_keeps_deliveries(
    o: SendView,
    s: SendView,
    l0: LedgerModel,
    l1: LedgerModel,
    e: SendEvent,
    a: SendAction,
    addr: Seq<char>,
    id: Seq<char>,
)
    requires
        send_step(o, s, l0, l1, e, a),
        l0.inboxes.contains_key(addr),
        l0.inboxes[addr].contains(id),
    ensures
        l1.inboxes.contains_key(addr),
        l1.inboxes[addr].contains(id),
{
    match (o.stage, e) {
        (SendStage::LocalId, SendEvent::Minted(Some(b))) => {
            let copy = local_copy(o.mail, o.node_id);
            let nid = hex_text(b@);
            if submit_result(l0, copy, nid) is Ok {
                crate::ledger::lemma_push_contains(l0.inboxes[addr], nid, id);
            }
        },
        _ => {},
    }
}

} // verus!
