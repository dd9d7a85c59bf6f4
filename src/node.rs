//! The decisions a node makes around its calls: who may call what, how an
//! inbound message or reply is accepted, and how ids are drawn from random
//! bytes.
use vstd::prelude::*;

use crate::external::{anonymous_identity, email_domain, email_domain_of, hex_encode, hex_text, principal_bytes_of, principal_from_text};
use crate::ledger::{after_submit, custodian_gate, reply_result_matches, stored_reply, submit_result, Ledger, LedgerModel};
use crate::types::{HeaderModel, Identity, Mail, MailError, MailModel, MailReply, Newsletter, RegistryError, SUBMIT_CALL_PAYMENT};

verus! {

/// Whether an identity is the anonymous one.
pub open spec fn is_anonymous(id: Seq<u8>) -> bool {
    id == seq![4u8]
}

/// Refuses the anonymous identity.
pub fn not_anonymous(caller: &Identity) -> (r: Result<(), String>)
    ensures
        r is Ok <==> !is_anonymous(caller@),
{
    let anonymous = anonymous_identity();
    if caller.same_as(&anonymous) {
        Err("User is anonymous".to_string())
    } else {
        Ok(())
    }
}

/// Admits a caller that is not anonymous and is bound to an address.
pub fn is_one_of_user(ledger: &Ledger, caller: &Identity) -> (r: Result<(), String>)
    requires
        ledger.wf(),
    ensures
        r is Ok <==> !is_anonymous(caller@) && ledger@.users.contains_key(caller@),
{
    match not_anonymous(caller) {
        Ok(()) => {},
        Err(e) => {
            return Err(e);
        },
    }
    match ledger.get_user_address(caller) {
        Some(_) => Ok(()),
        None => Err("There's no email address associated with this prinicpal".to_string()),
    }
}

/// Admits a call that carries at least `payment` credits.
pub fn check_payment(available: u64, payment: u64) -> (r: Result<(), String>)
    ensures
        r is Ok <==> available >= payment,
{
    if available < payment {
        Err("Insufficient Fund".to_string())
    } else {
        Ok(())
    }
}

/// A message handed in by another node, marked with where it came from.
pub open spec fn marked_inbound(mail: MailModel, caller_text: Seq<char>, node_id: Seq<char>) -> MailModel {
    MailModel {
        header: HeaderModel {
            sender_channel: Some("icp"@),
            sender_canister_id: Some(caller_text),
            receipient_canister_id: Some(node_id),
            ..mail.header
        },
        ..mail
    }
}

/// Checks an inbound message before an id is drawn for it: a custodian's
/// message passes as it is; any other caller must pay for the call, and its
/// message is marked with the calling node and this node.
pub fn prepare_submission(
    ledger: &Ledger,
    caller: &Identity,
    caller_text: String,
    node_id: String,
    cycles_available: u64,
    mail: Mail,
) -> (r: Result<Mail, MailError>)
    requires
        ledger.wf(),
    ensures
        ledger@.custodians.contains(caller@) ==> r is Ok && r->Ok_0@ == mail@,
        !ledger@.custodians.contains(caller@) && cycles_available < SUBMIT_CALL_PAYMENT ==> (r matches Err(
            MailError::GeneralError(m),
        ) && m@ == "Not Enough Cycles"@),
        !ledger@.custodians.contains(caller@) && cycles_available >= SUBMIT_CALL_PAYMENT ==> r is Ok && r->Ok_0@
            == marked_inbound(mail@, caller_text@, node_id@),
{
    if ledger.is_custodian(caller).is_ok() {
        return Ok(mail);
    }
    if cycles_available < SUBMIT_CALL_PAYMENT {
        return Err(MailError::GeneralError("Not Enough Cycles".to_string()));
    }
    let mut mail = mail;
    mail.header.sender_channel = Some(crate::types::SenderChannel::ICP.to_string());
    mail.header.sender_canister_id = Some(caller_text);
    mail.header.receipient_canister_id = Some(node_id);
    Ok(mail)
}

/// Stores an inbound message under the id drawn from `random`.
pub fn complete_submission(ledger: &mut Ledger, mail: Mail, random: Option<Vec<u8>>) -> (r: Result<(), MailError>)
    requires
        old(ledger).wf(),
    ensures
        final(ledger).wf(),
        random is None ==> r == Err::<(), MailError>(MailError::FailedToGenerateMailId) && final(ledger)@ == old(ledger)@,
        random is Some ==> r == submit_result(old(ledger)@, mail@, hex_text(random->0@)) && final(ledger)@ == after_submit(
            old(ledger)@,
            mail@,
            hex_text(random->0@),
        ),
{
    match random {
        Some(bytes) => {
            let id = hex_encode(&bytes);
            ledger.submit_mail(mail, id)
        },
        None => Err(MailError::FailedToGenerateMailId),
    }
}

/// The domain an inbound reply claims to come from.
pub fn reply_sender_domain(reply: &MailReply) -> (r: Result<String, MailError>)
    ensures
        email_domain_of(reply@.sender_address) is Some ==> r is Ok && r->Ok_0@ == email_domain_of(
            reply@.sender_address,
        )->0,
        email_domain_of(reply@.sender_address) is None ==> (r matches Err(MailError::GeneralError(m)) && m@
            == "Bad email address"@),
{
    match email_domain(reply.sender_address.as_str()) {
        Some(d) => Ok(d),
        None => Err(MailError::GeneralError("Bad email address".to_string())),
    }
}

/// Stores an inbound reply when the calling node is the one the directory
/// names for the reply's domain.
pub fn accept_reply(
    ledger: &mut Ledger,
    caller: &Identity,
    lookup: Result<String, RegistryError>,
    corelation_id: String,
    reply: MailReply,
    now: u64,
) -> (r: Result<(), MailError>)
    requires
        old(ledger).wf(),
    ensures
        final(ledger).wf(),
        lookup is Err ==> (r matches Err(MailError::GeneralError(m)) && m@ == "Could not verify domain name"@)
            && final(ledger)@ == old(ledger)@,
        lookup is Ok && principal_bytes_of(lookup->Ok_0@) != Some(caller@) ==> r == Err::<(), MailError>(
            MailError::NotAuthorized,
        ) && final(ledger)@ == old(ledger)@,
        lookup is Ok && principal_bytes_of(lookup->Ok_0@) == Some(caller@) ==> reply_result_matches(
            old(ledger)@,
            corelation_id@,
            reply@,
            r,
        ) && final(ledger)@ == stored_reply(old(ledger)@, corelation_id@, reply@, now),
{
    let text = match lookup {
        Ok(t) => t,
        Err(_) => {
            return Err(MailError::GeneralError("Could not verify domain name".to_string()));
        },
    };
    match principal_from_text(text.as_str()) {
        Some(owner) => {
            if !owner.same_as(caller) {
                return Err(MailError::NotAuthorized);
            }
        },
        None => {
            return Err(MailError::NotAuthorized);
        },
    }
    ledger.store_reply(corelation_id, reply, now)
}

/// Creates a newsletter under the id drawn from `random`, for custodians.
pub fn create_newsletter_from(ledger: &mut Ledger, caller: &Identity, random: Option<Vec<u8>>, letter: Newsletter) -> (r:
    Result<(), MailError>)
    requires
        old(ledger).wf(),
    ensures
        final(ledger).wf(),
        custodian_gate(*old(ledger), *final(ledger), caller@, r),
        old(ledger)@.custodians.contains(caller@) && random is None ==> r == Err::<(), MailError>(
            MailError::FailedToGenerateMailId,
        ) && final(ledger)@ == old(ledger)@,
        old(ledger)@.custodians.contains(caller@) && random is Some ==> r is Ok && final(ledger)@ == (LedgerModel {
            newsletters: old(ledger)@.newsletters.insert(hex_text(random->0@), letter),
            subscribers: old(ledger)@.subscribers.insert(hex_text(random->0@), Map::empty()),
            ..old(ledger)@
        }),
{
    if ledger.is_custodian(caller).is_err() {
        return Err(MailError::NotAuthorized);
    }
    match random {
        Some(bytes) => {
            let id = hex_encode(&bytes);
            ledger.custodian_create_newsletter(caller, id, letter)
        },
        None => Err(MailError::FailedToGenerateMailId),
    }
}

/// The copy of a newsletter issue sent to one subscriber.
pub fn newsletter_copy(mail: &Mail, address: String) -> (r: Mail)
    ensures
        r@ == (MailModel { header: HeaderModel { to: seq![address@], ..mail@.header }, ..mail@ }),
{
    let mut copy = mail.clone();
    let ghost a = address@;
    copy.header.to = vec![address];
    assert(copy@.header.to =~= seq![a]);
    copy
}

} // verus!
