use dmailfi::ledger::Ledger;
use dmailfi::node::{
    accept_reply, check_payment, complete_submission, create_newsletter_from, is_one_of_user, newsletter_copy,
    not_anonymous, prepare_submission, reply_sender_domain,
};
use dmailfi::routing::{transfer_result, DomainOutcome};
use dmailfi::session::{
    PeerAnswer, ReplyAction, ReplyEvent, ReplySession, Resolution, SendAction, SendEvent, SendSession, SendStage,
};
use dmailfi::types::{
    Identity, LedgerConfiguration, Mail, MailError, MailHeader, MailReply, Newsletter, RegistryError,
};

fn id(b: u8) -> Identity {
    Identity::from_bytes(vec![b, 9])
}

fn node(domain: &str) -> Ledger {
    let mut l = Ledger::new();
    l.init(LedgerConfiguration {
        registry_canister: "rrkah-fqaaa-aaaaa-aaaaq-cai".to_string(),
        token_address: String::new(),
        permissioned: false,
        mta_url: "https://mta.example/send".to_string(),
        domain_name: domain.to_string(),
        show_logs: false,
        version: String::new(),
    });
    l
}

fn mail_to(to: &[&str]) -> Mail {
    let mut header = MailHeader::default();
    header.from = "forged@evil.com".to_string();
    header.to = to.iter().map(|s| s.to_string()).collect();
    Mail { correlation_id: None, header, body: b"hello".to_vec(), reply_messages: None }
}

fn finished(a: SendAction) -> Result<(), MailError> {
    match a {
        SendAction::Finished(r) => r,
        _ => panic!("session did not finish"),
    }
}

#[test]
fn local_delivery_then_read() {
    let mut l = node("x.com");
    let sender = id(1);
    let alice = id(2);
    l.public_create_user(&sender, "s@x.com".to_string()).unwrap();
    l.public_create_user(&alice, "a@x.com".to_string()).unwrap();
    let (mut s, a) = SendSession::start(&l, &sender, mail_to(&["a@x.com"]), "node-x".to_string()).ok().unwrap();
    assert!(matches!(a, SendAction::MintId));
    let a = s.step(&mut l, SendEvent::Minted(Some(vec![0xab, 0x01])));
    assert!(matches!(a, SendAction::MintId));
    let a = s.step(&mut l, SendEvent::Minted(Some(vec![0x0a, 0x0b])));
    assert_eq!(finished(a), Ok(()));
    let listed = l.get_mails(&alice, None).ok().unwrap();
    assert_eq!(listed.len(), 1);
    assert!(!listed[0].read);
    assert_eq!(listed[0].mail_id, "0a0b");
    assert_eq!(listed[0].header.from, "s@x.com");
    assert_eq!(listed[0].header.receipient_canister_id, Some("node-x".to_string()));
    let fetched = l.get_mail(&alice, "0a0b".to_string()).ok().unwrap();
    assert_eq!(fetched.body, b"hello".to_vec());
    assert_eq!(fetched.correlation_id, Some("ab01".to_string()));
    assert!(l.get_mails(&alice, None).ok().unwrap()[0].read);
    assert_eq!(l.lookup_correlation(&"ab01".to_string()), Some("0a0b".to_string()));
    assert!(l.get_stored_mail(&"ab01".to_string()).is_some());
}

#[test]
fn gateway_failure_keeps_sender_copy() {
    let mut l = node("x.com");
    let sender = id(1);
    l.public_create_user(&sender, "s@x.com".to_string()).unwrap();
    let (mut s, _) = SendSession::start(&l, &sender, mail_to(&["b@unknown.tld"]), "node-x".to_string()).ok().unwrap();
    let a = s.step(&mut l, SendEvent::Minted(Some(vec![0xab, 0x01])));
    match a {
        SendAction::Resolve(d) => assert_eq!(d, "unknown.tld"),
        _ => panic!("expected a lookup"),
    }
    let a = s.step(&mut l, SendEvent::Resolved(Resolution::NotFound));
    assert!(matches!(a, SendAction::MintId));
    let a = s.step(&mut l, SendEvent::Minted(Some(vec![0xab, 0x01])));
    match a {
        SendAction::Sign(hash) => assert_eq!(
            hex::encode(hash),
            "cac7a9a6bae53a734ddcab67424d675bb0a81ec3ff07e6c8c64affff5a977d67"
        ),
        _ => panic!("expected a signature request"),
    }
    let a = s.step(&mut l, SendEvent::Signed(Ok(vec![1, 2, 255])));
    match a {
        SendAction::PostToGateway { url, headers, envelope } => {
            assert_eq!(url, "https://mta.example/send");
            assert_eq!(headers[0], ("x-sig".to_string(), "0102ff".to_string()));
            assert_eq!(headers[1], ("x-principal".to_string(), "node-x".to_string()));
            assert_eq!(envelope.id, "ab01");
            assert_eq!(envelope.header.from, "s@x.com");
        },
        _ => panic!("expected a gateway post"),
    }
    let a = s.step(&mut l, SendEvent::Posted(Err("unreachable".to_string())));
    assert_eq!(finished(a), Err(MailError::HttpSendMail("unreachable".to_string())));
    assert_eq!(s.stage(), SendStage::Done);
    let copy = l.get_stored_mail(&"ab01".to_string()).unwrap();
    assert_eq!(copy.header.from, "s@x.com");
    assert_eq!(copy.correlation_id, Some("ab01".to_string()));
}

#[test]
fn fan_out_names_exactly_the_failed_domains() {
    let mut l = node("x.com");
    let sender = id(1);
    let alice = id(2);
    l.public_create_user(&sender, "s@x.com".to_string()).unwrap();
    l.public_create_user(&alice, "a@x.com".to_string()).unwrap();
    let m = mail_to(&["a@x.com", "p@ok.org", "q@down.org", "r@picky.org", "t@gone.org", "u@far.net"]);
    let (mut s, _) = SendSession::start(&l, &sender, m, "node-x".to_string()).ok().unwrap();
    assert_eq!(s.domains().len(), 6);
    s.step(&mut l, SendEvent::Minted(Some(vec![1])));
    let a = s.step(&mut l, SendEvent::Minted(Some(vec![2])));
    assert!(matches!(a, SendAction::Resolve(_)));
    let a = s.step(&mut l, SendEvent::Resolved(Resolution::Node("node-ok".to_string())));
    match &a {
        SendAction::DeliverRemote { node, mail } => {
            assert_eq!(node, "node-ok");
            assert_eq!(mail.header.from, "s@x.com");
        },
        _ => panic!("expected a delivery"),
    }
    s.step(&mut l, SendEvent::PeerAnswered(PeerAnswer::Accepted));
    s.step(&mut l, SendEvent::Resolved(Resolution::Fault));
    s.step(&mut l, SendEvent::Resolved(Resolution::Node("node-picky".to_string())));
    s.step(&mut l, SendEvent::PeerAnswered(PeerAnswer::Rejected(MailError::NoUserAddressFound)));
    s.step(&mut l, SendEvent::Resolved(Resolution::Node("node-gone".to_string())));
    s.step(&mut l, SendEvent::PeerAnswered(PeerAnswer::Fault));
    s.step(&mut l, SendEvent::Resolved(Resolution::NotFound));
    s.step(&mut l, SendEvent::Minted(Some(vec![3])));
    s.step(&mut l, SendEvent::Signed(Ok(vec![4])));
    let a = s.step(&mut l, SendEvent::Posted(Ok(200)));
    assert_eq!(
        finished(a),
        Err(MailError::MailTransferError(
            "The following domains down.org,Domain: picky.org with error: No user Address Found,gone.org failed"
                .to_string()
        ))
    );
    assert_eq!(s.outcomes().len(), 6);
    assert_eq!(l.get_mails(&alice, None).ok().unwrap().len(), 1);
}

#[test]
fn unexpected_event_changes_nothing() {
    let mut l = node("x.com");
    let sender = id(1);
    l.public_create_user(&sender, "s@x.com".to_string()).unwrap();
    let (mut s, _) = SendSession::start(&l, &sender, mail_to(&["a@y.com"]), "n".to_string()).ok().unwrap();
    assert!(matches!(s.step(&mut l, SendEvent::Resolved(Resolution::Fault)), SendAction::Idle));
    assert_eq!(s.stage(), SendStage::Correlation);
    assert_eq!(finished(s.step(&mut l, SendEvent::Minted(None))), Err(MailError::FailedToGenerateMailId));
}

#[test]
fn invalid_recipient_stops_the_send() {
    let mut l = node("x.com");
    let sender = id(1);
    l.public_create_user(&sender, "s@x.com".to_string()).unwrap();
    let r = SendSession::start(&l, &sender, mail_to(&["ok@y.com", "broken"]), "n".to_string());
    assert_eq!(r.err(), Some(MailError::GeneralError("broken is not valid".to_string())));
    let r = SendSession::start(&l, &id(7), mail_to(&["ok@y.com"]), "n".to_string());
    assert_eq!(r.err(), Some(MailError::NoUserAddressFound));
}

#[test]
fn recipient_domains_in_routing_order() {
    let mut m = mail_to(&["a@one.com"]);
    m.header.cc = Some(vec!["c@three.com".to_string()]);
    m.header.bcc = Some(vec!["b@two.com".to_string(), "d@one.com".to_string()]);
    assert_eq!(
        Ledger::get_receipients_domains(&m),
        Ok(vec!["one.com".to_string(), "two.com".to_string(), "one.com".to_string(), "three.com".to_string()])
    );
}

#[test]
fn transfer_result_sums_up() {
    let domains = vec!["a.com".to_string(), "b.com".to_string()];
    assert_eq!(transfer_result(&domains, &vec![DomainOutcome::Delivered, DomainOutcome::SentToGateway]), Ok(()));
    assert_eq!(
        transfer_result(&domains, &vec![DomainOutcome::LocalRejected, DomainOutcome::PeerUnreachable]),
        Err(MailError::MailTransferError("The following domains a.com,b.com failed".to_string()))
    );
}

#[test]
fn reply_goes_to_the_other_party_and_is_kept_here() {
    let mut l = node("x.com");
    let bob = id(3);
    l.public_create_user(&bob, "bob@x.com".to_string()).unwrap();
    let mut m = mail_to(&["bob@x.com"]);
    m.header.from = "carol@y.org".to_string();
    m.correlation_id = Some("c9".to_string());
    l.submit_mail(m, "m1".to_string()).unwrap();
    let reply = MailReply { content: b"thanks".to_vec(), sender_address: "x".to_string(), principal: None, timestamp: 1 };
    let (mut s, a) = ReplySession::start(&mut l, &bob, "c9".to_string(), reply, 500).ok().unwrap();
    match a {
        ReplyAction::Resolve(d) => assert_eq!(d, "y.org"),
        _ => panic!("expected a lookup of the sender's domain"),
    }
    let a = s.step(&mut l, ReplyEvent::Resolved(Resolution::Node("carol-node".to_string())));
    match a {
        ReplyAction::DeliverReply { node, reply, .. } => {
            assert_eq!(node, "carol-node");
            assert_eq!(reply.sender_address, "bob@x.com");
        },
        _ => panic!("expected a delivery to the sender's node"),
    }
    let a = s.step(&mut l, ReplyEvent::PeerAnswered(PeerAnswer::Accepted));
    assert!(matches!(a, ReplyAction::Finished(Ok(()))));
    let stored = l.get_mail(&bob, "m1".to_string()).ok().unwrap();
    let replies = stored.reply_messages.unwrap();
    assert_eq!(replies.len(), 1);
    assert_eq!(replies[0].sender_address, "bob@x.com");
    assert_eq!(stored.header.timestamp, 500);
}

#[test]
fn reply_from_sender_resolves_recipient_domains() {
    let mut l = node("x.com");
    let sender = id(1);
    l.public_create_user(&sender, "s@x.com".to_string()).unwrap();
    let (mut send, _) = SendSession::start(&l, &sender, mail_to(&["far@y.org"]), "n".to_string()).ok().unwrap();
    send.step(&mut l, SendEvent::Minted(Some(vec![0xcc])));
    let reply = MailReply { content: vec![], sender_address: String::new(), principal: None, timestamp: 0 };
    assert_eq!(
        ReplySession::start(&mut l, &sender, "cc".to_string(), reply, 9).err(),
        Some(MailError::MailNotFound)
    );
    let mut m = mail_to(&["far@y.org"]);
    m.header.from = "s@x.com".to_string();
    m.correlation_id = Some("c2".to_string());
    l.public_create_user(&id(8), "far@y.org".to_string()).unwrap();
    l.submit_mail(m, "m2".to_string()).unwrap();
    let reply = MailReply { content: vec![], sender_address: String::new(), principal: None, timestamp: 0 };
    let (mut s, a) = ReplySession::start(&mut l, &sender, "c2".to_string(), reply, 9).ok().unwrap();
    match a {
        ReplyAction::Resolve(d) => assert_eq!(d, "y.org"),
        _ => panic!("expected a lookup"),
    }
    let a = s.step(&mut l, ReplyEvent::Resolved(Resolution::Node("peer".to_string())));
    match a {
        ReplyAction::DeliverReply { node, correlation_id, reply } => {
            assert_eq!(node, "peer");
            assert_eq!(correlation_id, "c2");
            assert_eq!(reply.sender_address, "s@x.com");
        },
        _ => panic!("expected a delivery"),
    }
    let a = s.step(&mut l, ReplyEvent::PeerAnswered(PeerAnswer::Fault));
    assert!(matches!(a, ReplyAction::Finished(Ok(()))));
}

#[test]
fn guards() {
    assert!(not_anonymous(&Identity::from_bytes(vec![4])).is_err());
    assert!(not_anonymous(&Identity::from_bytes(vec![4, 1])).is_ok());
    assert!(check_payment(10, 10).is_ok());
    assert!(check_payment(9, 10).is_err());
    let mut l = node("x.com");
    l.public_create_user(&id(1), "a@x.com".to_string()).unwrap();
    assert!(is_one_of_user(&l, &id(1)).is_ok());
    assert!(is_one_of_user(&l, &id(2)).is_err());
}

#[test]
fn inbound_submission() {
    let mut l = node("x.com");
    l.public_create_user(&id(1), "a@x.com".to_string()).unwrap();
    let peer = id(5);
    let r = prepare_submission(&l, &peer, "peer-text".to_string(), "me".to_string(), 1, mail_to(&["a@x.com"]));
    assert_eq!(r.err(), Some(MailError::GeneralError("Not Enough Cycles".to_string())));
    let m = prepare_submission(&l, &peer, "peer-text".to_string(), "me".to_string(), 2_000_000_000, mail_to(&["a@x.com"]))
        .ok()
        .unwrap();
    assert_eq!(m.header.sender_channel, Some("icp".to_string()));
    assert_eq!(m.header.sender_canister_id, Some("peer-text".to_string()));
    assert_eq!(complete_submission(&mut l, m, None), Err(MailError::FailedToGenerateMailId));
    let m = mail_to(&["a@x.com"]);
    assert_eq!(complete_submission(&mut l, m, Some(vec![0xde, 0xad])), Ok(()));
    assert!(l.get_mail(&id(1), "dead".to_string()).is_ok());
}

#[test]
fn inbound_reply_checks_the_calling_node() {
    let mut l = node("x.com");
    l.public_create_user(&id(1), "a@x.com".to_string()).unwrap();
    let mut m = mail_to(&["a@x.com"]);
    m.header.from = "z@y.org".to_string();
    m.correlation_id = Some("c1".to_string());
    l.submit_mail(m, "m1".to_string()).unwrap();
    let reply = || MailReply { content: vec![], sender_address: "z@y.org".to_string(), principal: None, timestamp: 0 };
    assert_eq!(reply_sender_domain(&reply()), Ok("y.org".to_string()));
    let mut bad = reply();
    bad.sender_address = "nope".to_string();
    assert_eq!(reply_sender_domain(&bad), Err(MailError::GeneralError("Bad email address".to_string())));
    let anonymous = Identity::from_bytes(vec![4]);
    assert_eq!(
        accept_reply(&mut l, &anonymous, Err(RegistryError::NotFound), "c1".to_string(), reply(), 3),
        Err(MailError::GeneralError("Could not verify domain name".to_string()))
    );
    assert_eq!(
        accept_reply(&mut l, &id(9), Ok("2vxsx-fae".to_string()), "c1".to_string(), reply(), 3),
        Err(MailError::NotAuthorized)
    );
    assert_eq!(accept_reply(&mut l, &anonymous, Ok("2vxsx-fae".to_string()), "c1".to_string(), reply(), 3), Ok(()));
}

#[test]
fn newsletter_creation_and_copies() {
    let mut l = node("x.com");
    let boss = id(1);
    let letter = || Newsletter { title: "T".to_string(), desciption: "D".to_string() };
    assert_eq!(create_newsletter_from(&mut l, &boss, Some(vec![1]), letter()), Err(MailError::NotAuthorized));
    l.add_custodian(boss.copy());
    assert_eq!(create_newsletter_from(&mut l, &boss, None, letter()), Err(MailError::FailedToGenerateMailId));
    assert_eq!(create_newsletter_from(&mut l, &boss, Some(vec![0x1f]), letter()), Ok(()));
    assert!(l.get_newsletter("1f".to_string()).is_ok());
    let copy = newsletter_copy(&mail_to(&["a@x.com", "b@x.com"]), "c@x.com".to_string());
    assert_eq!(copy.header.to, vec!["c@x.com".to_string()]);
}

#[test]
fn gateway_status_other_than_200_fails() {
    let mut l = node("x.com");
    let sender = id(1);
    l.public_create_user(&sender, "s@x.com".to_string()).unwrap();
    let (mut s, _) = SendSession::start(&l, &sender, mail_to(&["b@unknown.tld"]), "n".to_string()).ok().unwrap();
    s.step(&mut l, SendEvent::Minted(Some(vec![1])));
    s.step(&mut l, SendEvent::Resolved(Resolution::NotFound));
    s.step(&mut l, SendEvent::Minted(Some(vec![2])));
    s.step(&mut l, SendEvent::Signed(Ok(vec![3])));
    let a = s.step(&mut l, SendEvent::Posted(Ok(404)));
    assert_eq!(
        finished(a),
        Err(MailError::HttpSendMail("Gateway answered with a status other than 200".to_string()))
    );
}

#[test]
fn sender_copy_collision_stops_the_send() {
    let mut l = node("x.com");
    let sender = id(1);
    l.public_create_user(&sender, "s@x.com".to_string()).unwrap();
    l.store_mail(mail_to(&["x@y.com"]), "ab".to_string()).unwrap();
    let (mut s, _) = SendSession::start(&l, &sender, mail_to(&["a@y.com"]), "n".to_string()).ok().unwrap();
    let a = s.step(&mut l, SendEvent::Minted(Some(vec![0xab])));
    assert_eq!(finished(a), Err(MailError::InternalSystemMailCollision));
    assert_eq!(s.stage(), SendStage::Done);
}
