use dmailfi::ledger::Ledger;
use dmailfi::types::{
    Identity, LedgerConfiguration, LedgerInfo, Mail, MailError, MailHeader, MailReply, Newsletter,
};

fn id(b: u8) -> Identity {
    Identity::from_bytes(vec![b, 1, 2])
}

fn node(domain: &str, permissioned: bool) -> Ledger {
    let mut l = Ledger::new();
    l.init(LedgerConfiguration {
        registry_canister: "rrkah-fqaaa-aaaaa-aaaaq-cai".to_string(),
        token_address: "token".to_string(),
        permissioned,
        mta_url: "https://mta.example/send".to_string(),
        domain_name: domain.to_string(),
        show_logs: false,
        version: "1".to_string(),
    });
    l
}

fn mail_to(to: &[&str], body: &[u8]) -> Mail {
    let mut header = MailHeader::default();
    header.from = "s@x.com".to_string();
    header.to = to.iter().map(|s| s.to_string()).collect();
    Mail { correlation_id: None, header, body: body.to_vec(), reply_messages: None }
}

fn inbox_ids(l: &Ledger, who: &Identity) -> Vec<String> {
    l.get_mails(who, None).ok().unwrap().iter().map(|e| e.mail_id.clone()).collect()
}

#[test]
fn store_without_local_recipient_fails() {
    let mut l = node("x.com", false);
    let r = l.submit_mail(mail_to(&["nobody@x.com"], b"hi"), "m1".to_string());
    assert_eq!(r, Err(MailError::NoUserAddressFound));
}

#[test]
fn store_twice_under_one_id_collides_and_keeps_inboxes() {
    let mut l = node("x.com", false);
    let a = id(1);
    l.public_create_user(&a, "a@x.com".to_string()).unwrap();
    assert_eq!(l.submit_mail(mail_to(&["a@x.com"], b"one"), "m1".to_string()), Ok(()));
    let before = inbox_ids(&l, &a);
    let r = l.submit_mail(mail_to(&["a@x.com"], b"two"), "m1".to_string());
    assert_eq!(r, Err(MailError::InternalSystemMailCollision));
    assert_eq!(inbox_ids(&l, &a), before);
    assert_eq!(before, vec!["m1".to_string()]);
    assert_eq!(l.get_mail(&a, "m1".to_string()).ok().unwrap().body, b"one".to_vec());
}

#[test]
fn store_reaches_cc_and_bcc_once_each() {
    let mut l = node("x.com", false);
    let (a, b, c) = (id(1), id(2), id(3));
    l.public_create_user(&a, "a@x.com".to_string()).unwrap();
    l.public_create_user(&b, "b@x.com".to_string()).unwrap();
    l.public_create_user(&c, "c@x.com".to_string()).unwrap();
    let mut m = mail_to(&["a@x.com", "a@x.com"], b"x");
    m.header.cc = Some(vec!["b@x.com".to_string()]);
    m.header.bcc = Some(vec!["c@x.com".to_string(), "far@y.com".to_string()]);
    assert_eq!(l.submit_mail(m, "m1".to_string()), Ok(()));
    assert_eq!(inbox_ids(&l, &a), vec!["m1".to_string()]);
    assert_eq!(inbox_ids(&l, &b), vec!["m1".to_string()]);
    assert_eq!(inbox_ids(&l, &c), vec!["m1".to_string()]);
}

#[test]
fn correlation_binds_first_message_only() {
    let mut l = node("x.com", false);
    let a = id(1);
    l.public_create_user(&a, "a@x.com".to_string()).unwrap();
    let mut first = mail_to(&["a@x.com"], b"1");
    first.correlation_id = Some("c1".to_string());
    let mut second = mail_to(&["a@x.com"], b"2");
    second.correlation_id = Some("c1".to_string());
    l.submit_mail(first, "m1".to_string()).unwrap();
    l.submit_mail(second, "m2".to_string()).unwrap();
    assert_eq!(l.lookup_correlation(&"c1".to_string()), Some("m1".to_string()));
}

#[test]
fn reply_resets_read_flag() {
    let mut l = node("x.com", false);
    let a = id(1);
    l.public_create_user(&a, "a@x.com".to_string()).unwrap();
    let mut m = mail_to(&["a@x.com"], b"1");
    m.correlation_id = Some("c1".to_string());
    l.submit_mail(m, "m1".to_string()).unwrap();
    l.get_mail(&a, "m1".to_string()).ok().unwrap();
    assert_eq!(l.get_mail_count(&a), Ok((0, 1)));
    let reply = MailReply {
        content: b"re".to_vec(),
        sender_address: "s@x.com".to_string(),
        principal: None,
        timestamp: 5,
    };
    assert_eq!(l.store_reply("c1".to_string(), reply, 77), Ok(()));
    assert_eq!(l.get_mail_count(&a), Ok((1, 0)));
    let stored = l.get_mail(&a, "m1".to_string()).ok().unwrap();
    assert_eq!(stored.header.timestamp, 77);
    assert_eq!(stored.reply_messages.unwrap().len(), 1);
}

#[test]
fn reply_errors() {
    let mut l = node("x.com", false);
    let a = id(1);
    l.public_create_user(&a, "a@x.com".to_string()).unwrap();
    let mut m = mail_to(&["a@x.com"], b"1");
    m.correlation_id = Some("c1".to_string());
    l.submit_mail(m, "m1".to_string()).unwrap();
    let reply = |who: &str| MailReply {
        content: vec![],
        sender_address: who.to_string(),
        principal: None,
        timestamp: 0,
    };
    assert_eq!(
        l.store_reply("zz".to_string(), reply("a@x.com"), 1),
        Err(MailError::NotFound)
    );
    assert_eq!(l.store_reply("c1".to_string(), reply("stranger@y.com"), 1), Err(MailError::NotAuthorized));
    assert_eq!(l.store_reply("c1".to_string(), reply("a@x.com"), 1), Ok(()));
}

#[test]
fn delete_and_restore_keep_inbox_and_trash_apart() {
    let mut l = node("x.com", false);
    let a = id(1);
    l.public_create_user(&a, "a@x.com".to_string()).unwrap();
    l.submit_mail(mail_to(&["a@x.com"], b"1"), "m1".to_string()).unwrap();
    l.submit_mail(mail_to(&["a@x.com"], b"2"), "m2".to_string()).unwrap();
    assert_eq!(l.delete_mail(&a, "m1".to_string()), Ok(()));
    assert_eq!(l.delete_mail(&a, "m2".to_string()), Ok(()));
    assert!(inbox_ids(&l, &a).is_empty());
    // the trash keeps both deleted messages
    assert_eq!(l.restore_mail(&a, "m1".to_string()), Ok(()));
    assert_eq!(l.restore_mail(&a, "m2".to_string()), Ok(()));
    assert_eq!(inbox_ids(&l, &a), vec!["m1".to_string(), "m2".to_string()]);
    assert_eq!(l.restore_mail(&a, "m1".to_string()), Err(MailError::MailNotFound));
    assert_eq!(l.get_mail(&a, "m1".to_string()).is_ok(), true);
}

#[test]
fn caller_without_address_is_refused() {
    let mut l = node("x.com", false);
    let nobody = id(9);
    assert_eq!(l.get_mail(&nobody, "m".to_string()).err(), Some(MailError::NoUserAddressFound));
    assert_eq!(l.get_mails(&nobody, None).err(), Some(MailError::NoUserAddressFound));
    assert_eq!(l.get_mail_count(&nobody), Err(MailError::NoUserAddressFound));
    assert_eq!(l.delete_mail(&nobody, "m".to_string()), Err(MailError::NoUserAddressFound));
    assert_eq!(l.restore_mail(&nobody, "m".to_string()), Err(MailError::NoUserAddressFound));
    assert_eq!(l.delete_self(&nobody), Err(MailError::NoUserAddressFound));
}

#[test]
fn listing_pages_and_body_limits() {
    let mut l = node("x.com", false);
    let a = id(1);
    l.public_create_user(&a, "a@x.com".to_string()).unwrap();
    for i in 0..55 {
        l.submit_mail(mail_to(&["a@x.com"], b"small"), format!("m{}", i)).unwrap();
    }
    l.submit_mail(mail_to(&["a@x.com"], &vec![7u8; 200_000]), "big".to_string()).unwrap();
    let first = l.get_mails(&a, None).ok().unwrap();
    assert_eq!(first.len(), 50);
    assert_eq!(first[0].mail_id, "m0");
    let second = l.get_mails(&a, Some(1)).ok().unwrap();
    assert_eq!(second.len(), 6);
    assert_eq!(second[5].mail_id, "big");
    assert_eq!(second[5].content.as_ref().map(|c| c.len()), Some(200_000));
    l.get_mail(&a, "big".to_string()).ok().unwrap();
    let again = l.get_mails(&a, Some(1)).ok().unwrap();
    assert!(again[5].read);
    assert!(again[5].content.is_none());
    assert_eq!(l.get_mails(&a, Some(2)).ok().unwrap().len(), 0);
    assert_eq!(l.get_mails(&a, Some(usize::MAX)).ok().unwrap().len(), 0);
    assert_eq!(l.get_mail_count(&a), Ok((55, 1)));
    assert_eq!(l.get_all_mail_count(), Ok((55, 1)));
}

#[test]
fn registration_rules() {
    let mut open = node("x.com", false);
    assert_eq!(open.public_create_user(&id(1), "a@x.com".to_string()), Ok(()));
    assert_eq!(open.public_create_user(&id(2), "a@x.com".to_string()), Err(MailError::AddressExist));
    assert_eq!(open.delete_user("a@x.com".to_string()), Err(MailError::NotAuthorized));
    let mut closed = node("x.com", true);
    assert_eq!(closed.public_create_user(&id(1), "a@x.com".to_string()), Err(MailError::PermissionedSystem));
    assert_eq!(closed.create_user("a@x.com".to_string(), "2vxsx-fae".to_string()), Ok(()));
    assert_eq!(closed.get_user_address(&Identity::from_bytes(vec![4])), Some("a@x.com".to_string()));
    assert!(matches!(
        closed.create_user("b@x.com".to_string(), "not a principal".to_string()),
        Err(MailError::GeneralError(_))
    ));
    assert_eq!(closed.create_user("m@x.com".to_string(), "aaaaa-aa".to_string()), Ok(()));
    assert_eq!(closed.get_user_address(&Identity::from_bytes(vec![])), Some("m@x.com".to_string()));
    assert_eq!(closed.delete_user("a@x.com".to_string()), Ok(()));
    assert_eq!(closed.get_user_address(&Identity::from_bytes(vec![4])), None);
}

#[test]
fn delete_self_removes_binding_and_inbox() {
    let mut l = node("x.com", false);
    let a = id(1);
    l.public_create_user(&a, "a@x.com".to_string()).unwrap();
    assert_eq!(l.delete_self(&a), Ok(()));
    assert_eq!(l.get_user_address(&a), None);
    assert_eq!(l.public_create_user(&id(2), "a@x.com".to_string()), Ok(()));
}

#[test]
fn custodian_operations_refuse_others_and_change_nothing() {
    let mut l = node("x.com", true);
    let boss = id(1);
    let other = id(2);
    l.add_custodian(boss.copy());
    let letter = Newsletter { title: "t".to_string(), desciption: "d".to_string() };
    assert_eq!(
        l.custodian_create_user(&other, "a@x.com".to_string(), "2vxsx-fae".to_string()),
        Err(MailError::NotAuthorized)
    );
    assert_eq!(l.custodian_delete_user(&other, "a@x.com".to_string()), Err(MailError::NotAuthorized));
    assert_eq!(
        l.custodian_set_info(&other, LedgerInfo { name: "n".to_string(), description: "d".to_string() }),
        Err(MailError::NotAuthorized)
    );
    assert_eq!(l.custodian_create_newsletter(&other, "n1".to_string(), letter.clone()), Err(MailError::NotAuthorized));
    assert_eq!(l.get_user_address(&Identity::from_bytes(vec![4])), None);
    assert_eq!(l.get_info().name, "");
    assert_eq!(l.get_newsletter("n1".to_string()).err(), Some(MailError::NotFound));
    assert_eq!(l.custodian_create_user(&boss, "a@x.com".to_string(), "2vxsx-fae".to_string()), Ok(()));
    assert_eq!(l.custodian_create_newsletter(&boss, "n1".to_string(), letter), Ok(()));
    assert!(l.is_custodian(&boss).is_ok());
    assert!(l.is_custodian(&other).is_err());
}

#[test]
fn newsletter_subscriptions() {
    let mut l = node("x.com", false);
    let owner = id(1);
    let stranger = id(2);
    assert_eq!(
        l.subscribe_to_newsletter("n1".to_string(), "c@x.com".to_string(), owner.copy()),
        Err(MailError::NotFound)
    );
    l.create_newletter("n1".to_string(), Newsletter { title: "T".to_string(), desciption: "D".to_string() })
        .unwrap();
    assert_eq!(l.subscribe_to_newsletter("n1".to_string(), "c@x.com".to_string(), owner.copy()), Ok(()));
    assert_eq!(
        l.subscribe_to_newsletter("n1".to_string(), "c@x.com".to_string(), owner.copy()),
        Err(MailError::AddressExist)
    );
    assert_eq!(
        l.unsubscribe_to_newsletter("n1".to_string(), "c@x.com".to_string(), stranger),
        Err(MailError::NotAuthorized)
    );
    assert_eq!(l.get_newsletter_subscribers("n1".to_string()), Ok(vec!["c@x.com".to_string()]));
    assert_eq!(l.unsubscribe_to_newsletter("n1".to_string(), "c@x.com".to_string(), owner), Ok(()));
    assert_eq!(l.get_newsletter_subscribers("n1".to_string()), Ok(vec![]));
    assert_eq!(l.get_newsletters().len(), 1);
    assert_eq!(l.get_newsletter("n1".to_string()).ok().unwrap().title, "T");
    assert_eq!(l.get_newsletter_subscribers("zz".to_string()), Err(MailError::NotFound));
}

#[test]
fn settings_and_users_listing() {
    let mut l = node("x.com", true);
    assert_eq!(l.get_domain_name(), "x.com");
    assert_eq!(l.get_token_address(), "token");
    assert_eq!(l.get_registry_address(), "rrkah-fqaaa-aaaaa-aaaaq-cai");
    assert_eq!(l.get_mail_transfer_agent_url(), "https://mta.example/send");
    l.create_user("a@x.com".to_string(), "2vxsx-fae".to_string()).unwrap();
    assert_eq!(l.get_users(&id(5)), Ok(vec!["a@x.com".to_string()]));
    let open = node("x.com", false);
    assert_eq!(open.get_users(&id(5)), Err(MailError::NotAuthorized));
    assert!(l.get_user_profile(&Identity::from_bytes(vec![4])).is_none());
    l.set_info(LedgerInfo { name: "node".to_string(), description: "d".to_string() });
    assert_eq!(l.get_info().name, "node");
    l.add_to_sent("c1".to_string(), "a@x.com".to_string());
}

#[test]
fn unbound_inbox_receives_nothing() {
    let mut l = node("x.com", true);
    l.create_user("a@x.com".to_string(), "2vxsx-fae".to_string()).unwrap();
    l.create_user("b@x.com".to_string(), "aaaaa-aa".to_string()).unwrap();
    l.delete_user("b@x.com".to_string()).unwrap();
    assert_eq!(
        l.submit_mail(mail_to(&["b@x.com"], b"1"), "m1".to_string()),
        Err(MailError::NoUserAddressFound)
    );
    assert_eq!(l.submit_mail(mail_to(&["a@x.com", "b@x.com"], b"2"), "m2".to_string()), Ok(()));
    l.create_user("b@x.com".to_string(), "aaaaa-aa".to_string()).unwrap();
    assert!(inbox_ids(&l, &Identity::from_bytes(vec![])).is_empty());
    assert_eq!(inbox_ids(&l, &Identity::from_bytes(vec![4])), vec!["m2".to_string()]);
}

#[test]
fn create_user_keeps_a_filled_inbox() {
    let mut l = node("x.com", true);
    l.create_user("a@x.com".to_string(), "2vxsx-fae".to_string()).unwrap();
    l.submit_mail(mail_to(&["a@x.com"], b"1"), "m1".to_string()).unwrap();
    assert_eq!(
        l.create_user("a@x.com".to_string(), "aaaaa-aa".to_string()),
        Err(MailError::AddressExist)
    );
    assert_eq!(inbox_ids(&l, &Identity::from_bytes(vec![4])), vec!["m1".to_string()]);
    assert_eq!(l.get_user_address(&Identity::from_bytes(vec![])), None);
    assert_eq!(l.create_user("e@x.com".to_string(), "aaaaa-aa".to_string()), Ok(()));
    assert_eq!(l.create_user("e@x.com".to_string(), "aaaaa-aa".to_string()), Ok(()));
}
