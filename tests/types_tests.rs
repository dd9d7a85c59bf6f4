use dmailfi::registry::{join_with_commas, upgrade_outcome, Ledger as Registry};
use dmailfi::types::{EcdsaKeyIds, Identity, MailError, MailHeader, RegistryError, SenderChannel};

#[test]
fn sender_channel_names_round_trip() {
    assert_eq!(SenderChannel::Web2.to_string(), "web2");
    assert_eq!(SenderChannel::Ethereum.to_string(), "ethereum");
    assert_eq!(SenderChannel::ICP.to_string(), "icp");
    assert_eq!(SenderChannel::from_str("icp"), Ok(SenderChannel::ICP));
    assert_eq!(SenderChannel::from_str("web2"), Ok(SenderChannel::Web2));
    assert_eq!(SenderChannel::from_str("ethereum"), Ok(SenderChannel::Ethereum));
    assert_eq!(SenderChannel::from_str("ICP"), Err("Channel type is invalid".to_string()));
}

#[test]
fn error_texts() {
    assert_eq!(MailError::NotAuthorized.message(), "You are not authorized");
    assert_eq!(MailError::GeneralError("boom".to_string()).message(), "boom");
    assert_eq!(MailError::MailTransferError("x".to_string()).message(), "Mail Transfer Error");
    assert_eq!(MailError::InternalSystemMailCollision.message(), "A rare event of Hash map collision");
    assert_eq!(RegistryError::NotFound.message(), "Resource not Found");
    assert_eq!(RegistryError::GeneralError("late".to_string()).message(), "General Error: late");
}

#[test]
fn key_names() {
    assert_eq!(EcdsaKeyIds::TestKeyLocalDevelopment.key_name(), "dfx_test_key");
    assert_eq!(EcdsaKeyIds::TestKey1.key_name(), "test_key_1");
    assert_eq!(EcdsaKeyIds::ProductionKey1.key_name(), "key_1");
}

#[test]
fn header_default_and_clone() {
    let mut h = MailHeader::default();
    assert!(h.to.is_empty() && h.from.is_empty() && h.cc.is_none());
    h.to.push("a@x.com".to_string());
    h.bcc = Some(vec!["b@x.com".to_string()]);
    let c = h.clone();
    assert_eq!(c.to, h.to);
    assert_eq!(c.bcc, h.bcc);
}

#[test]
fn identities_compare_by_bytes() {
    let a = Identity::from_bytes(vec![1, 2]);
    assert!(a.same_as(&Identity::from_bytes(vec![1, 2])));
    assert!(!a.same_as(&Identity::from_bytes(vec![1, 3])));
    assert!(!a.same_as(&Identity::from_bytes(vec![1])));
    assert!(a.copy().same_as(&a));
}

#[test]
fn directory_lookups() {
    let mut r = Registry::new();
    assert_eq!(r.lookup_domain_name("x.com".to_string()), Err(RegistryError::NotFound));
    r.add_domain("x.com".to_string(), "node-x".to_string());
    r.add_domain("y.com".to_string(), "node-y".to_string());
    assert_eq!(r.lookup_domain_name("x.com".to_string()), Ok("node-x".to_string()));
    assert_eq!(r.get_all_domain_canisters(), vec!["node-x".to_string(), "node-y".to_string()]);
    assert_eq!(
        r.get_domain_details("y.com".to_string()),
        Ok("Domain: y.com is managed by canister: node-y".to_string())
    );
    assert_eq!(r.get_domain_details("z.com".to_string()), Err(RegistryError::NotFound));
    assert_eq!(r.lookup_user(&Identity::from_bytes(vec![1])), Err(RegistryError::NotFound));
    assert!(r.is_custodian("me".to_string()).is_err());
    r.add_custodian("me".to_string());
    assert!(r.is_custodian("me".to_string()).is_ok());
}

#[test]
fn directory_installation_outcomes() {
    let mut r = Registry::new();
    let ctl = Identity::from_bytes(vec![1]);
    let can = Identity::from_bytes(vec![2]);
    assert_eq!(
        r.record_installation("x.com".to_string(), ctl.copy(), can.copy(), "node-x".to_string(), false),
        Err(RegistryError::FailedToInstallCode("node-x".to_string()))
    );
    assert_eq!(r.lookup_domain_name("x.com".to_string()), Err(RegistryError::NotFound));
    assert_eq!(
        r.record_installation("x.com".to_string(), ctl, can, "node-x".to_string(), true),
        Ok("node-x".to_string())
    );
    assert_eq!(r.lookup_domain_name("x.com".to_string()), Ok("node-x".to_string()));
    r.add_to_pending_canister(Identity::from_bytes(vec![3]), Identity::from_bytes(vec![4]));
}

#[test]
fn upgrade_outcomes() {
    assert_eq!(upgrade_outcome(&vec![]), Ok(()));
    assert_eq!(
        upgrade_outcome(&vec!["a".to_string(), "b".to_string()]),
        Err(RegistryError::FailedToUpgrade("These canisters a,b failed to be upgrade".to_string()))
    );
    assert_eq!(join_with_commas(&vec!["one".to_string()]), "one");
    assert_eq!(join_with_commas(&vec![]), "");
}
