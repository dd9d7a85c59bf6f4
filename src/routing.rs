//! Routing of outbound messages: the recipient domains of a message, how
//! each domain's delivery ended, and the error that sums up the failures.
use vstd::prelude::*;

use crate::external::{email_domain, email_domain_of};
use crate::ledger::{listed, Ledger};
use crate::types::{mail_error_text, strs, HeaderModel, Mail, MailError};

verus! {

/// Every declared recipient, in the order domains are routed: `to`, then
/// `bcc`, then `cc`.
pub open spec fn declared(h: HeaderModel) -> Seq<Seq<char>> {
    h.to + listed(h.bcc) + listed(h.cc)
}

/// Whether every address parses.
pub open spec fn all_valid(addrs: Seq<Seq<char>>) -> bool {
    forall|i: int| 0 <= i < addrs.len() ==> (#[trigger] email_domain_of(addrs[i])) is Some
}

/// The domain of each address.
pub open spec fn domains_of(addrs: Seq<Seq<char>>) -> Seq<Seq<char>> {
    addrs.map_values(|a: Seq<char>| email_domain_of(a)->0)
}

/// The text of the error for an address that does not parse.
pub open spec fn invalid_text(a: Seq<char>) -> Seq<char> {
    a + " is not valid"@
}

/// Whether `m` reports the first address of `addrs` that does not parse.
pub open spec fn reports_first_invalid(addrs: Seq<Seq<char>>, m: Seq<char>) -> bool {
    exists|i: int|
        0 <= i < addrs.len() && email_domain_of(addrs[i]) is None && all_valid(addrs.subrange(0, i)) && m
            == invalid_text(addrs[i])
}

/// Appends the domain of each address of `list` to `out`, or reports the
/// first address that does not parse.
pub fn push_domains(list: &Vec<String>, out: &mut Vec<String>) -> (r: Result<(), MailError>)
    ensures
        all_valid(strs(list@)) ==> r is Ok && strs(final(out)@) == strs(old(out)@) + domains_of(strs(list@)),
        !all_valid(strs(list@)) ==> (r matches Err(MailError::GeneralError(m)) && reports_first_invalid(
            strs(list@),
            m@,
        )),
{
    let mut i: usize = 0;
    while i < list.len()
        invariant
            i <= list@.len(),
            all_valid(strs(list@).subrange(0, i as int)),
            strs(out@) == strs(old(out)@) + domains_of(strs(list@).subrange(0, i as int)),
        decreases list@.len() - i,
    {
        let ghost before = out@;
        match email_domain(list[i].as_str()) {
            Some(d) => {
                out.push(d);
                proof {
                    let pre = strs(list@).subrange(0, i as int);
                    let post = strs(list@).subrange(0, i + 1);
                    assert(post =~= pre.push(list@[i as int]@));
                    assert(domains_of(post) =~= domains_of(pre).push(email_domain_of(list@[i as int]@)->0));
                    assert(strs(out@) =~= strs(before).push(email_domain_of(list@[i as int]@)->0));
                    assert(all_valid(post)) by {
                        assert forall|k: int| 0 <= k < post.len() implies (#[trigger] email_domain_of(post[k])) is Some by {
                            if k < i {
                                assert(post[k] == pre[k]);
                            }
                        }
                    }
                }
            },
            None => {
                let mut m = list[i].clone();
                m.append(" is not valid");
                proof {
                    assert(strs(list@)[i as int] == list@[i as int]@);
                }
                return Err(MailError::GeneralError(m));
            },
        }
        i = i + 1;
    }
    proof {
        assert(strs(list@).subrange(0, list@.len() as int) =~= strs(list@));
    }
    Ok(())
}

/// Whether an invalid address among `a + b` is reported the way the first
/// invalid one of `a` or of `b` is.
proof fn lemma_first_invalid_concat(a: Seq<Seq<char>>, b: Seq<Seq<char>>, m: Seq<char>)
    ensures
        !all_valid(a) && reports_first_invalid(a, m) ==> reports_first_invalid(a + b, m),
        all_valid(a) && reports_first_invalid(b, m) ==> reports_first_invalid(a + b, m),
        all_valid(a) && all_valid(b) ==> all_valid(a + b),
        !all_valid(a) ==> !all_valid(a + b),
        all_valid(a) && !all_valid(b) ==> !all_valid(a + b),
{
    if !all_valid(a) && reports_first_invalid(a, m) {
        let i = choose|i: int|
            0 <= i < a.len() && email_domain_of(a[i]) is None && all_valid(a.subrange(0, i)) && m == invalid_text(a[i]);
        assert((a + b)[i] == a[i]);
        assert((a + b).subrange(0, i) =~= a.subrange(0, i));
    }
    if all_valid(a) && reports_first_invalid(b, m) {
        let i = choose|i: int|
            0 <= i < b.len() && email_domain_of(b[i]) is None && all_valid(b.subrange(0, i)) && m == invalid_text(b[i]);
        assert((a + b)[a.len() + i] == b[i]);
        let pre = (a + b).subrange(0, a.len() + i);
        assert forall|k: int| 0 <= k < pre.len() implies (#[trigger] email_domain_of(pre[k])) is Some by {
            if k < a.len() {
                assert(pre[k] == a[k]);
            } else {
                assert(pre[k] == b.subrange(0, i)[k - a.len()]);
            }
        }
    }
    if all_valid(a) && all_valid(b) {
        assert forall|k: int| 0 <= k < (a + b).len() implies (#[trigger] email_domain_of((a + b)[k])) is Some by {
            if k < a.len() {
                assert((a + b)[k] == a[k]);
            } else {
                assert((a + b)[k] == b[k - a.len()]);
            }
        }
    }
    if !all_valid(a) {
        let k = choose|k: int| 0 <= k < a.len() && !((#[trigger] email_domain_of(a[k])) is Some);
        assert((a + b)[k] == a[k]);
    }
    if all_valid(a) && !all_valid(b) {
        let k = choose|k: int| 0 <= k < b.len() && !((#[trigger] email_domain_of(b[k])) is Some);
        assert((a + b)[a.len() + k] == b[k]);
    }
}

impl Ledger {
    /// The domain of every declared recipient, `to` then `bcc` then `cc`,
    /// repeats kept; an address that does not parse fails the whole message.
    pub fn get_receipients_domains(mail: &Mail) -> (r: Result<Vec<String>, MailError>)
        ensures
            all_valid(declared(mail@.header)) ==> r is Ok && strs(r->Ok_0@) == domains_of(declared(mail@.header)),
            !all_valid(declared(mail@.header)) ==> (r matches Err(MailError::GeneralError(m))
                && reports_first_invalid(declared(mail@.header), m@)),
    {
        let ghost to = mail@.header.to;
        let ghost bcc = listed(mail@.header.bcc);
        let ghost cc = listed(mail@.header.cc);
        let mut out: Vec<String> = Vec::new();
        let r1 = push_domains(&mail.header.to, &mut out);
        proof {
            lemma_first_invalid_concat(to, bcc, Seq::empty());
            assert(to == strs(mail.header.to@));
        }
        match r1 {
            Err(e) => {
                proof {
                    if e is GeneralError {
                        let m = e->GeneralError_0;
                        lemma_first_invalid_concat(to, bcc, m@);
                        lemma_first_invalid_concat(to + bcc, cc, m@);
                    }
                }
                return Err(e);
            },
            Ok(()) => {},
        }
        let ghost after_to = out@;
        let r2 = match &mail.header.bcc {
            Some(list) => push_domains(list, &mut out),
            None => Ok(()),
        };
        match r2 {
            Err(e) => {
                proof {
                    if e is GeneralError {
                        let m = e->GeneralError_0;
                        lemma_first_invalid_concat(to, bcc, m@);
                        lemma_first_invalid_concat(to + bcc, cc, m@);
                    }
                }
                return Err(e);
            },
            Ok(()) => {},
        }
        proof {
            if mail.header.bcc is None {
                assert(bcc =~= Seq::<Seq<char>>::empty());
                assert(all_valid(bcc));
                assert(domains_of(bcc) =~= Seq::<Seq<char>>::empty());
                assert(strs(out@) =~= strs(after_to) + domains_of(bcc));
            }
        }
        let ghost after_bcc = out@;
        let r3 = match &mail.header.cc {
            Some(list) => push_domains(list, &mut out),
            None => Ok(()),
        };
        match r3 {
            Err(e) => {
                proof {
                    lemma_first_invalid_concat(to, bcc, Seq::empty());
                    if e is GeneralError {
                        let m = e->GeneralError_0;
                        lemma_first_invalid_concat(to + bcc, cc, m@);
                    }
                }
                return Err(e);
            },
            Ok(()) => {},
        }
        proof {
            if mail.header.cc is None {
                assert(cc =~= Seq::<Seq<char>>::empty());
                assert(all_valid(cc));
                assert(domains_of(cc) =~= Seq::<Seq<char>>::empty());
                assert(strs(out@) =~= strs(after_bcc) + domains_of(cc));
            }
            lemma_first_invalid_concat(to, bcc, Seq::empty());
            lemma_first_invalid_concat(to + bcc, cc, Seq::empty());
            assert(domains_of(to + bcc + cc) =~= domains_of(to) + domains_of(bcc) + domains_of(cc));
            assert(strs(out@) =~= domains_of(declared(mail@.header)));
        }
        Ok(out)
    }
}

/// How the delivery to one recipient domain ended.
pub enum DomainOutcome {
    /// Stored in this node's ledger or accepted by the owning node.
    Delivered,
    /// This node's ledger refused the message.
    LocalRejected,
    /// The directory could not be asked.
    LookupFailed,
    /// The owning node could not be called.
    PeerUnreachable,
    /// The owning node refused the message.
    PeerRejected(MailError),
    /// No node owns the domain; the gateway took the message.
    SentToGateway,
}

/// The failure entry of a domain: the domain itself, or with the owning
/// node's reason where it gave one; none for a success.
pub open spec fn failure_entry(domain: Seq<char>, o: DomainOutcome) -> Option<Seq<char>> {
    match o {
        DomainOutcome::Delivered => None,
        DomainOutcome::SentToGateway => None,
        DomainOutcome::PeerRejected(e) => Some("Domain: "@ + domain + " with error: "@ + mail_error_text(e)),
        _ => Some(domain),
    }
}

/// The failure entries of the first `n` domains, in order.
pub open spec fn failure_entries(domains: Seq<Seq<char>>, outcomes: Seq<DomainOutcome>, n: nat) -> Seq<Seq<char>>
    decreases n,
{
    if n == 0 {
        Seq::empty()
    } else {
        let rest = failure_entries(domains, outcomes, (n - 1) as nat);
        match failure_entry(domains[n - 1], outcomes[n - 1]) {
            Some(e) => rest.push(e),
            None => rest,
        }
    }
}

/// Entries joined by commas.
pub open spec fn joined(entries: Seq<Seq<char>>) -> Seq<char>
    decreases entries.len(),
{
    if entries.len() == 0 {
        Seq::empty()
    } else if entries.len() == 1 {
        entries[0]
    } else {
        joined(entries.drop_last()) + ","@ + entries.last()
    }
}

/// The text of the error that names the failed domains.
pub open spec fn transfer_text(entries: Seq<Seq<char>>) -> Seq<char> {
    "The following domains "@ + joined(entries) + " failed"@
}

/// Whether `r` sums up the outcomes: success when no domain failed, else
/// the transfer error naming each failure entry in order.
pub open spec fn transfer_matches(domains: Seq<Seq<char>>, outcomes: Seq<DomainOutcome>, r: Result<(), MailError>) -> bool {
    let entries = failure_entries(domains, outcomes, outcomes.len());
    if entries.len() == 0 {
        r is Ok
    } else {
        r matches Err(MailError::MailTransferError(m)) && m@ == transfer_text(entries)
    }
}

/// The failure entry of one domain.
fn entry_of(domain: &String, o: &DomainOutcome) -> (r: Option<String>)
    ensures
        opt_view(r) == failure_entry(domain@, *o),
{
    match o {
        DomainOutcome::Delivered => None,
        DomainOutcome::SentToGateway => None,
        DomainOutcome::PeerRejected(e) => {
            let mut t = "Domain: ".to_string();
            t.append(domain.as_str());
            t.append(" with error: ");
            let reason = e.message();
            t.append(reason.as_str());
            Some(t)
        },
        _ => Some(domain.clone()),
    }
}

/// The view of an optional string.
pub open spec fn opt_view(o: Option<String>) -> Option<Seq<char>> {
    match o {
        Some(s) => Some(s@),
        None => None,
    }
}

/// Sums up the outcomes of a fan-out over `domains`.
pub fn transfer_result(domains: &Vec<String>, outcomes: &Vec<DomainOutcome>) -> (r: Result<(), MailError>)
    requires
        domains@.len() == outcomes@.len(),
    ensures
        transfer_matches(strs(domains@), outcomes@, r),
{
    let ghost ds = strs(domains@);
    let mut text = String::new();
    let mut count: usize = 0;
    let mut i: usize = 0;
    while i < outcomes.len()
        invariant
            domains@.len() == outcomes@.len(),
            ds == strs(domains@),
            i <= outcomes@.len(),
            count == failure_entries(ds, outcomes@, i as nat).len(),
            text@ == joined(failure_entries(ds, outcomes@, i as nat)),
            count <= i,
        decreases outcomes@.len() - i,
    {
        let ghost pre = failure_entries(ds, outcomes@, i as nat);
        match entry_of(&domains[i], &outcomes[i]) {
            Some(e) => {
                if count > 0 {
                    text.append(",");
                }
                text.append(e.as_str());
                count = count + 1;
                proof {
                    let post = failure_entries(ds, outcomes@, (i + 1) as nat);
                    assert(post == pre.push(e@));
                    assert(post.drop_last() =~= pre);
                    if pre.len() == 0 {
                        assert(text@ =~= joined(post));
                    }
                }
            },
            None => {},
        }
        i = i + 1;
    }
    if count == 0 {
        Ok(())
    } else {
        let mut m = "The following domains ".to_string();
        m.append(text.as_str());
        m.append(" failed");
        Err(MailError::MailTransferError(m))
    }
}

/// The failure entries hold one entry for each failed domain, in order,
/// and none for a domain delivered locally, by its node or by the gateway.
pub proof fn lemma_failure_entries(domains: Seq<Seq<char>>, outcomes: Seq<DomainOutcome>, n: nat)
    requires
        n <= outcomes.len(),
        n <= domains.len(),
    ensures
        failure_entries(domains, outcomes, n).len() == failed_count(domains, outcomes, n),
        forall|i: int|
            0 <= i < n && (#[trigger] failure_entry(domains[i], outcomes[i])) is Some ==> failure_entries(
                domains,
                outcomes,
                n,
            )[failed_count(domains, outcomes, i as nat) as int] == failure_entry(domains[i], outcomes[i])->0,
    decreases n,
{
    if n > 0 {
        lemma_failure_entries(domains, outcomes, (n - 1) as nat);
        assert forall|i: int|
            0 <= i < n && (#[trigger] failure_entry(domains[i], outcomes[i])) is Some implies failure_entries(
                domains,
                outcomes,
                n,
            )[failed_count(domains, outcomes, i as nat) as int] == failure_entry(domains[i], outcomes[i])->0 by {
            if i < n - 1 {
                lemma_failed_count_monotone(domains, outcomes, (i + 1) as nat, (n - 1) as nat);
            }
        }
    }
}

/// How many of the first `n` domains failed.
pub open spec fn failed_count(domains: Seq<Seq<char>>, outcomes: Seq<DomainOutcome>, n: nat) -> nat
    decreases n,
{
    if n == 0 {
        0
    } else {
        failed_count(domains, outcomes, (n - 1) as nat) + if failure_entry(domains[n - 1], outcomes[n - 1]) is Some {
            1nat
        } else {
            0nat
        }
    }
}

proof fn lemma_failed_count_monotone(domains: Seq<Seq<char>>, outcomes: Seq<DomainOutcome>, a: nat, b: nat)
    requires
        a <= b,
    ensures
        failed_count(domains, outcomes, a) <= failed_count(domains, outcomes, b),
    decreases b - a,
{
    if a < b {
        lemma_failed_count_monotone(domains, outcomes, a, (b - 1) as nat);
    }
}

/// A fan-out's result names exactly the domains that failed: it is a
/// success just when no domain failed, and otherwise its text lists one
/// entry per failed domain, in routing order, each naming its domain.
pub proof fn lemma_fan_out_complete(domains: Seq<Seq<char>>, outcomes: Seq<DomainOutcome>, r: Result<(), MailError>)
    requires
        domains.len() == outcomes.len(),
        transfer_matches(domains, outcomes, r),
    ensures
        r is Ok <==> forall|i: int| 0 <= i < outcomes.len() ==> (#[trigger] failure_entry(domains[i], outcomes[i])) is None,
        r is Err ==> (r matches Err(MailError::MailTransferError(m)) && m@ == transfer_text(
            failure_entries(domains, outcomes, outcomes.len()),
        )),
        failure_entries(domains, outcomes, outcomes.len()).len() == failed_count(domains, outcomes, outcomes.len()),
        forall|i: int|
            0 <= i < outcomes.len() && (#[trigger] failure_entry(domains[i], outcomes[i])) is Some ==> failure_entries(
                domains,
                outcomes,
                outcomes.len(),
            )[failed_count(domains, outcomes, i as nat) as int] == failure_entry(domains[i], outcomes[i])->0,
{
    lemma_failure_entries(domains, outcomes, outcomes.len());
    lemma_none_failed(domains, outcomes, outcomes.len());
}

proof fn lemma_none_failed(domains: Seq<Seq<char>>, outcomes: Seq<DomainOutcome>, n: nat)
    requires
        n <= outcomes.len(),
        n <= domains.len(),
    ensures
        failed_count(domains, outcomes, n) == 0 <==> forall|i: int| 0 <= i < n ==> (#[trigger] failure_entry(domains[i], outcomes[i])) is None,
    decreases n,
{
    if n > 0 {
        lemma_none_failed(domains, outcomes, (n - 1) as nat);
        if failed_count(domains, outcomes, n) == 0 {
            assert forall|i: int| 0 <= i < n implies (#[trigger] failure_entry(domains[i], outcomes[i])) is None by {}
        }
    }
}

} // verus!
