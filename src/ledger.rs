//! The mailbox ledger: registered users, their inboxes, trash and sent sets,
//! stored messages with their read flags, reply threads and newsletters.
use vstd::prelude::*;

use crate::external::{principal_bytes_of, principal_from_text};
use crate::keymap::{lemma_wf_keys_unique, KeyMap};
use crate::types::{
    Identity, InboxData, LedgerConfiguration, LedgerInfo, Mail, MailError, MailHeader, MailModel,
    MailReply, MailStatus, Newsletter, Profile, HeaderModel, strs, copy_bytes, INBOX_PAGE_SIZE,
    READ_BODY_LIMIT, UNREAD_BODY_LIMIT,
};

verus! {

broadcast use lemma_wf_keys_unique;

/// A set of message ids in the order they were added.
pub type IdSet = KeyMap<String, ()>;

/// Model of a ledger.
pub struct LedgerModel {
    pub custodians: Set<Seq<u8>>,
    pub users: Map<Seq<u8>, Seq<char>>,
    pub profiles: Map<Seq<char>, Profile>,
    pub inboxes: Map<Seq<char>, Seq<Seq<char>>>,
    pub sent: Map<Seq<char>, Seq<Seq<char>>>,
    pub trash: Map<Seq<char>, Seq<Seq<char>>>,
    pub read: Map<Seq<char>, bool>,
    pub mails: Map<Seq<char>, MailModel>,
    pub correlations: Map<Seq<char>, Seq<char>>,
    pub subscribers: Map<Seq<char>, Map<Seq<char>, Seq<u8>>>,
    pub newsletters: Map<Seq<char>, Newsletter>,
    pub config: LedgerConfiguration,
    pub info: LedgerInfo,
}

/// The id lists of a map of id sets.
pub open spec fn id_lists(m: Map<Seq<char>, IdSet>) -> Map<Seq<char>, Seq<Seq<char>>> {
    Map::new(|k: Seq<char>| m.contains_key(k), |k: Seq<char>| m[k].keys())
}

/// The list a possibly absent recipient list stands for.
pub open spec fn listed(o: Option<Seq<Seq<char>>>) -> Seq<Seq<char>> {
    match o {
        Some(v) => v,
        None => Seq::empty(),
    }
}

/// Every recipient of a header: `to`, then `cc`, then `bcc`.
pub open spec fn recipients(h: HeaderModel) -> Seq<Seq<char>> {
    h.to + listed(h.cc) + listed(h.bcc)
}

/// Whether some identity is bound to the address.
pub open spec fn is_bound(users: Map<Seq<u8>, Seq<char>>, a: Seq<char>) -> bool {
    exists|k: Seq<u8>| users.contains_key(k) && users[k] == a
}

/// Whether an address is registered: it has an inbox and an identity bound
/// to it.
pub open spec fn is_registered(m: LedgerModel, a: Seq<char>) -> bool {
    m.inboxes.contains_key(a) && is_bound(m.users, a)
}

/// Whether some recipient of the header is registered.
pub open spec fn has_local_recipient(m: LedgerModel, h: HeaderModel) -> bool {
    exists|i: int| 0 <= i < recipients(h).len() && is_registered(m, #[trigger] recipients(h)[i])
}

/// The inboxes after `id` is added to the inbox of each listed address.
pub open spec fn deliver_ids(
    inboxes: Map<Seq<char>, Seq<Seq<char>>>,
    rcpts: Seq<Seq<char>>,
    id: Seq<char>,
) -> Map<Seq<char>, Seq<Seq<char>>> {
    Map::new(
        |a: Seq<char>| inboxes.contains_key(a),
        |a: Seq<char>| if rcpts.contains(a) { inboxes[a].push(id) } else { inboxes[a] },
    )
}

/// The inboxes after `id` is added to the inbox of each listed recipient
/// that is registered; other inboxes stay as they were.
pub open spec fn deliver_to(
    inboxes: Map<Seq<char>, Seq<Seq<char>>>,
    users: Map<Seq<u8>, Seq<char>>,
    rcpts: Seq<Seq<char>>,
    id: Seq<char>,
) -> Map<Seq<char>, Seq<Seq<char>>> {
    Map::new(
        |a: Seq<char>| inboxes.contains_key(a),
        |a: Seq<char>| if rcpts.contains(a) && is_bound(users, a) { inboxes[a].push(id) } else { inboxes[a] },
    )
}

/// The thread map after a message carrying `c` is stored under `id`: the first
/// message to carry a correlation id binds it.
pub open spec fn bind_correlation(
    correlations: Map<Seq<char>, Seq<char>>,
    c: Option<Seq<char>>,
    id: Seq<char>,
) -> Map<Seq<char>, Seq<char>> {
    match c {
        Some(c) => if correlations.contains_key(c) { correlations } else { correlations.insert(c, id) },
        None => correlations,
    }
}

/// How delivering `mail` under `id` is decided: it needs a registered
/// recipient, then an id that no stored message has.
pub open spec fn submit_result(m: LedgerModel, mail: MailModel, id: Seq<char>) -> Result<(), MailError> {
    if !has_local_recipient(m, mail.header) {
        Err(MailError::NoUserAddressFound)
    } else if m.mails.contains_key(id) {
        Err(MailError::InternalSystemMailCollision)
    } else {
        Ok(())
    }
}

/// The ledger after delivering `mail` under `id`: unchanged when that fails.
pub open spec fn after_submit(m: LedgerModel, mail: MailModel, id: Seq<char>) -> LedgerModel {
    if submit_result(m, mail, id) is Ok {
        LedgerModel {
            inboxes: deliver_to(m.inboxes, m.users, recipients(mail.header), id),
            read: m.read.insert(id, false),
            mails: m.mails.insert(id, mail),
            correlations: bind_correlation(m.correlations, mail.correlation_id, id),
            ..m
        }
    } else {
        m
    }
}

/// What holds of every reachable ledger: each inbox, trash and sent set
/// lists an id once, each listed id names a stored message with a read flag,
/// and no id is in an address's inbox and trash at once.
pub open spec fn ledger_invariant(m: LedgerModel) -> bool {
    &&& forall|a: Seq<char>| #[trigger] m.inboxes.contains_key(a) ==> m.inboxes[a].no_duplicates()
    &&& forall|a: Seq<char>| #[trigger] m.trash.contains_key(a) ==> m.trash[a].no_duplicates()
    &&& forall|a: Seq<char>| #[trigger] m.sent.contains_key(a) ==> m.sent[a].no_duplicates()
    &&& forall|a: Seq<char>, id: Seq<char>|
        m.inboxes.contains_key(a) && #[trigger] m.inboxes[a].contains(id) ==> m.mails.contains_key(id)
            && m.read.contains_key(id)
    &&& forall|a: Seq<char>, id: Seq<char>|
        m.trash.contains_key(a) && #[trigger] m.trash[a].contains(id) ==> m.mails.contains_key(id)
            && m.read.contains_key(id)
    &&& forall|a: Seq<char>, id: Seq<char>|
        m.inboxes.contains_key(a) && m.trash.contains_key(a) && #[trigger] m.inboxes[a].contains(id)
            ==> !m.trash[a].contains(id)
}

/// The state of one node.
pub struct Ledger {
    custodians: KeyMap<Identity, ()>,
    users: KeyMap<Identity, String>,
    profile: KeyMap<String, Profile>,
    inboxes: KeyMap<String, IdSet>,
    sent: KeyMap<String, IdSet>,
    mail_status: KeyMap<String, MailStatus>,
    trash: KeyMap<String, IdSet>,
    mails: KeyMap<String, Mail>,
    corelation_map: KeyMap<String, String>,
    config: LedgerConfiguration,
    newsletter_subscribers: KeyMap<String, KeyMap<String, Identity>>,
    newsletter: KeyMap<String, Newsletter>,
    info: LedgerInfo,
}

impl View for Ledger {
    type V = LedgerModel;

    closed spec fn view(&self) -> LedgerModel {
        LedgerModel {
            custodians: self.custodians@.dom(),
            users: Map::new(|k: Seq<u8>| self.users@.contains_key(k), |k: Seq<u8>| self.users@[k]@),
            profiles: self.profile@,
            inboxes: id_lists(self.inboxes@),
            sent: id_lists(self.sent@),
            trash: id_lists(self.trash@),
            read: Map::new(
                |k: Seq<char>| self.mail_status@.contains_key(k),
                |k: Seq<char>| self.mail_status@[k].read,
            ),
            mails: Map::new(|k: Seq<char>| self.mails@.contains_key(k), |k: Seq<char>| self.mails@[k]@),
            correlations: Map::new(
                |k: Seq<char>| self.corelation_map@.contains_key(k),
                |k: Seq<char>| self.corelation_map@[k]@,
            ),
            subscribers: Map::new(
                |k: Seq<char>| self.newsletter_subscribers@.contains_key(k),
                |k: Seq<char>|
                    Map::new(
                        |a: Seq<char>| self.newsletter_subscribers@[k]@.contains_key(a),
                        |a: Seq<char>| self.newsletter_subscribers@[k]@[a]@,
                    ),
            ),
            newsletters: self.newsletter@,
            config: self.config,
            info: self.info,
        }
    }
}

impl Ledger {
    pub closed spec fn wf(&self) -> bool {
        &&& self.custodians.wf()
        &&& self.users.wf()
        &&& self.profile.wf()
        &&& self.inboxes.wf()
        &&& self.sent.wf()
        &&& self.mail_status.wf()
        &&& self.trash.wf()
        &&& self.mails.wf()
        &&& self.corelation_map.wf()
        &&& self.newsletter_subscribers.wf()
        &&& self.newsletter.wf()
        &&& forall|a: Seq<char>| #[trigger] self.inboxes@.contains_key(a) ==> self.inboxes@[a].wf()
        &&& forall|a: Seq<char>| #[trigger] self.sent@.contains_key(a) ==> self.sent@[a].wf()
        &&& forall|a: Seq<char>| #[trigger] self.trash@.contains_key(a) ==> self.trash@[a].wf()
        &&& forall|n: Seq<char>|
            #[trigger] self.newsletter_subscribers@.contains_key(n) ==> self.newsletter_subscribers@[n].wf()
        &&& ledger_invariant(self@)
    }

    /// An empty ledger with default settings.
    pub fn new() -> (r: Ledger)
        ensures
            r.wf(),
            r@.custodians.is_empty(),
            r@.users.is_empty(),
            r@.profiles.is_empty(),
            r@.inboxes.is_empty(),
            r@.sent.is_empty(),
            r@.trash.is_empty(),
            r@.read.is_empty(),
            r@.mails.is_empty(),
            r@.correlations.is_empty(),
            r@.subscribers.is_empty(),
            r@.newsletters.is_empty(),
            !r@.config.permissioned,
            r@.config.domain_name@.len() == 0,
    {
        let r = Ledger {
            custodians: KeyMap::new(),
            users: KeyMap::new(),
            profile: KeyMap::new(),
            inboxes: KeyMap::new(),
            sent: KeyMap::new(),
            mail_status: KeyMap::new(),
            trash: KeyMap::new(),
            mails: KeyMap::new(),
            corelation_map: KeyMap::new(),
            config: LedgerConfiguration::default(),
            newsletter_subscribers: KeyMap::new(),
            newsletter: KeyMap::new(),
            info: LedgerInfo::default(),
        };
        assert(r@.users =~= Map::empty());
        assert(r@.inboxes =~= Map::empty());
        assert(r@.sent =~= Map::empty());
        assert(r@.trash =~= Map::empty());
        assert(r@.read =~= Map::empty());
        assert(r@.mails =~= Map::empty());
        assert(r@.correlations =~= Map::empty());
        assert(r@.subscribers =~= Map::empty());
        r
    }
}

/// A sequence with one more element holds exactly that element besides its own.
pub proof fn lemma_push_contains<A>(s: Seq<A>, x: A, a: A)
    ensures
        s.push(x).contains(a) <==> (s.contains(a) || a == x),
{
    if s.contains(a) {
        let k = choose|k: int| 0 <= k < s.len() && s[k] == a;
        assert(s.push(x)[k] == a);
    }
    if a == x {
        assert(s.push(x)[s.len() as int] == a);
    }
    if s.push(x).contains(a) {
        let k = choose|k: int| 0 <= k < s.push(x).len() && s.push(x)[k] == a;
        if k < s.len() {
            assert(s[k] == a);
        }
    }
}

/// A concatenation holds exactly the elements of its two parts.
pub proof fn lemma_concat_contains<A>(s: Seq<A>, t: Seq<A>, a: A)
    ensures
        (s + t).contains(a) <==> (s.contains(a) || t.contains(a)),
{
    if s.contains(a) {
        let k = choose|k: int| 0 <= k < s.len() && s[k] == a;
        assert((s + t)[k] == a);
    }
    if t.contains(a) {
        let k = choose|k: int| 0 <= k < t.len() && t[k] == a;
        assert((s + t)[s.len() + k] == a);
    }
    if (s + t).contains(a) {
        let k = choose|k: int| 0 <= k < (s + t).len() && (s + t)[k] == a;
        if k < s.len() {
            assert(s[k] == a);
        } else {
            assert(t[k - s.len()] == a);
        }
    }
}

/// Whether some identity is bound to `a`.
fn address_bound(users: &KeyMap<Identity, String>, a: &String) -> (r: bool)
    requires
        users.wf(),
    ensures
        r == exists|k: Seq<u8>| users@.contains_key(k) && users@[k]@ == a@,
{
    let ghost keys = users.keys();
    proof {
        users.lemma_keys();
    }
    let mut i: usize = 0;
    while i < users.len()
        invariant
            users.wf(),
            keys == users.keys(),
            i <= keys.len(),
            forall|k: Seq<u8>| users@.contains_key(k) <==> keys.contains(k),
            forall|j: int| 0 <= j < i ==> users@[#[trigger] keys[j]]@ != a@,
        decreases keys.len() - i,
    {
        let (_, address) = users.entry_at(i);
        if *address == *a {
            assert(users@.contains_key(keys[i as int]) && users@[keys[i as int]]@ == a@) by {
                assert(keys.contains(keys[i as int]));
            }
            return true;
        }
        i = i + 1;
    }
    assert forall|k: Seq<u8>| users@.contains_key(k) implies users@[k]@ != a@ by {
        assert(keys.contains(k));
        let j = choose|j: int| 0 <= j < keys.len() && keys[j] == k;
        assert(users@[keys[j]]@ != a@);
    }
    false
}

proof fn lemma_bound_model(l: &Ledger, a: Seq<char>)
    ensures
        is_bound(l@.users, a) <==> exists|k: Seq<u8>| l.users@.contains_key(k) && l.users@[k]@ == a,
{
    if is_bound(l@.users, a) {
        let k = choose|k: Seq<u8>| l@.users.contains_key(k) && l@.users[k] == a;
        assert(l.users@.contains_key(k) && l.users@[k]@ == a);
    }
    if exists|k: Seq<u8>| l.users@.contains_key(k) && l.users@[k]@ == a {
        let k = choose|k: Seq<u8>| l.users@.contains_key(k) && l.users@[k]@ == a;
        assert(l@.users.contains_key(k) && l@.users[k] == a);
    }
}

/// The addresses of `list` that are registered: they have an inbox and an
/// identity bound to them.
fn collect_local(ledger: &Ledger, list: &Vec<String>) -> (r: Vec<String>)
    requires
        ledger.wf(),
    ensures
        forall|a: Seq<char>| #[trigger] strs(r@).contains(a) <==> (strs(list@).contains(a) && is_registered(ledger@, a)),
{
    let mut out: Vec<String> = Vec::new();
    let mut i: usize = 0;
    while i < list.len()
        invariant
            i <= list@.len(),
            ledger.wf(),
            forall|a: Seq<char>|
                #[trigger] strs(out@).contains(a) <==> (strs(list@.subrange(0, i as int)).contains(a) && is_registered(ledger@, a)),
        decreases list@.len() - i,
    {
        let ghost before = out@;
        let registered = ledger.inboxes.contains_key(&list[i]) && address_bound(&ledger.users, &list[i]);
        proof {
            lemma_bound_model(ledger, list@[i as int]@);
        }
        if registered {
            out.push(list[i].clone());
        }
        proof {
            let pre = strs(list@.subrange(0, i as int));
            let post = strs(list@.subrange(0, i + 1));
            let x = list@[i as int]@;
            assert(post =~= pre.push(x));
            if is_registered(ledger@, x) {
                assert(strs(out@) =~= strs(before).push(x));
            } else {
                assert(strs(out@) =~= strs(before));
            }
            assert forall|a: Seq<char>|
                #[trigger] strs(out@).contains(a) <==> (post.contains(a) && is_registered(ledger@, a)) by {
                lemma_push_contains(pre, x, a);
                lemma_push_contains(strs(before), x, a);
                assert(strs(before).contains(a) <==> (pre.contains(a) && is_registered(ledger@, a)));
            }
        }
        i = i + 1;
    }
    assert(list@.subrange(0, list@.len() as int) =~= list@);
    out
}

/// Adds `id` to the inbox of every address in `targets`.
fn fan_in(inboxes: &mut KeyMap<String, IdSet>, targets: &Vec<String>, id: &String)
    requires
        old(inboxes).wf(),
        forall|a: Seq<char>| #[trigger] old(inboxes)@.contains_key(a) ==> old(inboxes)@[a].wf(),
        forall|i: int| 0 <= i < targets@.len() ==> old(inboxes)@.contains_key(#[trigger] targets@[i]@),
        forall|a: Seq<char>|
            #[trigger] old(inboxes)@.contains_key(a) ==> !old(inboxes)@[a].keys().contains(id@),
    ensures
        final(inboxes).wf(),
        forall|a: Seq<char>| #[trigger] final(inboxes)@.contains_key(a) ==> final(inboxes)@[a].wf(),
        id_lists(final(inboxes)@) == deliver_ids(id_lists(old(inboxes)@), strs(targets@), id@),
        final(inboxes)@.dom() == old(inboxes)@.dom(),
{
    let mut i: usize = 0;
    assert(id_lists(inboxes@) =~= deliver_ids(id_lists(old(inboxes)@), strs(targets@.subrange(0, 0)), id@));
    while i < targets.len()
        invariant
            i <= targets@.len(),
            inboxes.wf(),
            forall|a: Seq<char>| #[trigger] inboxes@.contains_key(a) ==> inboxes@[a].wf(),
            inboxes@.dom() == old(inboxes)@.dom(),
            forall|k: int| 0 <= k < targets@.len() ==> old(inboxes)@.contains_key(#[trigger] targets@[k]@),
            forall|a: Seq<char>|
                #[trigger] old(inboxes)@.contains_key(a) ==> !old(inboxes)@[a].keys().contains(id@),
            id_lists(inboxes@) == deliver_ids(id_lists(old(inboxes)@), strs(targets@.subrange(0, i as int)), id@),
        decreases targets@.len() - i,
    {
        let ghost before = inboxes@;
        let addr = &targets[i];
        let ghost a = addr@;
        assert(old(inboxes)@.contains_key(targets@[i as int]@));
        assert(inboxes@.contains_key(a));
        let mut inbox: IdSet = KeyMap::new();
        inboxes.swap_value(addr, &mut inbox);
        let ghost inner_before = inbox;
        proof {
            inbox.lemma_keys();
        }
        inbox.insert(id.clone(), ());
        let ghost inner_after = inbox;
        inboxes.swap_value(addr, &mut inbox);
        proof {
            let pre = strs(targets@.subrange(0, i as int));
            let post = strs(targets@.subrange(0, i + 1));
            assert(post =~= pre.push(a));
            let target = deliver_ids(id_lists(old(inboxes)@), post, id@);
            assert(inner_before == before[a]);
            assert(id_lists(before)[a] == inner_before.keys());
            lemma_push_contains(pre, a, a);
            if pre.contains(a) {
                assert(inner_before.keys() == old(inboxes)@[a].keys().push(id@));
                assert(inner_before.keys()[old(inboxes)@[a].keys().len() as int] == id@);
                assert(inner_before.keys().contains(id@));
            } else {
                assert(inner_before.keys() == old(inboxes)@[a].keys());
            }
            assert forall|b: Seq<char>| id_lists(inboxes@).contains_key(b) implies id_lists(inboxes@)[b] == target[b] by {
                lemma_push_contains(pre, a, b);
                if b == a {
                    if pre.contains(a) {
                        assert(inner_before@.contains_key(id@));
                    } else {
                        assert(!inner_before@.contains_key(id@));
                    }
                    assert(inboxes@[a] == inner_after);
                } else {
                    assert(inboxes@[b] == before[b]);
                    assert(id_lists(before)[b] == id_lists(inboxes@)[b]);
                }
            }
            assert(id_lists(inboxes@) =~= target);
        }
        i = i + 1;
    }
    assert(targets@.subrange(0, targets@.len() as int) =~= targets@);
}

impl Ledger {
    /// Stores a message under `intended_mail_id` without delivering it to any
    /// inbox, unless that id is already taken.
    pub fn store_mail(&mut self, mail: Mail, intended_mail_id: String) -> (r: Result<(), MailError>)
        requires
            old(self).wf(),
        ensures
            final(self).wf(),
            old(self)@.mails.contains_key(intended_mail_id@) ==> r == Err::<(), MailError>(
                MailError::InternalSystemMailCollision,
            ) && final(self)@ == old(self)@,
            !old(self)@.mails.contains_key(intended_mail_id@) ==> r is Ok && final(self)@ == (LedgerModel {
                mails: old(self)@.mails.insert(intended_mail_id@, mail@),
                ..old(self)@
            }),
    {
        if self.mails.contains_key(&intended_mail_id) {
            return Err(MailError::InternalSystemMailCollision);
        }
        let ghost id = intended_mail_id@;
        let ghost m = mail@;
        self.mails.insert(intended_mail_id, mail);
        assert(self@.mails =~= old(self)@.mails.insert(id, m));
        Ok(())
    }

    /// Delivers a message into the inbox of each of its recipients that has
    /// one, under `intended_mail_id`, unread, and binds its correlation id
    /// if that is not bound yet.
    pub fn submit_mail(&mut self, mail: Mail, intended_mail_id: String) -> (r: Result<(), MailError>)
        requires
            old(self).wf(),
        ensures
            final(self).wf(),
            r == submit_result(old(self)@, mail@, intended_mail_id@),
            final(self)@ == after_submit(old(self)@, mail@, intended_mail_id@),
    {
        let ghost rcpts = recipients(mail@.header);
        let mut selected = collect_local(self, &mail.header.to);
        let ghost from_to = selected@;
        let mut from_cc = match &mail.header.cc {
            Some(cc) => collect_local(self, cc),
            None => Vec::new(),
        };
        let ghost cc_part = from_cc@;
        let mut from_bcc = match &mail.header.bcc {
            Some(bcc) => collect_local(self, bcc),
            None => Vec::new(),
        };
        let ghost bcc_part = from_bcc@;
        selected.append(&mut from_cc);
        selected.append(&mut from_bcc);
        proof {
            assert forall|a: Seq<char>| #![all_triggers] strs(selected@).contains(a) <==> (rcpts.contains(a) && is_registered(self@, a)) by {
                let to = strs(mail.header.to@);
                let cc = listed(mail@.header.cc);
                let bcc = listed(mail@.header.bcc);
                lemma_concat_contains(to, cc, a);
                lemma_concat_contains(to + cc, bcc, a);
                assert(strs(selected@) =~= strs(from_to) + strs(cc_part) + strs(bcc_part));
                lemma_concat_contains(strs(from_to), strs(cc_part), a);
                lemma_concat_contains(strs(from_to) + strs(cc_part), strs(bcc_part), a);
                if mail.header.cc is None {
                    assert(strs(cc_part) =~= Seq::<Seq<char>>::empty());
                }
                if mail.header.bcc is None {
                    assert(strs(bcc_part) =~= Seq::<Seq<char>>::empty());
                }
            }
        }
        if selected.len() == 0 {
            proof {
                if has_local_recipient(old(self)@, mail@.header) {
                    let k = choose|k: int| 0 <= k < rcpts.len() && is_registered(old(self)@, #[trigger] rcpts[k]);
                    assert(rcpts.contains(rcpts[k]));
                    assert(strs(selected@).contains(rcpts[k]));
                }
            }
            return Err(MailError::NoUserAddressFound);
        }
        proof {
            let a = strs(selected@)[0];
            assert(strs(selected@).contains(a));
            let k = choose|k: int| 0 <= k < rcpts.len() && rcpts[k] == a;
            assert(is_registered(old(self)@, rcpts[k]));
            assert(has_local_recipient(old(self)@, mail@.header));
        }
        if self.mails.contains_key(&intended_mail_id) {
            return Err(MailError::InternalSystemMailCollision);
        }
        let ghost id = intended_mail_id@;
        proof {
            assert forall|i: int| 0 <= i < selected@.len() implies self.inboxes@.contains_key(#[trigger] selected@[i]@) by {
                assert(strs(selected@)[i] == selected@[i]@);
                assert(strs(selected@).contains(selected@[i]@));
            }
            assert forall|a: Seq<char>| #[trigger] self.inboxes@.contains_key(a) implies !self.inboxes@[a].keys().contains(id) by {
                assert(self@.inboxes.contains_key(a));
                if self@.inboxes[a].contains(id) {
                    assert(self@.mails.contains_key(id));
                }
            }
        }
        fan_in(&mut self.inboxes, &selected, &intended_mail_id);
        let correlation = mail.correlation_id.clone();
        match correlation {
            Some(c) => {
                if !self.corelation_map.contains_key(&c) {
                    self.corelation_map.insert(c, intended_mail_id.clone());
                }
            },
            None => {},
        }
        self.mail_status.insert(
            intended_mail_id.clone(),
            MailStatus { read: false, mail_id: intended_mail_id.clone() },
        );
        let ghost m = mail@;
        self.mails.insert(intended_mail_id, mail);
        proof {
            assert(self@.inboxes =~= deliver_to(old(self)@.inboxes, old(self)@.users, rcpts, id)) by {
                let target = deliver_to(old(self)@.inboxes, old(self)@.users, rcpts, id);
                assert(id_lists(self.inboxes@) == deliver_ids(old(self)@.inboxes, strs(selected@), id));
                assert forall|a: Seq<char>| #[trigger] self@.inboxes.contains_key(a) implies self@.inboxes[a] == target[a] by {
                    assert(strs(selected@).contains(a) <==> (rcpts.contains(a) && is_registered(old(self)@, a)));
                }
            }
            assert(self@.read =~= old(self)@.read.insert(id, false));
            assert(self@.mails =~= old(self)@.mails.insert(id, m));
            assert(self@.correlations =~= bind_correlation(old(self)@.correlations, m.correlation_id, id));
            assert forall|a: Seq<char>, x: Seq<char>|
                self@.inboxes.contains_key(a) && #[trigger] self@.inboxes[a].contains(x) implies self@.mails.contains_key(x)
                    && self@.read.contains_key(x) by {
                if x != id {
                    if rcpts.contains(a) && is_bound(old(self)@.users, a) {
                        let k = choose|k: int| 0 <= k < self@.inboxes[a].len() && self@.inboxes[a][k] == x;
                        assert(old(self)@.inboxes[a][k] == x);
                    }
                    assert(old(self)@.inboxes[a].contains(x));
                }
            }
            assert forall|a: Seq<char>, x: Seq<char>|
                self@.inboxes.contains_key(a) && self@.trash.contains_key(a) && #[trigger] self@.inboxes[a].contains(x)
                    implies !self@.trash[a].contains(x) by {
                if x == id {
                    if old(self)@.trash[a].contains(x) {
                        assert(old(self)@.mails.contains_key(x));
                    }
                } else {
                    if rcpts.contains(a) && is_bound(old(self)@.users, a) {
                        let k = choose|k: int| 0 <= k < self@.inboxes[a].len() && self@.inboxes[a][k] == x;
                        assert(old(self)@.inboxes[a][k] == x);
                    }
                    assert(old(self)@.inboxes[a].contains(x));
                }
            }
            assert forall|a: Seq<char>, x: Seq<char>|
                self@.trash.contains_key(a) && #[trigger] self@.trash[a].contains(x) implies self@.mails.contains_key(x)
                    && self@.read.contains_key(x) by {
                assert(old(self)@.trash[a].contains(x));
            }
        }
        Ok(())
    }

    /// The address bound to an identity.
    pub fn get_user_address(&self, principal: &Identity) -> (r: Option<String>)
        requires
            self.wf(),
        ensures
            r is None <==> !self@.users.contains_key(principal@),
            r is Some ==> r->0@ == self@.users[principal@],
    {
        match self.users.get(principal) {
            Some(a) => Some(a.clone()),
            None => None,
        }
    }

    /// The message a correlation id is bound to.
    pub fn lookup_correlation(&self, corelation_id: &String) -> (r: Option<String>)
        requires
            self.wf(),
        ensures
            r is None <==> !self@.correlations.contains_key(corelation_id@),
            r is Some ==> r->0@ == self@.correlations[corelation_id@],
    {
        match self.corelation_map.get(corelation_id) {
            Some(m) => Some(m.clone()),
            None => None,
        }
    }

    /// A copy of a stored message.
    pub fn get_stored_mail(&self, mail_id: &String) -> (r: Option<Mail>)
        requires
            self.wf(),
        ensures
            r is None <==> !self@.mails.contains_key(mail_id@),
            r is Some ==> r->0@ == self@.mails[mail_id@],
    {
        match self.mails.get(mail_id) {
            Some(m) => Some(m.clone()),
            None => None,
        }
    }

    /// Appends a reply to the message that a correlation id is bound to,
    /// when its sender is the message's sender or one of its `to`
    /// recipients; the message's timestamp becomes `now` and it becomes
    /// unread again.
    pub fn store_reply(&mut self, corelation_id: String, reply: MailReply, now: u64) -> (r: Result<(), MailError>)
        requires
            old(self).wf(),
        ensures
            final(self).wf(),
            !reply_accepted(old(self)@, corelation_id@, reply@) ==> final(self)@ == old(self)@,
            !old(self)@.correlations.contains_key(corelation_id@) ==> r == Err::<(), MailError>(MailError::NotFound),
            old(self)@.correlations.contains_key(corelation_id@) && !old(self)@.mails.contains_key(
                old(self)@.correlations[corelation_id@],
            ) ==> r == Err::<(), MailError>(MailError::MailNotFound),
            old(self)@.correlations.contains_key(corelation_id@) && old(self)@.mails.contains_key(
                old(self)@.correlations[corelation_id@],
            ) && !is_party(old(self)@.mails[old(self)@.correlations[corelation_id@]].header, reply@.sender_address)
                ==> r == Err::<(), MailError>(MailError::NotAuthorized),
            reply_result_matches(old(self)@, corelation_id@, reply@, r),
            final(self)@ == stored_reply(old(self)@, corelation_id@, reply@, now),
            reply_accepted(old(self)@, corelation_id@, reply@) ==> r is Ok && final(self)@ == after_reply(
                old(self)@,
                old(self)@.correlations[corelation_id@],
                reply@,
                now,
            ),
    {
        let mail_id = match self.corelation_map.get(&corelation_id) {
            Some(m) => m.clone(),
            None => {
                return Err(MailError::NotFound);
            },
        };
        let ghost id = mail_id@;
        let authorized = match self.mails.get(&mail_id) {
            Some(mail) => party_of(&mail.header, &reply.sender_address),
            None => {
                return Err(MailError::MailNotFound);
            },
        };
        if !authorized {
            return Err(MailError::NotAuthorized);
        }
        let ghost rv = reply@;
        let mut mail = Mail {
            correlation_id: None,
            header: MailHeader::default(),
            body: Vec::new(),
            reply_messages: None,
        };
        self.mails.swap_value(&mail_id, &mut mail);
        let ghost m = mail@;
        let mut replies = match mail.reply_messages {
            Some(v) => v,
            None => Vec::new(),
        };
        replies.push(reply);
        mail.reply_messages = Some(replies);
        mail.header.timestamp = now;
        assert(mail@ == replied(m, rv, now)) by {
            assert(mail@.reply_messages->0 =~= replied(m, rv, now).reply_messages->0);
        }
        self.mails.swap_value(&mail_id, &mut mail);
        set_read(&mut self.mail_status, &mail_id, false);
        proof {
            let target = after_reply(old(self)@, id, rv, now);
            assert(self@.mails =~= target.mails);
            assert(self@.read =~= target.read);
        }
        Ok(())
    }

    /// The caller's inbox, if the caller is bound to an address that has one.
    pub open spec fn inbox_of(m: LedgerModel, caller: Seq<u8>) -> Option<Seq<Seq<char>>> {
        if m.users.contains_key(caller) && m.inboxes.contains_key(m.users[caller]) {
            Some(m.inboxes[m.users[caller]])
        } else {
            None
        }
    }

    /// Returns a message in the caller's inbox and marks it read.
    pub fn get_mail(&mut self, caller: &Identity, mail_id: String) -> (r: Result<Mail, MailError>)
        requires
            old(self).wf(),
        ensures
            final(self).wf(),
            Self::inbox_of(old(self)@, caller@) is None ==> r == Err::<Mail, MailError>(MailError::NoUserAddressFound)
                && final(self)@ == old(self)@,
            Self::inbox_of(old(self)@, caller@) is Some && !Self::inbox_of(old(self)@, caller@)->0.contains(mail_id@)
                ==> r == Err::<Mail, MailError>(MailError::MailNotFound) && final(self)@ == old(self)@,
            Self::inbox_of(old(self)@, caller@) is Some && Self::inbox_of(old(self)@, caller@)->0.contains(mail_id@)
                ==> r is Ok && r->Ok_0@ == old(self)@.mails[mail_id@] && final(self)@ == (LedgerModel {
                read: old(self)@.read.insert(mail_id@, true),
                ..old(self)@
            }),
    {
        let email = match self.users.get(caller) {
            Some(e) => e,
            None => {
                return Err(MailError::NoUserAddressFound);
            },
        };
        let inbox = match self.inboxes.get(email) {
            Some(i) => i,
            None => {
                return Err(MailError::NoUserAddressFound);
            },
        };
        proof {
            inbox.lemma_keys();
        }
        if !inbox.contains_key(&mail_id) {
            return Err(MailError::MailNotFound);
        }
        proof {
            let a = self@.users[caller@];
            assert(self@.inboxes[a].contains(mail_id@));
        }
        let mail = match self.mails.get(&mail_id) {
            Some(m) => m.clone(),
            None => {
                return Err(MailError::MailNotFound);
            },
        };
        set_read(&mut self.mail_status, &mail_id, true);
        assert(self@.read =~= old(self)@.read.insert(mail_id@, true));
        Ok(mail)
    }

    /// One page of the caller's inbox, in the order the messages arrived.
    pub fn get_mails(&self, caller: &Identity, page: Option<usize>) -> (r: Result<Vec<InboxData>, MailError>)
        requires
            self.wf(),
        ensures
            Self::inbox_of(self@, caller@) is None ==> r == Err::<Vec<InboxData>, MailError>(MailError::NoUserAddressFound),
            Self::inbox_of(self@, caller@) is Some ==> r is Ok && listing_matches(
                self@,
                Self::inbox_of(self@, caller@)->0,
                page_start(page),
                r->Ok_0@,
            ),
    {
        let email = match self.users.get(caller) {
            Some(e) => e,
            None => {
                return Err(MailError::NoUserAddressFound);
            },
        };
        let inbox = match self.inboxes.get(email) {
            Some(i) => i,
            None => {
                return Err(MailError::NoUserAddressFound);
            },
        };
        let ghost ids = inbox.keys();
        proof {
            inbox.lemma_keys();
        }
        let mut out: Vec<InboxData> = Vec::new();
        let n = inbox.len();
        let skip: usize = match page {
            Some(p) => match p.checked_mul(INBOX_PAGE_SIZE) {
                Some(s) => s,
                None => n,
            },
            None => 0,
        };
        if skip >= n {
            return Ok(out);
        }
        let end: usize = if n - skip > INBOX_PAGE_SIZE { skip + INBOX_PAGE_SIZE } else { n };
        let mut i: usize = skip;
        while i < end
            invariant
                self.wf(),
                inbox.wf(),
                ids == inbox.keys(),
                n == ids.len(),
                skip <= i <= end <= n,
                Self::inbox_of(self@, caller@) == Some(ids),
                out@.len() == i - skip,
                forall|j: int| 0 <= j < out@.len() ==> entry_matches(self@, ids[skip + j], #[trigger] out@[j]),
            decreases end - i,
        {
            let (id, _) = inbox.entry_at(i);
            proof {
                assert(ids.contains(ids[i as int]));
            }
            let mail = match self.mails.get(id) {
                Some(m) => m,
                None => {
                    return Err(MailError::MailNotFound);
                },
            };
            let read = match self.mail_status.get(id) {
                Some(st) => st.read,
                None => {
                    return Err(MailError::MailNotFound);
                },
            };
            let limit = if read { READ_BODY_LIMIT } else { UNREAD_BODY_LIMIT };
            let content = if mail.body.len() > limit { None } else { Some(copy_bytes(&mail.body)) };
            out.push(InboxData { header: mail.header.clone(), read, mail_id: id.clone(), content });
            i = i + 1;
        }
        proof {
            assert(page_start(page) == skip || (page_start(page) >= n && skip == n));
        }
        Ok(out)
    }

    /// The ids that carry a read flag, in the order their flags were made.
    pub closed spec fn status_ids(&self) -> Seq<Seq<char>> {
        self.mail_status.keys()
    }

    /// The flagged ids are listed once each.
    pub proof fn lemma_status_ids(&self)
        requires
            self.wf(),
        ensures
            self.status_ids().no_duplicates(),
            forall|k: Seq<char>| self@.read.contains_key(k) <==> self.status_ids().contains(k),
    {
        self.mail_status.lemma_keys();
    }

    /// Unread and read messages over the whole ledger.
    pub fn get_all_mail_count(&self) -> (r: Result<(u32, u32), MailError>)
        requires
            self.wf(),
        ensures
            r == Ok::<(u32, u32), MailError>(
                (
                    saturated(count_flag(self.status_ids(), self@.read, false)),
                    saturated(count_flag(self.status_ids(), self@.read, true)),
                ),
            ),
    {
        let ghost ids = self.mail_status.keys();
        proof {
            self.mail_status.lemma_keys();
        }
        let mut unread: u64 = 0;
        let mut read: u64 = 0;
        let mut i: usize = 0;
        while i < self.mail_status.len()
            invariant
                self.wf(),
                ids == self.mail_status.keys(),
                forall|k: int| 0 <= k < ids.len() ==> self@.read.contains_key(#[trigger] ids[k]),
                i <= ids.len(),
                unread == count_flag(ids.subrange(0, i as int), self@.read, false),
                read == count_flag(ids.subrange(0, i as int), self@.read, true),
                unread + read == i,
            decreases ids.len() - i,
        {
            let (id, status) = self.mail_status.entry_at(i);
            proof {
                assert(ids.subrange(0, i + 1).drop_last() =~= ids.subrange(0, i as int));
                assert(self@.read[ids[i as int]] == status.read);
            }
            if status.read {
                read = read + 1;
            } else {
                unread = unread + 1;
            }
            i = i + 1;
        }
        assert(ids.subrange(0, ids.len() as int) =~= ids);
        Ok((saturate(unread), saturate(read)))
    }

    /// Unread and read messages in the caller's inbox.
    pub fn get_mail_count(&self, caller: &Identity) -> (r: Result<(u32, u32), MailError>)
        requires
            self.wf(),
        ensures
            Self::inbox_of(self@, caller@) is None ==> r == Err::<(u32, u32), MailError>(MailError::NoUserAddressFound),
            Self::inbox_of(self@, caller@) is Some ==> r == Ok::<(u32, u32), MailError>(
                (
                    saturated(count_flag(Self::inbox_of(self@, caller@)->0, self@.read, false)),
                    saturated(count_flag(Self::inbox_of(self@, caller@)->0, self@.read, true)),
                ),
            ),
    {
        let email = match self.users.get(caller) {
            Some(e) => e,
            None => {
                return Err(MailError::NoUserAddressFound);
            },
        };
        let inbox = match self.inboxes.get(email) {
            Some(i) => i,
            None => {
                return Err(MailError::NoUserAddressFound);
            },
        };
        let ghost ids = inbox.keys();
        proof {
            inbox.lemma_keys();
        }
        let mut unread: u64 = 0;
        let mut read: u64 = 0;
        let mut i: usize = 0;
        while i < inbox.len()
            invariant
                self.wf(),
                inbox.wf(),
                ids == inbox.keys(),
                Self::inbox_of(self@, caller@) == Some(ids),
                i <= ids.len(),
                unread == count_flag(ids.subrange(0, i as int), self@.read, false),
                read == count_flag(ids.subrange(0, i as int), self@.read, true),
                unread + read == i,
            decreases ids.len() - i,
        {
            let (id, _) = inbox.entry_at(i);
            proof {
                assert(ids.contains(ids[i as int]));
                assert(ids.subrange(0, i + 1).drop_last() =~= ids.subrange(0, i as int));
            }
            let flag = match self.mail_status.get(id) {
                Some(st) => st.read,
                None => {
                    return Err(MailError::MailNotFound);
                },
            };
            if flag {
                read = read + 1;
            } else {
                unread = unread + 1;
            }
            i = i + 1;
        }
        assert(ids.subrange(0, ids.len() as int) =~= ids);
        Ok((saturate(unread), saturate(read)))
    }

    /// Registers `email_address` with an empty inbox and binds the identity
    /// whose textual form is `principal_address` to it.
    pub fn create_user(&mut self, email_address: String, principal_address: String) -> (r: Result<(), MailError>)
        requires
            old(self).wf(),
        ensures
            final(self).wf(),
            create_user_matches(old(self)@, email_address@, principal_address@, r, final(self)@),
    {
        let user = match principal_from_text(principal_address.as_str()) {
            Some(u) => u,
            None => {
                return Err(MailError::GeneralError("Invalid principal".to_string()));
            },
        };
        match self.inboxes.get(&email_address) {
            Some(inbox) => {
                if inbox.len() > 0 {
                    return Err(MailError::AddressExist);
                }
            },
            None => {},
        }
        self.register(user, email_address);
        Ok(())
    }

    /// Gives `email_address` an empty inbox and binds `user` to it.
    fn register(&mut self, user: Identity, email_address: String)
        requires
            old(self).wf(),
        ensures
            final(self).wf(),
            final(self)@ == (LedgerModel {
                inboxes: old(self)@.inboxes.insert(email_address@, Seq::empty()),
                users: old(self)@.users.insert(user@, email_address@),
                ..old(self)@
            }),
    {
        let ghost a = email_address@;
        let ghost u = user@;
        let empty: IdSet = KeyMap::new();
        self.inboxes.insert(email_address.clone(), empty);
        self.users.insert(user, email_address);
        proof {
            assert(self@.inboxes =~= old(self)@.inboxes.insert(a, Seq::empty()));
            assert(self@.users =~= old(self)@.users.insert(u, a));
            assert forall|b: Seq<char>, x: Seq<char>|
                self@.inboxes.contains_key(b) && #[trigger] self@.inboxes[b].contains(x) implies self@.mails.contains_key(x)
                    && self@.read.contains_key(x) by {
                assert(b != a);
                assert(old(self)@.inboxes[b].contains(x));
            }
            assert forall|b: Seq<char>, x: Seq<char>|
                self@.inboxes.contains_key(b) && self@.trash.contains_key(b) && #[trigger] self@.inboxes[b].contains(x)
                    implies !self@.trash[b].contains(x) by {
                assert(b != a);
                assert(old(self)@.inboxes[b].contains(x));
            }
        }
    }

    /// Registers the caller under `email_address`, on a node that is not
    /// permissioned, when that address has no inbox yet.
    pub fn public_create_user(&mut self, caller: &Identity, email_address: String) -> (r: Result<(), MailError>)
        requires
            old(self).wf(),
        ensures
            final(self).wf(),
            old(self)@.config.permissioned ==> r == Err::<(), MailError>(MailError::PermissionedSystem)
                && final(self)@ == old(self)@,
            !old(self)@.config.permissioned && old(self)@.inboxes.contains_key(email_address@) ==> r == Err::<
                (),
                MailError,
            >(MailError::AddressExist) && final(self)@ == old(self)@,
            !old(self)@.config.permissioned && !old(self)@.inboxes.contains_key(email_address@) ==> r is Ok
                && final(self)@ == (LedgerModel {
                inboxes: old(self)@.inboxes.insert(email_address@, Seq::empty()),
                users: old(self)@.users.insert(caller@, email_address@),
                ..old(self)@
            }),
    {
        if self.config.permissioned {
            return Err(MailError::PermissionedSystem);
        }
        if self.inboxes.contains_key(&email_address) {
            return Err(MailError::AddressExist);
        }
        self.register(caller.copy(), email_address);
        Ok(())
    }

    /// Removes every binding of an identity to `email_address`, on a
    /// permissioned node; the inbox stays.
    pub fn delete_user(&mut self, email_address: String) -> (r: Result<(), MailError>)
        requires
            old(self).wf(),
        ensures
            final(self).wf(),
            !old(self)@.config.permissioned ==> r == Err::<(), MailError>(MailError::NotAuthorized)
                && final(self)@ == old(self)@,
            old(self)@.config.permissioned ==> r is Ok && final(self)@ == (LedgerModel {
                users: unbind(old(self)@.users, email_address@),
                ..old(self)@
            }),
    {
        if !self.config.permissioned {
            return Err(MailError::NotAuthorized);
        }
        let ghost keys = self.users.keys();
        proof {
            self.users.lemma_keys();
        }
        let mut kept: KeyMap<Identity, String> = KeyMap::new();
        let mut i: usize = 0;
        while i < self.users.len()
            invariant
                self.wf(),
                kept.wf(),
                self == old(self),
                keys == self.users.keys(),
                keys.no_duplicates(),
                forall|k: int| 0 <= k < keys.len() ==> self.users@.contains_key(#[trigger] keys[k]),
                i <= keys.len(),
                forall|k: Seq<u8>| #[trigger] kept@.contains_key(k) ==> keys.subrange(0, i as int).contains(k),
                forall|k: Seq<u8>| #[trigger] kept@.contains_key(k) ==> kept@[k]@ == self.users@[k]@,
                forall|k: Seq<u8>| keys.subrange(0, i as int).contains(k) && self.users@[k]@ != email_address@
                    ==> #[trigger] kept@.contains_key(k),
                forall|k: Seq<u8>| #[trigger] kept@.contains_key(k) ==> self.users@[k]@ != email_address@,
            decreases keys.len() - i,
        {
            let (who, address) = self.users.entry_at(i);
            let ghost pre = keys.subrange(0, i as int);
            proof {
                assert(keys.subrange(0, i + 1) =~= pre.push(keys[i as int]));
            }
            if *address != email_address {
                kept.insert(who.copy(), address.clone());
            }
            proof {
                assert forall|k: Seq<u8>| #[trigger] kept@.contains_key(k) implies keys.subrange(0, i + 1).contains(k) by {
                    lemma_push_contains(pre, keys[i as int], k);
                }
                assert forall|k: Seq<u8>| keys.subrange(0, i + 1).contains(k) && self.users@[k]@ != email_address@
                    implies #[trigger] kept@.contains_key(k) by {
                    lemma_push_contains(pre, keys[i as int], k);
                }
            }
            i = i + 1;
        }
        let ghost old_model = self@;
        self.users = kept;
        proof {
            assert(keys.subrange(0, keys.len() as int) =~= keys);
            assert forall|k: Seq<u8>| #[trigger] old_model.users.contains_key(k) implies keys.contains(k) by {}
            assert(self@.users =~= unbind(old_model.users, email_address@));
        }
        Ok(())
    }

    /// Removes the caller's binding, profile, inbox and trash.
    pub fn delete_self(&mut self, caller: &Identity) -> (r: Result<(), MailError>)
        requires
            old(self).wf(),
        ensures
            final(self).wf(),
            !old(self)@.users.contains_key(caller@) ==> r == Err::<(), MailError>(MailError::NoUserAddressFound)
                && final(self)@ == old(self)@,
            old(self)@.users.contains_key(caller@) ==> r is Ok && final(self)@ == (LedgerModel {
                users: old(self)@.users.remove(caller@),
                profiles: old(self)@.profiles.remove(old(self)@.users[caller@]),
                inboxes: old(self)@.inboxes.remove(old(self)@.users[caller@]),
                trash: old(self)@.trash.remove(old(self)@.users[caller@]),
                ..old(self)@
            }),
    {
        let email = match self.users.get(caller) {
            Some(e) => e.clone(),
            None => {
                return Err(MailError::NoUserAddressFound);
            },
        };
        let ghost a = email@;
        self.profile.remove(&email);
        self.inboxes.remove(&email);
        self.trash.remove(&email);
        self.users.remove(caller);
        proof {
            assert(self@.users =~= old(self)@.users.remove(caller@));
            assert(self@.inboxes =~= old(self)@.inboxes.remove(a));
            assert(self@.trash =~= old(self)@.trash.remove(a));
        }
        Ok(())
    }

    /// Moves a message of the caller's inbox to the caller's trash, adding
    /// it to what the trash already holds.
    pub fn delete_mail(&mut self, caller: &Identity, mail_id: String) -> (r: Result<(), MailError>)
        requires
            old(self).wf(),
        ensures
            final(self).wf(),
            Self::inbox_of(old(self)@, caller@) is None ==> r == Err::<(), MailError>(MailError::NoUserAddressFound)
                && final(self)@ == old(self)@,
            Self::inbox_of(old(self)@, caller@) is Some && !Self::inbox_of(old(self)@, caller@)->0.contains(mail_id@)
                ==> r is Ok && final(self)@ == old(self)@,
            Self::inbox_of(old(self)@, caller@) is Some && Self::inbox_of(old(self)@, caller@)->0.contains(mail_id@)
                ==> r is Ok && removed_once(
                old(self)@.inboxes[old(self)@.users[caller@]],
                final(self)@.inboxes[old(self)@.users[caller@]],
                mail_id@,
            ) && final(self)@ == (LedgerModel {
                inboxes: old(self)@.inboxes.insert(
                    old(self)@.users[caller@],
                    final(self)@.inboxes[old(self)@.users[caller@]],
                ),
                trash: old(self)@.trash.insert(
                    old(self)@.users[caller@],
                    added(old(self)@.trash, old(self)@.users[caller@], mail_id@),
                ),
                ..old(self)@
            }),
    {
        let email = match self.users.get(caller) {
            Some(e) => e.clone(),
            None => {
                return Err(MailError::NoUserAddressFound);
            },
        };
        let present = match self.inboxes.get(&email) {
            Some(inbox) => {
                proof {
                    inbox.lemma_keys();
                }
                inbox.contains_key(&mail_id)
            },
            None => {
                return Err(MailError::NoUserAddressFound);
            },
        };
        if present {
            let ghost a = email@;
            let ghost id = mail_id@;
            proof {
                assert(old(self)@.inboxes[a] == self.inboxes@[a].keys());
                assert(old(self)@.inboxes[a].contains(id));
            }
            remove_from_set(&mut self.inboxes, &email, &mail_id);
            add_to_set(&mut self.trash, &email, &mail_id);
            proof {
                let m = self@;
                let o = old(self)@;
                assert(m.inboxes =~= o.inboxes.insert(a, m.inboxes[a]));
                assert(m.trash =~= o.trash.insert(a, added(o.trash, a, id)));
                assert(o.trash.contains_key(a) ==> !o.trash[a].contains(id));
                assert forall|b: Seq<char>, x: Seq<char>|
                    m.inboxes.contains_key(b) && #[trigger] m.inboxes[b].contains(x) implies m.mails.contains_key(x)
                        && m.read.contains_key(x) by {
                    if b == a {
                        lemma_removed_once_contains(o.inboxes[a], m.inboxes[a], id, x);
                    }
                }
                assert forall|b: Seq<char>, x: Seq<char>|
                    m.trash.contains_key(b) && #[trigger] m.trash[b].contains(x) implies m.mails.contains_key(x)
                        && m.read.contains_key(x) by {
                    if b == a {
                        if o.trash.contains_key(a) {
                            lemma_push_contains(o.trash[a], id, x);
                        } else {
                            lemma_push_contains(Seq::<Seq<char>>::empty(), id, x);
                            assert(seq![id] =~= Seq::<Seq<char>>::empty().push(id));
                        }
                        if x == id {
                            assert(o.inboxes[a].contains(id));
                        }
                    }
                }
                assert forall|b: Seq<char>, x: Seq<char>|
                    m.inboxes.contains_key(b) && m.trash.contains_key(b) && #[trigger] m.inboxes[b].contains(x)
                        implies !m.trash[b].contains(x) by {
                    if b == a {
                        lemma_removed_once_contains(o.inboxes[a], m.inboxes[a], id, x);
                        if o.trash.contains_key(a) {
                            lemma_push_contains(o.trash[a], id, x);
                        } else {
                            lemma_push_contains(Seq::<Seq<char>>::empty(), id, x);
                            assert(seq![id] =~= Seq::<Seq<char>>::empty().push(id));
                        }
                    }
                }
            }
        }
        Ok(())
    }

    /// Moves a message of the caller's trash back to the caller's inbox.
    pub fn restore_mail(&mut self, caller: &Identity, mail_id: String) -> (r: Result<(), MailError>)
        requires
            old(self).wf(),
        ensures
            final(self).wf(),
            !old(self)@.users.contains_key(caller@) ==> r == Err::<(), MailError>(MailError::NoUserAddressFound)
                && final(self)@ == old(self)@,
            old(self)@.users.contains_key(caller@) && !restorable(old(self)@, old(self)@.users[caller@], mail_id@)
                ==> r == Err::<(), MailError>(MailError::MailNotFound) && final(self)@ == old(self)@,
            old(self)@.users.contains_key(caller@) && restorable(old(self)@, old(self)@.users[caller@], mail_id@)
                ==> r is Ok && removed_once(
                old(self)@.trash[old(self)@.users[caller@]],
                final(self)@.trash[old(self)@.users[caller@]],
                mail_id@,
            ) && final(self)@ == (LedgerModel {
                trash: old(self)@.trash.insert(
                    old(self)@.users[caller@],
                    final(self)@.trash[old(self)@.users[caller@]],
                ),
                inboxes: old(self)@.inboxes.insert(
                    old(self)@.users[caller@],
                    old(self)@.inboxes[old(self)@.users[caller@]].push(mail_id@),
                ),
                ..old(self)@
            }),
    {
        let email = match self.users.get(caller) {
            Some(e) => e.clone(),
            None => {
                return Err(MailError::NoUserAddressFound);
            },
        };
        let in_trash = match self.trash.get(&email) {
            Some(t) => {
                proof {
                    t.lemma_keys();
                }
                t.contains_key(&mail_id)
            },
            None => false,
        };
        if !in_trash || !self.inboxes.contains_key(&email) {
            return Err(MailError::MailNotFound);
        }
        let ghost a = email@;
        let ghost id = mail_id@;
        proof {
            assert(!self@.inboxes[a].contains(id));
            self.inboxes@[a].lemma_keys();
        }
        remove_from_set(&mut self.trash, &email, &mail_id);
        add_to_set(&mut self.inboxes, &email, &mail_id);
        proof {
            let m = self@;
            let o = old(self)@;
            assert(m.inboxes =~= o.inboxes.insert(a, o.inboxes[a].push(id)));
            assert(m.trash =~= o.trash.insert(a, m.trash[a]));
            assert forall|b: Seq<char>, x: Seq<char>|
                m.inboxes.contains_key(b) && #[trigger] m.inboxes[b].contains(x) implies m.mails.contains_key(x)
                    && m.read.contains_key(x) by {
                if b == a {
                    lemma_push_contains(o.inboxes[a], id, x);
                    if x == id {
                        assert(o.trash[a].contains(id));
                    }
                }
            }
            assert forall|b: Seq<char>, x: Seq<char>|
                m.trash.contains_key(b) && #[trigger] m.trash[b].contains(x) implies m.mails.contains_key(x)
                    && m.read.contains_key(x) by {
                if b == a {
                    lemma_removed_once_contains(o.trash[a], m.trash[a], id, x);
                }
            }
            assert forall|b: Seq<char>, x: Seq<char>|
                m.inboxes.contains_key(b) && m.trash.contains_key(b) && #[trigger] m.inboxes[b].contains(x)
                    implies !m.trash[b].contains(x) by {
                if b == a {
                    lemma_push_contains(o.inboxes[a], id, x);
                    lemma_removed_once_contains(o.trash[a], m.trash[a], id, x);
                }
            }
        }
        Ok(())
    }

    /// Records a sent message's correlation id in the sender's sent set.
    pub fn add_to_sent(&mut self, mail_id: String, user_addr: String)
        requires
            old(self).wf(),
        ensures
            final(self).wf(),
            final(self)@ == (LedgerModel {
                sent: old(self)@.sent.insert(user_addr@, added(old(self)@.sent, user_addr@, mail_id@)),
                ..old(self)@
            }),
    {
        add_to_set(&mut self.sent, &user_addr, &mail_id);
        assert(self@.sent =~= old(self)@.sent.insert(user_addr@, added(old(self)@.sent, user_addr@, mail_id@)));
    }

    /// Replaces the node's settings.
    pub fn init(&mut self, config: LedgerConfiguration)
        requires
            old(self).wf(),
        ensures
            final(self).wf(),
            final(self)@ == (LedgerModel { config, ..old(self)@ }),
    {
        self.config = config;
    }

    pub fn get_info(&self) -> (r: LedgerInfo)
        ensures
            r.name@ == self@.info.name@,
            r.description@ == self@.info.description@,
    {
        self.info.clone()
    }

    pub fn set_info(&mut self, info: LedgerInfo)
        requires
            old(self).wf(),
        ensures
            final(self).wf(),
            final(self)@ == (LedgerModel { info, ..old(self)@ }),
    {
        self.info = info;
    }

    pub fn get_domain_name(&self) -> (r: String)
        ensures
            r@ == self@.config.domain_name@,
    {
        self.config.domain_name.clone()
    }

    pub fn get_token_address(&self) -> (r: String)
        ensures
            r@ == self@.config.token_address@,
    {
        self.config.token_address.clone()
    }

    pub fn get_registry_address(&self) -> (r: String)
        ensures
            r@ == self@.config.registry_canister@,
    {
        self.config.registry_canister.clone()
    }

    pub fn get_mail_transfer_agent_url(&self) -> (r: String)
        ensures
            r@ == self@.config.mta_url@,
    {
        self.config.mta_url.clone()
    }

    /// Whether the caller is one of the node's custodians.
    pub fn is_custodian(&self, principal: &Identity) -> (r: Result<(), String>)
        requires
            self.wf(),
        ensures
            r is Ok <==> self@.custodians.contains(principal@),
    {
        if self.custodians.contains_key(principal) {
            Ok(())
        } else {
            Err("You are not a custodian of this canister".to_string())
        }
    }

    /// Adds an identity to the node's custodians.
    pub fn add_custodian(&mut self, principal: Identity)
        requires
            old(self).wf(),
        ensures
            final(self).wf(),
            final(self)@ == (LedgerModel { custodians: old(self)@.custodians.insert(principal@), ..old(self)@ }),
    {
        let ghost p = principal@;
        self.custodians.insert(principal, ());
        assert(self@.custodians =~= old(self)@.custodians.insert(p));
    }

    /// The addresses of all bound identities, in binding order; open to
    /// everyone on a permissioned node and to custodians elsewhere.
    pub fn get_users(&self, caller: &Identity) -> (r: Result<Vec<String>, MailError>)
        requires
            self.wf(),
        ensures
            !self@.config.permissioned && !self@.custodians.contains(caller@) ==> r == Err::<Vec<String>, MailError>(
                MailError::NotAuthorized,
            ),
            self@.config.permissioned || self@.custodians.contains(caller@) ==> r is Ok && strs(r->Ok_0@)
                == self.user_order().map_values(|k: Seq<u8>| self@.users[k]),
    {
        if !self.config.permissioned && !self.custodians.contains_key(caller) {
            return Err(MailError::NotAuthorized);
        }
        let ghost keys = self.users.keys();
        let mut out: Vec<String> = Vec::new();
        let mut i: usize = 0;
        while i < self.users.len()
            invariant
                self.wf(),
                keys == self.users.keys(),
                i <= keys.len(),
                strs(out@) == keys.subrange(0, i as int).map_values(|k: Seq<u8>| self@.users[k]),
            decreases keys.len() - i,
        {
            let (_, address) = self.users.entry_at(i);
            proof {
                self.users.lemma_keys();
            }
            let ghost before = out@;
            out.push(address.clone());
            assert(strs(out@) =~= strs(before).push(address@));
            assert(keys.subrange(0, i + 1) =~= keys.subrange(0, i as int).push(keys[i as int]));
            assert(strs(out@) =~= keys.subrange(0, i + 1).map_values(|k: Seq<u8>| self@.users[k]));
            i = i + 1;
        }
        assert(keys.subrange(0, keys.len() as int) =~= keys);
        Ok(out)
    }

    /// The bound identities, in binding order.
    pub closed spec fn user_order(&self) -> Seq<Seq<u8>> {
        self.users.keys()
    }

    /// The binding order lists each bound identity once.
    pub proof fn lemma_user_order(&self)
        requires
            self.wf(),
        ensures
            self.user_order().no_duplicates(),
            forall|k: Seq<u8>| self@.users.contains_key(k) <==> self.user_order().contains(k),
    {
        self.users.lemma_keys();
    }

    /// The profile of the address bound to an identity.
    pub fn get_user_profile(&self, principal: &Identity) -> (r: Option<Profile>)
        requires
            self.wf(),
        ensures
            r is Some <==> self@.users.contains_key(principal@) && self@.profiles.contains_key(self@.users[principal@]),
            r is Some ==> r->0.name@ == self@.profiles[self@.users[principal@]].name@ && r->0.portfolio@
                == self@.profiles[self@.users[principal@]].portfolio@ && r->0.photo@
                == self@.profiles[self@.users[principal@]].photo@,
    {
        match self.users.get(principal) {
            Some(address) => match self.profile.get(address) {
                Some(p) => Some(p.clone()),
                None => None,
            },
            None => None,
        }
    }

    /// Adds a newsletter with no subscribers, replacing one under the same id.
    pub fn create_newletter(&mut self, newsletter_id: String, letter: Newsletter) -> (r: Result<(), MailError>)
        requires
            old(self).wf(),
        ensures
            final(self).wf(),
            r is Ok,
            final(self)@ == (LedgerModel {
                newsletters: old(self)@.newsletters.insert(newsletter_id@, letter),
                subscribers: old(self)@.subscribers.insert(newsletter_id@, Map::empty()),
                ..old(self)@
            }),
    {
        let ghost n = newsletter_id@;
        self.newsletter.insert(newsletter_id.clone(), letter);
        self.newsletter_subscribers.insert(newsletter_id, KeyMap::new());
        assert(self@.subscribers[n] =~= Map::<Seq<char>, Seq<u8>>::empty());
        assert(self@.subscribers =~= old(self)@.subscribers.insert(n, Map::empty()));
        Ok(())
    }

    pub fn get_newsletter(&self, newsletter_id: String) -> (r: Result<Newsletter, MailError>)
        requires
            self.wf(),
        ensures
            !self@.newsletters.contains_key(newsletter_id@) ==> r == Err::<Newsletter, MailError>(MailError::NotFound),
            self@.newsletters.contains_key(newsletter_id@) ==> r is Ok && r->Ok_0.title@
                == self@.newsletters[newsletter_id@].title@ && r->Ok_0.desciption@
                == self@.newsletters[newsletter_id@].desciption@,
    {
        match self.newsletter.get(&newsletter_id) {
            Some(n) => Ok(n.clone()),
            None => Err(MailError::NotFound),
        }
    }

    /// The newsletter ids, in the order they were created.
    pub closed spec fn newsletter_order(&self) -> Seq<Seq<char>> {
        self.newsletter.keys()
    }

    /// The creation order lists each newsletter id once.
    pub proof fn lemma_newsletter_order(&self)
        requires
            self.wf(),
        ensures
            self.newsletter_order().no_duplicates(),
            forall|n: Seq<char>| self@.newsletters.contains_key(n) <==> self.newsletter_order().contains(n),
    {
        self.newsletter.lemma_keys();
    }

    /// Every newsletter with its id, in the order they were created.
    pub fn get_newsletters(&self) -> (r: Vec<(String, Newsletter)>)
        requires
            self.wf(),
        ensures
            r@.len() == self.newsletter_order().len(),
            forall|i: int| 0 <= i < r@.len() ==> {
                &&& (#[trigger] r@[i]).0@ == self.newsletter_order()[i]
                &&& r@[i].1.title@ == self@.newsletters[self.newsletter_order()[i]].title@
                &&& r@[i].1.desciption@ == self@.newsletters[self.newsletter_order()[i]].desciption@
            },
    {
        let mut out: Vec<(String, Newsletter)> = Vec::new();
        let mut i: usize = 0;
        while i < self.newsletter.len()
            invariant
                self.wf(),
                i <= self.newsletter_order().len(),
                out@.len() == i,
                forall|k: int| 0 <= k < i ==> {
                    &&& (#[trigger] out@[k]).0@ == self.newsletter_order()[k]
                    &&& out@[k].1.title@ == self@.newsletters[self.newsletter_order()[k]].title@
                    &&& out@[k].1.desciption@ == self@.newsletters[self.newsletter_order()[k]].desciption@
                },
            decreases self.newsletter_order().len() - i,
        {
            let (id, n) = self.newsletter.entry_at(i);
            out.push((id.clone(), n.clone()));
            i = i + 1;
        }
        out
    }

    /// The addresses subscribed to a newsletter, each once.
    pub fn get_newsletter_subscribers(&self, newsletter_id: String) -> (r: Result<Vec<String>, MailError>)
        requires
            self.wf(),
        ensures
            !self@.subscribers.contains_key(newsletter_id@) ==> r == Err::<Vec<String>, MailError>(MailError::NotFound),
            self@.subscribers.contains_key(newsletter_id@) ==> r is Ok && strs(r->Ok_0@).no_duplicates() && forall|
                a: Seq<char>,
            | strs(r->Ok_0@).contains(a) <==> self@.subscribers[newsletter_id@].contains_key(a),
    {
        let subs = match self.newsletter_subscribers.get(&newsletter_id) {
            Some(s) => s,
            None => {
                return Err(MailError::NotFound);
            },
        };
        let ghost keys = subs.keys();
        proof {
            subs.lemma_keys();
        }
        let mut out: Vec<String> = Vec::new();
        let mut i: usize = 0;
        while i < subs.len()
            invariant
                subs.wf(),
                keys == subs.keys(),
                i <= keys.len(),
                strs(out@) == keys.subrange(0, i as int),
            decreases keys.len() - i,
        {
            let (a, _) = subs.entry_at(i);
            let ghost before = out@;
            out.push(a.clone());
            assert(strs(out@) =~= strs(before).push(a@));
            assert(strs(out@) =~= keys.subrange(0, i + 1));
            i = i + 1;
        }
        assert(keys.subrange(0, keys.len() as int) =~= keys);
        Ok(out)
    }

    /// Subscribes an address to a newsletter, recording who subscribed it.
    pub fn subscribe_to_newsletter(&mut self, newsletter_id: String, email_address: String, p: Identity) -> (r:
        Result<(), MailError>)
        requires
            old(self).wf(),
        ensures
            final(self).wf(),
            !old(self)@.subscribers.contains_key(newsletter_id@) ==> r == Err::<(), MailError>(MailError::NotFound)
                && final(self)@ == old(self)@,
            old(self)@.subscribers.contains_key(newsletter_id@) && old(self)@.subscribers[newsletter_id@].contains_key(
                email_address@,
            ) ==> r == Err::<(), MailError>(MailError::AddressExist) && final(self)@ == old(self)@,
            old(self)@.subscribers.contains_key(newsletter_id@) && !old(self)@.subscribers[newsletter_id@].contains_key(
                email_address@,
            ) ==> r is Ok && final(self)@ == (LedgerModel {
                subscribers: old(self)@.subscribers.insert(
                    newsletter_id@,
                    old(self)@.subscribers[newsletter_id@].insert(email_address@, p@),
                ),
                ..old(self)@
            }),
    {
        match self.newsletter_subscribers.get(&newsletter_id) {
            Some(subs) => {
                if subs.contains_key(&email_address) {
                    return Err(MailError::AddressExist);
                }
            },
            None => {
                return Err(MailError::NotFound);
            },
        }
        let ghost n = newsletter_id@;
        let ghost a = email_address@;
        let ghost who = p@;
        let mut subs: KeyMap<String, Identity> = KeyMap::new();
        self.newsletter_subscribers.swap_value(&newsletter_id, &mut subs);
        subs.insert(email_address, p);
        self.newsletter_subscribers.swap_value(&newsletter_id, &mut subs);
        assert(self@.subscribers[n] =~= old(self)@.subscribers[n].insert(a, who));
        assert(self@.subscribers =~= old(self)@.subscribers.insert(n, old(self)@.subscribers[n].insert(a, who)));
        Ok(())
    }

    /// `create_user`, for custodians only.
    pub fn custodian_create_user(&mut self, caller: &Identity, email_address: String, principal_address: String) -> (r:
        Result<(), MailError>)
        requires
            old(self).wf(),
        ensures
            final(self).wf(),
            custodian_gate(*old(self), *final(self), caller@, r),
            old(self)@.custodians.contains(caller@) ==> create_user_matches(
                old(self)@,
                email_address@,
                principal_address@,
                r,
                final(self)@,
            ),
    {
        if !self.custodians.contains_key(caller) {
            return Err(MailError::NotAuthorized);
        }
        self.create_user(email_address, principal_address)
    }

    /// `delete_user`, for custodians only.
    pub fn custodian_delete_user(&mut self, caller: &Identity, email_address: String) -> (r: Result<(), MailError>)
        requires
            old(self).wf(),
        ensures
            final(self).wf(),
            custodian_gate(*old(self), *final(self), caller@, r),
            old(self)@.custodians.contains(caller@) && !old(self)@.config.permissioned ==> r == Err::<(), MailError>(
                MailError::NotAuthorized,
            ) && final(self)@ == old(self)@,
            old(self)@.custodians.contains(caller@) && old(self)@.config.permissioned ==> r is Ok && final(self)@ == (
            LedgerModel { users: unbind(old(self)@.users, email_address@), ..old(self)@ }),
    {
        if !self.custodians.contains_key(caller) {
            return Err(MailError::NotAuthorized);
        }
        self.delete_user(email_address)
    }

    /// `set_info`, for custodians only.
    pub fn custodian_set_info(&mut self, caller: &Identity, info: LedgerInfo) -> (r: Result<(), MailError>)
        requires
            old(self).wf(),
        ensures
            final(self).wf(),
            custodian_gate(*old(self), *final(self), caller@, r),
            old(self)@.custodians.contains(caller@) ==> r is Ok && final(self)@ == (LedgerModel { info, ..old(self)@ }),
    {
        if !self.custodians.contains_key(caller) {
            return Err(MailError::NotAuthorized);
        }
        self.set_info(info);
        Ok(())
    }

    /// `create_newletter`, for custodians only.
    pub fn custodian_create_newsletter(&mut self, caller: &Identity, newsletter_id: String, letter: Newsletter) -> (r:
        Result<(), MailError>)
        requires
            old(self).wf(),
        ensures
            final(self).wf(),
            custodian_gate(*old(self), *final(self), caller@, r),
            old(self)@.custodians.contains(caller@) ==> r is Ok && final(self)@ == (LedgerModel {
                newsletters: old(self)@.newsletters.insert(newsletter_id@, letter),
                subscribers: old(self)@.subscribers.insert(newsletter_id@, Map::empty()),
                ..old(self)@
            }),
    {
        if !self.custodians.contains_key(caller) {
            return Err(MailError::NotAuthorized);
        }
        self.create_newletter(newsletter_id, letter)
    }

    /// Unsubscribes an address from a newsletter, when the caller is the
    /// identity that subscribed it.
    pub fn unsubscribe_to_newsletter(&mut self, newsletter_id: String, email_address: String, p: Identity) -> (r:
        Result<(), MailError>)
        requires
            old(self).wf(),
        ensures
            final(self).wf(),
            !(old(self)@.subscribers.contains_key(newsletter_id@) && old(self)@.subscribers[newsletter_id@].contains_key(
                email_address@,
            )) ==> r == Err::<(), MailError>(MailError::NotFound) && final(self)@ == old(self)@,
            old(self)@.subscribers.contains_key(newsletter_id@) && old(self)@.subscribers[newsletter_id@].contains_key(
                email_address@,
            ) && old(self)@.subscribers[newsletter_id@][email_address@] != p@ ==> r == Err::<(), MailError>(
                MailError::NotAuthorized,
            ) && final(self)@ == old(self)@,
            old(self)@.subscribers.contains_key(newsletter_id@) && old(self)@.subscribers[newsletter_id@].contains_key(
                email_address@,
            ) && old(self)@.subscribers[newsletter_id@][email_address@] == p@ ==> r is Ok && final(self)@ == (
            LedgerModel {
                subscribers: old(self)@.subscribers.insert(
                    newsletter_id@,
                    old(self)@.subscribers[newsletter_id@].remove(email_address@),
                ),
                ..old(self)@
            }),
    {
        match self.newsletter_subscribers.get(&newsletter_id) {
            Some(subs) => match subs.get(&email_address) {
                Some(who) => {
                    if !who.same_as(&p) {
                        return Err(MailError::NotAuthorized);
                    }
                },
                None => {
                    return Err(MailError::NotFound);
                },
            },
            None => {
                return Err(MailError::NotFound);
            },
        }
        let ghost n = newsletter_id@;
        let ghost a = email_address@;
        let mut subs: KeyMap<String, Identity> = KeyMap::new();
        self.newsletter_subscribers.swap_value(&newsletter_id, &mut subs);
        subs.remove(&email_address);
        self.newsletter_subscribers.swap_value(&newsletter_id, &mut subs);
        assert(self@.subscribers[n] =~= old(self)@.subscribers[n].remove(a));
        assert(self@.subscribers =~= old(self)@.subscribers.insert(n, old(self)@.subscribers[n].remove(a)));
        Ok(())
    }
}

/// The ids under `a` once `id` is added to them.
pub open spec fn added(sets: Map<Seq<char>, Seq<Seq<char>>>, a: Seq<char>, id: Seq<char>) -> Seq<Seq<char>> {
    if sets.contains_key(a) {
        if sets[a].contains(id) {
            sets[a]
        } else {
            sets[a].push(id)
        }
    } else {
        seq![id]
    }
}

/// Whether `r` and `after` are how registering `email` for the identity
/// whose textual form is `text` ends: the text must name an identity, and an
/// inbox that already holds messages is not replaced.
pub open spec fn create_user_matches(
    m: LedgerModel,
    email: Seq<char>,
    text: Seq<char>,
    r: Result<(), MailError>,
    after: LedgerModel,
) -> bool {
    if principal_bytes_of(text) is None {
        (r matches Err(MailError::GeneralError(_))) && after == m
    } else if m.inboxes.contains_key(email) && m.inboxes[email].len() > 0 {
        r == Err::<(), MailError>(MailError::AddressExist) && after == m
    } else {
        r is Ok && after == (LedgerModel {
            inboxes: m.inboxes.insert(email, Seq::empty()),
            users: m.users.insert(principal_bytes_of(text)->0, email),
            ..m
        })
    }
}

/// The custodian gate of the custodian-only operations: a caller outside
/// the custodian set is refused with the authorization error, and the ledger
/// is left exactly as it was.
pub open spec fn custodian_gate(before: Ledger, after: Ledger, caller: Seq<u8>, r: Result<(), MailError>) -> bool {
    !before@.custodians.contains(caller) ==> r == Err::<(), MailError>(MailError::NotAuthorized) && after == before
}

/// Whether `id` can go back from the trash of `a` to its inbox.
pub open spec fn restorable(m: LedgerModel, a: Seq<char>, id: Seq<char>) -> bool {
    m.trash.contains_key(a) && m.trash[a].contains(id) && m.inboxes.contains_key(a)
}

/// `after` is `before` with its one occurrence of `id` taken out.
pub open spec fn removed_once(before: Seq<Seq<char>>, after: Seq<Seq<char>>, id: Seq<char>) -> bool {
    exists|i: int| 0 <= i < before.len() && before[i] == id && after == before.remove(i)
}

/// Taking out the one occurrence of `id` leaves every other element.
pub proof fn lemma_removed_once_contains(before: Seq<Seq<char>>, after: Seq<Seq<char>>, id: Seq<char>, x: Seq<char>)
    requires
        removed_once(before, after, id),
        before.no_duplicates(),
    ensures
        after.contains(x) <==> (before.contains(x) && x != id),
{
    let i = choose|i: int| 0 <= i < before.len() && before[i] == id && after == before.remove(i);
    if after.contains(x) {
        let k = choose|k: int| 0 <= k < after.len() && after[k] == x;
        if k < i {
            assert(before[k] == x);
        } else {
            assert(before[k + 1] == x);
        }
    }
    if before.contains(x) && x != id {
        let k = choose|k: int| 0 <= k < before.len() && before[k] == x;
        if k < i {
            assert(after[k] == x);
        } else {
            assert(after[k - 1] == x);
        }
    }
}

/// Adds `id` to the set under `addr`, making that set when there is none.
fn add_to_set(sets: &mut KeyMap<String, IdSet>, addr: &String, id: &String)
    requires
        old(sets).wf(),
        forall|a: Seq<char>| #[trigger] old(sets)@.contains_key(a) ==> old(sets)@[a].wf(),
    ensures
        final(sets).wf(),
        forall|a: Seq<char>| #[trigger] final(sets)@.contains_key(a) ==> final(sets)@[a].wf(),
        id_lists(final(sets)@) == id_lists(old(sets)@).insert(addr@, added(id_lists(old(sets)@), addr@, id@)),
{
    if sets.contains_key(addr) {
        let mut set: IdSet = KeyMap::new();
        sets.swap_value(addr, &mut set);
        proof {
            set.lemma_keys();
        }
        set.insert(id.clone(), ());
        let ghost after = set;
        sets.swap_value(addr, &mut set);
        assert(id_lists(sets@) =~= id_lists(old(sets)@).insert(addr@, after.keys()));
    } else {
        let mut set: IdSet = KeyMap::new();
        set.insert(id.clone(), ());
        assert(set.keys() =~= seq![id@]);
        sets.insert(addr.clone(), set);
        assert(id_lists(sets@) =~= id_lists(old(sets)@).insert(addr@, seq![id@]));
    }
}

/// Takes `id` out of the set under a present `addr`.
fn remove_from_set(sets: &mut KeyMap<String, IdSet>, addr: &String, id: &String)
    requires
        old(sets).wf(),
        forall|a: Seq<char>| #[trigger] old(sets)@.contains_key(a) ==> old(sets)@[a].wf(),
        old(sets)@.contains_key(addr@),
        id_lists(old(sets)@)[addr@].contains(id@),
    ensures
        final(sets).wf(),
        forall|a: Seq<char>| #[trigger] final(sets)@.contains_key(a) ==> final(sets)@[a].wf(),
        final(sets)@.dom() == old(sets)@.dom(),
        removed_once(id_lists(old(sets)@)[addr@], id_lists(final(sets)@)[addr@], id@),
        id_lists(final(sets)@) == id_lists(old(sets)@).insert(addr@, id_lists(final(sets)@)[addr@]),
{
    let mut set: IdSet = KeyMap::new();
    sets.swap_value(addr, &mut set);
    proof {
        set.lemma_keys();
    }
    set.remove(id);
    let ghost after = set;
    sets.swap_value(addr, &mut set);
    assert(id_lists(sets@) =~= id_lists(old(sets)@).insert(addr@, after.keys()));
}

/// How many of `ids` have the read flag `flag`.
pub open spec fn count_flag(ids: Seq<Seq<char>>, read: Map<Seq<char>, bool>, flag: bool) -> nat
    decreases ids.len(),
{
    if ids.len() == 0 {
        0
    } else {
        count_flag(ids.drop_last(), read, flag) + if read[ids.last()] == flag {
            1nat
        } else {
            0nat
        }
    }
}

/// A count as a `u32`, held at the largest `u32` when it is larger.
pub open spec fn saturated(n: nat) -> u32 {
    if n > u32::MAX {
        u32::MAX
    } else {
        n as u32
    }
}

fn saturate(n: u64) -> (r: u32)
    ensures
        r == saturated(n as nat),
{
    if n > u32::MAX as u64 {
        u32::MAX
    } else {
        n as u32
    }
}

/// The bindings left when every identity bound to `address` is unbound.
pub open spec fn unbind(users: Map<Seq<u8>, Seq<char>>, address: Seq<char>) -> Map<Seq<u8>, Seq<char>> {
    Map::new(|k: Seq<u8>| users.contains_key(k) && users[k] != address, |k: Seq<u8>| users[k])
}

/// Where a page of a listing starts.
pub open spec fn page_start(page: Option<usize>) -> int {
    match page {
        Some(p) => p * INBOX_PAGE_SIZE,
        None => 0,
    }
}

/// The body a listing shows: none when it is larger than the limit for its
/// read state.
pub open spec fn listed_body(body: Seq<u8>, read: bool) -> Option<Seq<u8>> {
    if body.len() > if read { READ_BODY_LIMIT } else { UNREAD_BODY_LIMIT } {
        None
    } else {
        Some(body)
    }
}

/// Whether a listing entry shows message `id` as the ledger holds it.
pub open spec fn entry_matches(m: LedgerModel, id: Seq<char>, e: InboxData) -> bool {
    &&& e.mail_id@ == id
    &&& e.read == m.read[id]
    &&& e.header@ == m.mails[id].header
    &&& match e.content {
        Some(c) => listed_body(m.mails[id].body, m.read[id]) == Some(c@),
        None => listed_body(m.mails[id].body, m.read[id]) is None,
    }
}

/// Whether `out` is the page of `ids` that starts at `start`: at most one
/// page size of entries, in order.
pub open spec fn listing_matches(m: LedgerModel, ids: Seq<Seq<char>>, start: int, out: Seq<InboxData>) -> bool {
    &&& out.len() == if start >= ids.len() {
        0
    } else if ids.len() - start > INBOX_PAGE_SIZE {
        INBOX_PAGE_SIZE as int
    } else {
        ids.len() - start
    }
    &&& forall|j: int| 0 <= j < out.len() ==> entry_matches(m, ids[start + j], #[trigger] out[j])
}

/// Whether `sender` is the header's sender or one of its `to` recipients.
pub open spec fn is_party(h: HeaderModel, sender: Seq<char>) -> bool {
    h.from == sender || h.to.contains(sender)
}

fn party_of(header: &MailHeader, sender: &String) -> (r: bool)
    ensures
        r == is_party(header@, sender@),
{
    if header.from == *sender {
        return true;
    }
    let mut i: usize = 0;
    while i < header.to.len()
        invariant
            i <= header.to@.len(),
            header.from@ != sender@,
            forall|j: int| 0 <= j < i ==> header.to@[j]@ != sender@,
        decreases header.to@.len() - i,
    {
        if header.to[i] == *sender {
            assert(header@.to[i as int] == sender@);
            return true;
        }
        i = i + 1;
    }
    assert(!header@.to.contains(sender@)) by {
        if header@.to.contains(sender@) {
            let k = choose|k: int| 0 <= k < header@.to.len() && header@.to[k] == sender@;
            assert(header.to@[k]@ == sender@);
        }
    }
    false
}

/// Whether a reply under `c` from `reply.sender_address` is stored: the
/// correlation id is bound to a stored message that the sender is a party to.
pub open spec fn reply_accepted(m: LedgerModel, c: Seq<char>, reply: crate::types::ReplyModel) -> bool {
    &&& m.correlations.contains_key(c)
    &&& m.mails.contains_key(m.correlations[c])
    &&& is_party(m.mails[m.correlations[c]].header, reply.sender_address)
}

/// Whether `r` is how storing a reply under `c` from `reply.sender_address`
/// is answered.
pub open spec fn reply_result_matches(m: LedgerModel, c: Seq<char>, reply: crate::types::ReplyModel, r: Result<(), MailError>) -> bool {
    if !m.correlations.contains_key(c) {
        r == Err::<(), MailError>(MailError::NotFound)
    } else if !m.mails.contains_key(m.correlations[c]) {
        r == Err::<(), MailError>(MailError::MailNotFound)
    } else if !is_party(m.mails[m.correlations[c]].header, reply.sender_address) {
        r == Err::<(), MailError>(MailError::NotAuthorized)
    } else {
        r is Ok
    }
}

/// The ledger after a reply under `c` is offered at time `now`.
pub open spec fn stored_reply(m: LedgerModel, c: Seq<char>, reply: crate::types::ReplyModel, now: u64) -> LedgerModel {
    if reply_accepted(m, c, reply) {
        after_reply(m, m.correlations[c], reply, now)
    } else {
        m
    }
}

/// A message after a reply is appended at time `now`.
pub open spec fn replied(m: MailModel, reply: crate::types::ReplyModel, now: u64) -> MailModel {
    MailModel {
        header: HeaderModel { timestamp: now, ..m.header },
        reply_messages: Some(
            match m.reply_messages {
                Some(v) => v,
                None => Seq::empty(),
            }.push(reply),
        ),
        ..m
    }
}

/// The ledger after a reply to message `id` is stored at time `now`.
pub open spec fn after_reply(m: LedgerModel, id: Seq<char>, reply: crate::types::ReplyModel, now: u64) -> LedgerModel {
    LedgerModel {
        mails: m.mails.insert(id, replied(m.mails[id], reply, now)),
        read: if m.read.contains_key(id) { m.read.insert(id, false) } else { m.read },
        ..m
    }
}

/// Sets the read flag of a message that has one.
fn set_read(statuses: &mut KeyMap<String, MailStatus>, id: &String, read: bool)
    requires
        old(statuses).wf(),
    ensures
        final(statuses).wf(),
        final(statuses)@.dom() == old(statuses)@.dom(),
        forall|k: Seq<char>| #[trigger] final(statuses)@.contains_key(k) ==> final(statuses)@[k].read == if k == id@ {
            read
        } else {
            old(statuses)@[k].read
        },
{
    if statuses.contains_key(id) {
        let mut status = MailStatus { read, mail_id: String::new() };
        statuses.swap_value(id, &mut status);
        status.read = read;
        statuses.swap_value(id, &mut status);
    }
}


/// A message id that delivery or storage has used is never used again: a
/// later delivery under it fails, with the collision error when the message
/// has a local recipient, and leaves the ledger as it was.
pub proof fn lemma_store_id_unique(m: LedgerModel, later: MailModel, id: Seq<char>)
    requires
        m.mails.contains_key(id),
    ensures
        submit_result(m, later, id) is Err,
        has_local_recipient(m, later.header) ==> submit_result(m, later, id) == Err::<(), MailError>(
            MailError::InternalSystemMailCollision,
        ),
        after_submit(m, later, id) == m,
{
}

/// A successful delivery takes its id: the stored messages then hold it.
pub proof fn lemma_submit_takes_id(m: LedgerModel, mail: MailModel, id: Seq<char>)
    requires
        submit_result(m, mail, id) is Ok,
    ensures
        after_submit(m, mail, id).mails.contains_key(id),
        after_submit(m, mail, id).mails[id] == mail,
{
}

/// No address ever has an id in its inbox and its trash at once.
pub proof fn lemma_inbox_trash_disjoint(l: &Ledger, a: Seq<char>, id: Seq<char>)
    requires
        l.wf(),
        l@.inboxes.contains_key(a),
        l@.trash.contains_key(a),
        l@.inboxes[a].contains(id),
    ensures
        !l@.trash[a].contains(id),
{
}

/// Once a correlation id is bound, delivering another message that carries
/// it, under any id, leaves the binding as it was.
pub proof fn lemma_correlation_single_bind(m: LedgerModel, mail: MailModel, id: Seq<char>, c: Seq<char>)
    requires
        m.correlations.contains_key(c),
        mail.correlation_id == Some(c),
    ensures
        after_submit(m, mail, id).correlations.contains_key(c),
        after_submit(m, mail, id).correlations[c] == m.correlations[c],
{
}

/// A stored reply leaves its message unread, whatever its read flag was.
pub proof fn lemma_reply_resets_read(m: LedgerModel, c: Seq<char>, reply: crate::types::ReplyModel, now: u64)
    requires
        reply_accepted(m, c, reply),
        m.read.contains_key(m.correlations[c]),
    ensures
        after_reply(m, m.correlations[c], reply, now).read[m.correlations[c]] == false,
        after_reply(m, m.correlations[c], reply, now).mails[m.correlations[c]].reply_messages is Some,
{
}

impl Default for Ledger {
    fn default() -> (r: Ledger)
        ensures
            r.wf(),
            r@.inboxes.is_empty(),
            r@.mails.is_empty(),
            r@.users.is_empty(),
            r@.custodians.is_empty(),
    {
        Ledger::new()
    }
}

} // verus!
