//! The domain directory: which node owns each domain, which nodes each
//! customer runs, and the nodes whose set-up is not finished.
use vstd::prelude::*;

use crate::keymap::KeyMap;
use crate::routing::joined;
use crate::types::{strs, Identity, RegistryError};

verus! {

/// Model of the directory.
pub struct RegistryModel {
    pub domains: Map<Seq<char>, Seq<char>>,
    pub customers: Map<Seq<u8>, Seq<Seq<char>>>,
    pub custodians: Set<Seq<char>>,
    pub pending: Map<Seq<u8>, Seq<u8>>,
}

/// The directory's state.
pub struct Ledger {
    domains: KeyMap<String, String>,
    customers: KeyMap<Identity, KeyMap<String, ()>>,
    custodians: KeyMap<String, ()>,
    pending_canister: KeyMap<Identity, Identity>,
}

impl View for Ledger {
    type V = RegistryModel;

    closed spec fn view(&self) -> RegistryModel {
        RegistryModel {
            domains: Map::new(|d: Seq<char>| self.domains@.contains_key(d), |d: Seq<char>| self.domains@[d]@),
            customers: Map::new(|c: Seq<u8>| self.customers@.contains_key(c), |c: Seq<u8>| self.customers@[c].keys()),
            custodians: self.custodians@.dom(),
            pending: Map::new(|c: Seq<u8>| self.pending_canister@.contains_key(c), |c: Seq<u8>| self.pending_canister@[c]@),
        }
    }
}

/// Joins parts with commas.
pub fn join_with_commas(parts: &Vec<String>) -> (r: String)
    ensures
        r@ == joined(strs(parts@)),
{
    let mut text = String::new();
    let mut i: usize = 0;
    while i < parts.len()
        invariant
            i <= parts@.len(),
            text@ == joined(strs(parts@).subrange(0, i as int)),
        decreases parts@.len() - i,
    {
        let ghost pre = strs(parts@).subrange(0, i as int);
        if i > 0 {
            text.append(",");
        }
        text.append(parts[i].as_str());
        proof {
            let post = strs(parts@).subrange(0, i + 1);
            assert(post.drop_last() =~= pre);
            assert(post.last() == parts@[i as int]@);
            if i == 0 {
                assert(text@ =~= joined(post));
            }
        }
        i = i + 1;
    }
    assert(strs(parts@).subrange(0, parts@.len() as int) =~= strs(parts@));
    text
}

/// The text of the error for nodes that could not be upgraded.
pub open spec fn upgrade_text(failed: Seq<Seq<char>>) -> Seq<char> {
    "These canisters "@ + joined(failed) + " failed to be upgrade"@
}

/// Sums up an upgrade of every node: success when none failed.
pub fn upgrade_outcome(failed: &Vec<String>) -> (r: Result<(), RegistryError>)
    ensures
        failed@.len() == 0 ==> r is Ok,
        failed@.len() > 0 ==> (r matches Err(RegistryError::FailedToUpgrade(m)) && m@ == upgrade_text(strs(failed@))),
{
    if failed.len() == 0 {
        return Ok(());
    }
    let mut m = "These canisters ".to_string();
    let word = join_with_commas(failed);
    m.append(word.as_str());
    m.append(" failed to be upgrade");
    Err(RegistryError::FailedToUpgrade(m))
}

impl Ledger {
    pub closed spec fn wf(&self) -> bool {
        &&& self.domains.wf()
        &&& self.customers.wf()
        &&& self.custodians.wf()
        &&& self.pending_canister.wf()
        &&& forall|c: Seq<u8>| #[trigger] self.customers@.contains_key(c) ==> self.customers@[c].wf()
    }

    /// The domain ids, in the order they were added.
    pub closed spec fn domain_order(&self) -> Seq<Seq<char>> {
        self.domains.keys()
    }

    /// The order lists each domain once.
    pub proof fn lemma_domain_order(&self)
        requires
            self.wf(),
        ensures
            self.domain_order().no_duplicates(),
            forall|d: Seq<char>| self@.domains.contains_key(d) <==> self.domain_order().contains(d),
    {
        self.domains.lemma_keys();
    }

    pub fn new() -> (r: Ledger)
        ensures
            r.wf(),
            r@.domains.is_empty(),
            r@.customers.is_empty(),
            r@.custodians.is_empty(),
            r@.pending.is_empty(),
    {
        let r = Ledger {
            domains: KeyMap::new(),
            customers: KeyMap::new(),
            custodians: KeyMap::new(),
            pending_canister: KeyMap::new(),
        };
        assert(r@.domains =~= Map::empty());
        assert(r@.customers =~= Map::empty());
        assert(r@.pending =~= Map::empty());
        r
    }

    /// The node that owns a domain.
    pub fn lookup_domain_name(&self, domain_name: String) -> (r: Result<String, RegistryError>)
        requires
            self.wf(),
        ensures
            !self@.domains.contains_key(domain_name@) ==> r == Err::<String, RegistryError>(RegistryError::NotFound),
            self@.domains.contains_key(domain_name@) ==> r is Ok && r->Ok_0@ == self@.domains[domain_name@],
    {
        match self.domains.get(&domain_name) {
            Some(node) => Ok(node.clone()),
            None => Err(RegistryError::NotFound),
        }
    }

    pub fn is_custodian(&self, principal_id: String) -> (r: Result<(), String>)
        requires
            self.wf(),
        ensures
            r is Ok <==> self@.custodians.contains(principal_id@),
    {
        if self.custodians.contains_key(&principal_id) {
            Ok(())
        } else {
            Err("You are not custodian".to_string())
        }
    }

    /// Adds a custodian, by the textual form of its identity.
    pub fn add_custodian(&mut self, principal_id: String)
        requires
            old(self).wf(),
        ensures
            final(self).wf(),
            final(self)@ == (RegistryModel { custodians: old(self)@.custodians.insert(principal_id@), ..old(self)@ }),
    {
        let ghost p = principal_id@;
        self.custodians.insert(principal_id, ());
        assert(self@.custodians =~= old(self)@.custodians.insert(p));
    }

    /// Notes a node whose code could not be installed, with its controller.
    pub fn add_to_pending_canister(&mut self, canister_id: Identity, principal: Identity)
        requires
            old(self).wf(),
        ensures
            final(self).wf(),
            final(self)@ == (RegistryModel { pending: old(self)@.pending.insert(canister_id@, principal@), ..old(self)@ }),
    {
        let ghost c = canister_id@;
        let ghost p = principal@;
        self.pending_canister.insert(canister_id, principal);
        assert(self@.pending =~= old(self)@.pending.insert(c, p));
    }

    /// Records the node that owns a domain.
    pub fn add_domain(&mut self, domain_name: String, principal_str: String)
        requires
            old(self).wf(),
        ensures
            final(self).wf(),
            final(self)@ == (RegistryModel {
                domains: old(self)@.domains.insert(domain_name@, principal_str@),
                ..old(self)@
            }),
    {
        let ghost d = domain_name@;
        let ghost p = principal_str@;
        self.domains.insert(domain_name, principal_str);
        assert(self@.domains =~= old(self)@.domains.insert(d, p));
    }

    /// The node of every domain, in the order the domains were added.
    pub fn get_all_domain_canisters(&self) -> (r: Vec<String>)
        requires
            self.wf(),
        ensures
            strs(r@) == self.domain_order().map_values(|d: Seq<char>| self@.domains[d]),
    {
        let ghost keys = self.domains.keys();
        let mut out: Vec<String> = Vec::new();
        let mut i: usize = 0;
        while i < self.domains.len()
            invariant
                self.wf(),
                keys == self.domains.keys(),
                i <= keys.len(),
                strs(out@) == keys.subrange(0, i as int).map_values(|d: Seq<char>| self@.domains[d]),
            decreases keys.len() - i,
        {
            let (_, node) = self.domains.entry_at(i);
            proof {
                self.domains.lemma_keys();
            }
            let ghost before = out@;
            out.push(node.clone());
            assert(strs(out@) =~= strs(before).push(node@));
            assert(keys.subrange(0, i + 1) =~= keys.subrange(0, i as int).push(keys[i as int]));
            assert(strs(out@) =~= keys.subrange(0, i + 1).map_values(|d: Seq<char>| self@.domains[d]));
            i = i + 1;
        }
        assert(keys.subrange(0, keys.len() as int) =~= keys);
        out
    }

    /// A sentence naming the node that owns a domain.
    pub fn get_domain_details(&self, domain_name: String) -> (r: Result<String, RegistryError>)
        requires
            self.wf(),
        ensures
            !self@.domains.contains_key(domain_name@) ==> r == Err::<String, RegistryError>(RegistryError::NotFound),
            self@.domains.contains_key(domain_name@) ==> r is Ok && r->Ok_0@ == "Domain: "@ + domain_name@
                + " is managed by canister: "@ + self@.domains[domain_name@],
    {
        match self.domains.get(&domain_name) {
            Some(details) => {
                let mut text = "Domain: ".to_string();
                text.append(domain_name.as_str());
                text.append(" is managed by canister: ");
                text.append(details.as_str());
                Ok(text)
            },
            None => Err(RegistryError::NotFound),
        }
    }

    /// The nodes a customer runs.
    pub fn lookup_user(&self, user: &Identity) -> (r: Result<Vec<String>, RegistryError>)
        requires
            self.wf(),
        ensures
            !self@.customers.contains_key(user@) ==> r == Err::<Vec<String>, RegistryError>(RegistryError::NotFound),
            self@.customers.contains_key(user@) ==> r is Ok && strs(r->Ok_0@) == self@.customers[user@],
    {
        let nodes = match self.customers.get(user) {
            Some(n) => n,
            None => {
                return Err(RegistryError::NotFound);
            },
        };
        let ghost keys = nodes.keys();
        let mut out: Vec<String> = Vec::new();
        let mut i: usize = 0;
        while i < nodes.len()
            invariant
                nodes.wf(),
                keys == nodes.keys(),
                i <= keys.len(),
                strs(out@) == keys.subrange(0, i as int),
            decreases keys.len() - i,
        {
            let (id, _) = nodes.entry_at(i);
            let ghost before = out@;
            out.push(id.clone());
            assert(strs(out@) =~= strs(before).push(id@));
            assert(strs(out@) =~= keys.subrange(0, i + 1));
            i = i + 1;
        }
        assert(keys.subrange(0, keys.len() as int) =~= keys);
        Ok(out)
    }

    /// Records what became of a newly created node: when its code is
    /// installed it owns the domain, else it waits with its controller.
    pub fn record_installation(
        &mut self,
        domain_name: String,
        controller: Identity,
        canister: Identity,
        canister_text: String,
        installed: bool,
    ) -> (r: Result<String, RegistryError>)
        requires
            old(self).wf(),
        ensures
            final(self).wf(),
            installed ==> r is Ok && r->Ok_0@ == canister_text@ && final(self)@ == (RegistryModel {
                domains: old(self)@.domains.insert(domain_name@, canister_text@),
                ..old(self)@
            }),
            !installed ==> (r matches Err(RegistryError::FailedToInstallCode(t)) && t@ == canister_text@)
                && final(self)@ == (RegistryModel {
                pending: old(self)@.pending.insert(canister@, controller@),
                ..old(self)@
            }),
    {
        if !installed {
            self.add_to_pending_canister(canister, controller);
            return Err(RegistryError::FailedToInstallCode(canister_text));
        }
        self.add_domain(domain_name, canister_text.clone());
        Ok(canister_text)
    }
}

impl Default for Ledger {
    fn default() -> (r: Ledger)
        ensures
            r.wf(),
            r@.domains.is_empty(),
            r@.customers.is_empty(),
            r@.custodians.is_empty(),
            r@.pending.is_empty(),
    {
        Ledger::new()
    }
}

} // verus!
