//! The authority store: the flat set of principals holding admin and
//! minting rights.

use vstd::prelude::*;

use crate::errors::CoreError;

verus! {

/// The set of principals with admin/minting rights.
///
/// On system initialization the deploying caller is inserted as the first
/// admin; afterwards only an existing admin may add another.  There is no
/// removal operation.
pub struct AuthorityStore {
    pub admins: Vec<u64>,
}

impl AuthorityStore {
    /// Whether `principal` holds admin rights.
    pub open spec fn spec_is_admin(self, principal: u64) -> bool {
        self.admins@.contains(principal)
    }

    /// Bootstraps the store with the deploying caller as the only admin.
    pub fn new(deployer: u64) -> (store: AuthorityStore)
        ensures
            store.admins@ =~= seq![deployer],
            store.spec_is_admin(deployer),
            forall|p: u64| store.spec_is_admin(p) ==> p == deployer,
    {
        let mut admins: Vec<u64> = Vec::new();
        admins.push(deployer);
        let store = AuthorityStore { admins };
        proof {
            assert(store.admins@[0] == deployer);
            assert forall|p: u64| store.spec_is_admin(p) implies p == deployer by {
                let i = choose|i: int| 0 <= i < store.admins@.len() && store.admins@[i] == p;
            }
        }
        store
    }

    /// Membership test consulted by every admin-gated operation.
    pub fn is_admin(&self, principal: u64) -> (r: bool)
        ensures
            r == self.spec_is_admin(principal),
    {
        let mut i: usize = 0;
        while i < self.admins.len()
            invariant
                i <= self.admins@.len(),
                forall|j: int| 0 <= j < i ==> self.admins@[j] != principal,
            decreases self.admins@.len() - i,
        {
            if self.admins[i] == principal {
                return true;
            }
            i = i + 1;
        }
        false
    }

    /// Inserts `principal` as an admin; only an existing admin may do so.
    pub fn add_admin(&mut self, caller: u64, principal: u64) -> (r: Result<(), CoreError>)
        ensures
            !old(self).spec_is_admin(caller) ==> {
                &&& r == Err::<(), CoreError>(CoreError::NotAuthorized)
                &&& final(self).admins@ == old(self).admins@
            },
            old(self).spec_is_admin(caller) ==> {
                &&& r == Ok::<(), CoreError>(())
                &&& final(self).admins@ == old(self).admins@.push(principal)
                &&& final(self).spec_is_admin(principal)
                &&& forall|p: u64|
                    final(self).spec_is_admin(p) == (old(self).spec_is_admin(p) || p == principal)
            },
    {
        if !self.is_admin(caller) {
            return Err(CoreError::NotAuthorized);
        }
        self.admins.push(principal);
        proof {
            assert forall|p: u64|
                self.spec_is_admin(p) == (old(self).spec_is_admin(p) || p == principal) by {
                if old(self).spec_is_admin(p) {
                    let i = choose|i: int|
                        0 <= i < old(self).admins@.len() && old(self).admins@[i] == p;
                    assert(self.admins@[i] == p);
                }
                if p == principal {
                    assert(self.admins@[self.admins@.len() - 1] == p);
                }
                if self.spec_is_admin(p) {
                    let i = choose|i: int| 0 <= i < self.admins@.len() && self.admins@[i] == p;
                    if i < self.admins@.len() - 1 {
                        assert(old(self).admins@[i] == p);
                    }
                }
            }
        }
        Ok(())
    }
}

} // verus!
