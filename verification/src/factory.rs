//! The factory: it hands out, for each manager that the host deploys, the
//! code to deploy and a salt that no earlier deployment had.

use vstd::prelude::*;
use vstd::arithmetic::div_mod::{lemma_mod_self_0, lemma_small_mod};
use vstd::arithmetic::power::pow;
use crate::address::{key_of, Address};
use crate::error::Error;

verus! {

/// The salt after `salt`: the bytes as one number with the first byte
/// highest, plus one, and back to zero after the highest number.
pub open spec fn next_salt(salt: Seq<u8>) -> Seq<u8>
    decreases salt.len(),
{
    if salt.len() == 0 {
        salt
    } else if salt.last() != 255 {
        salt.drop_last().push((salt.last() + 1) as u8)
    } else {
        next_salt(salt.drop_last()).push(0)
    }
}

/// Where the bytes of `salt` from place `i` on are all 255, the salt after
/// it is the salt after its first `i` bytes, followed by zeros.
pub proof fn lemma_next_salt_carries(salt: Seq<u8>, i: int)
    requires
        0 <= i <= salt.len(),
        forall|k: int| i <= k < salt.len() ==> salt[k] == 255,
    ensures
        next_salt(salt) == next_salt(salt.take(i)) + Seq::new(
            (salt.len() - i) as nat,
            |k: int| 0u8,
        ),
    decreases salt.len() - i,
{
    if i == salt.len() {
        assert(salt.take(i) =~= salt);
        assert(next_salt(salt) + Seq::new(0, |k: int| 0u8) =~= next_salt(salt));
    } else {
        let head = salt.drop_last();
        lemma_next_salt_carries(head, i);
        assert(head.take(i) =~= salt.take(i));
        assert((next_salt(salt.take(i)) + Seq::new((head.len() - i) as nat, |k: int| 0u8)).push(0)
            =~= next_salt(salt.take(i)) + Seq::new((salt.len() - i) as nat, |k: int| 0u8));
    }
}

/// What the host deploys for a new manager.
#[derive(Clone, Copy, Debug, PartialEq, Eq)]
pub struct Deployment {
    /// The hash of the code of the manager.
    pub wasm_hash: [u8; 32],
    /// The salt of the deployment.
    pub salt: [u8; 32],
}

/// The state of a factory.
pub struct FactoryState {
    /// The key of the owner, once the factory is initialized.
    pub owner: Option<Seq<u8>>,
    /// The hash of the code of the managers.
    pub wasm_hash: Seq<u8>,
    /// The salt of the last deployment.
    pub salt: Seq<u8>,
}

impl FactoryState {
    /// The state of a factory that has not been initialized: no owner, and
    /// hash and salt of 32 zero bytes.
    pub open spec fn fresh() -> FactoryState {
        FactoryState {
            owner: None,
            wasm_hash: Seq::new(32, |k: int| 0u8),
            salt: Seq::new(32, |k: int| 0u8),
        }
    }
}

/// The factory of vesting managers.
pub struct TokenVestingFactory {
    owner: Option<Address>,
    wasm_hash: [u8; 32],
    salt: [u8; 32],
}

impl View for TokenVestingFactory {
    type V = FactoryState;

    closed spec fn view(&self) -> FactoryState {
        FactoryState {
            owner: key_of(self.owner),
            wasm_hash: self.wasm_hash@,
            salt: self.salt@,
        }
    }
}

/// Whether the two hashes are equal.
fn same_hash(a: &[u8; 32], b: &[u8; 32]) -> (r: bool)
    ensures
        r == (a@ == b@),
{
    let mut i: usize = 0;
    while i < 32
        invariant
            i <= 32,
            forall|k: int| 0 <= k < i ==> a@[k] == b@[k],
        decreases 32 - i,
    {
        if a[i] != b[i] {
            return false;
        }
        i += 1;
    }
    assert(a@ =~= b@);
    true
}

impl TokenVestingFactory {
    /// A factory that has not been initialized: it has no owner, and its
    /// hash and its salt are zero.
    pub fn new() -> (f: TokenVestingFactory)
        ensures
            f@ == FactoryState::fresh(),
    {
        let f = TokenVestingFactory { owner: None, wasm_hash: [0u8;32], salt: [0u8;32] };
        assert(f.wasm_hash@ =~= Seq::new(32, |k: int| 0u8));
        assert(f.salt@ =~= Seq::new(32, |k: int| 0u8));
        f
    }

    /// The factory with the given owner, hash and salt, as a host that
    /// keeps them between operations hands them back.
    pub fn restore(owner: Address, wasm_hash: [u8; 32], salt: [u8; 32]) -> (f: TokenVestingFactory)
        ensures
            f@ == (FactoryState { owner: Some(owner@), wasm_hash: wasm_hash@, salt: salt@ }),
    {
        TokenVestingFactory { owner: Some(owner), wasm_hash, salt }
    }

    /// The salt of the last deployment.
    pub fn get_salt(&self) -> (salt: [u8; 32])
        ensures
            salt@ == self@.salt,
    {
        self.salt
    }

    /// Whether the factory has been initialized.
    pub fn is_initialized(&self) -> (r: bool)
        ensures
            r == (self@.owner is Some),
    {
        self.owner.is_some()
    }

    /// Initializes the factory with its owner and the hash of the code of
    /// the managers; the salt starts at zero. This succeeds once.
    pub fn init(&mut self, owner: Address, wasm_hash: [u8; 32]) -> (r: Result<(), Error>)
        ensures
            match r {
                Ok(()) => {
                    &&& old(self)@.owner is None
                    &&& final(self)@.owner == Some(owner@)
                    &&& final(self)@.wasm_hash == wasm_hash@
                    &&& final(self)@.salt == Seq::new(32, |k: int| 0u8)
                },
                Err(e) => {
                    &&& e == Error::AlreadyInitialized
                    &&& old(self)@.owner is Some
                    &&& final(self)@ == old(self)@
                },
            },
    {
        if self.owner.is_some() {
            return Err(Error::AlreadyInitialized);
        }
        self.owner = Some(owner);
        self.wasm_hash = wasm_hash;
        self.salt = [0u8;32];
        assert(self.salt@ =~= Seq::new(32, |k: int| 0u8));
        Ok(())
    }

    /// Moves the salt on and returns what the host deploys for a new
    /// manager: the code, under the new salt.
    pub fn new_token_vesting_manager(&mut self) -> (deployment: Deployment)
        requires
            old(self)@.owner is Some,
        ensures
            final(self)@.salt == next_salt(old(self)@.salt),
            final(self)@.owner == old(self)@.owner,
            final(self)@.wasm_hash == old(self)@.wasm_hash,
            deployment.salt@ == final(self)@.salt,
            deployment.wasm_hash@ == final(self)@.wasm_hash,
    {
        let ghost before = self.salt@;
        let mut salt: [u8; 32] = self.salt;
        let mut i: usize = 32;
        let mut carry: bool = true;
        while carry && i > 0
            invariant
                i <= 32,
                before.len() == 32,
                forall|k: int| i <= k < 32 && carry ==> before[k] == 255,
                carry ==> salt@ == before.take(i as int) + Seq::new(
                    (32 - i) as nat,
                    |k: int| 0u8,
                ),
                !carry ==> salt@ == next_salt(before),
            decreases i,
        {
            i -= 1;
            let byte: u8 = salt[i];
            assert(byte == before[i as int]);
            if byte != 255 {
                salt[i] = byte + 1;
                carry = false;
                proof {
                    lemma_next_salt_carries(before, i + 1);
                    assert(before.take(i + 1).drop_last() =~= before.take(i as int));
                    assert(salt@ =~= before.take(i as int).push((byte + 1) as u8) + Seq::new(
                        (32 - i - 1) as nat,
                        |k: int| 0u8,
                    ));
                }
            } else {
                salt[i] = 0;
                assert(salt@ =~= before.take(i as int) + Seq::new((32 - i) as nat, |k: int| 0u8));
            }
        }
        proof {
            if carry {
                lemma_next_salt_carries(before, 0);
                assert(before.take(0) =~= Seq::<u8>::empty());
            }
        }
        self.salt = salt;
        Deployment { wasm_hash: self.wasm_hash, salt }
    }

    /// Makes `new_owner` the owner on behalf of the owner `caller`; the
    /// owner must change.
    pub fn update_owner(&mut self, caller: &Address, new_owner: Address) -> (r: Result<(), Error>)
        requires
            old(self)@.owner is Some,
        ensures
            match r {
                Ok(()) => {
                    &&& old(self)@.owner == Some(caller@)
                    &&& new_owner@ != caller@
                    &&& final(self)@ == (FactoryState { owner: Some(new_owner@), ..old(self)@ })
                },
                Err(e) => {
                    &&& final(self)@ == old(self)@
                    &&& e == if old(self)@.owner != Some(caller@) {
                        Error::NotOwner
                    } else {
                        Error::AlreadyInState
                    }
                    &&& old(self)@.owner != Some(caller@) || new_owner@ == caller@
                },
            },
    {
        let current = self.get_owner();
        if !caller.same(&current) {
            return Err(Error::NotOwner);
        }
        if new_owner.same(&current) {
            return Err(Error::AlreadyInState);
        }
        self.owner = Some(new_owner);
        Ok(())
    }

    /// Makes `new_wasm_hash` the hash of the code of the managers on behalf
    /// of the owner `caller`; the hash must change.
    pub fn update_vesting_manager_wasm_hash(&mut self, caller: &Address, new_wasm_hash: [u8; 32]) -> (r:
        Result<(), Error>)
        requires
            old(self)@.owner is Some,
        ensures
            match r {
                Ok(()) => {
                    &&& old(self)@.owner == Some(caller@)
                    &&& new_wasm_hash@ != old(self)@.wasm_hash
                    &&& final(self)@ == (FactoryState {
                        wasm_hash: new_wasm_hash@,
                        ..old(self)@
                    })
                },
                Err(e) => {
                    &&& final(self)@ == old(self)@
                    &&& e == if old(self)@.owner != Some(caller@) {
                        Error::NotOwner
                    } else {
                        Error::AlreadyInState
                    }
                    &&& old(self)@.owner != Some(caller@) || new_wasm_hash@ == old(self)@.wasm_hash
                },
            },
    {
        let current = self.get_owner();
        if !caller.same(&current) {
            return Err(Error::NotOwner);
        }
        if same_hash(&new_wasm_hash, &self.wasm_hash) {
            return Err(Error::AlreadyInState);
        }
        self.wasm_hash = new_wasm_hash;
        Ok(())
    }

    /// The owner of the factory.
    pub fn get_owner(&self) -> (owner: Address)
        requires
            self@.owner is Some,
        ensures
            Some(owner@) == self@.owner,
    {
        match &self.owner {
            Some(owner) => owner.clone(),
            None => unreached(),
        }
    }

    /// The hash of the code of the managers.
    pub fn get_vesting_manager_wasm_hash(&self) -> (hash: [u8; 32])
        requires
            self@.owner is Some,
        ensures
            hash@ == self@.wasm_hash,
    {
        self.wasm_hash
    }
}


/// The number that the bytes of `salt` write, the first byte highest.
pub open spec fn salt_value(salt: Seq<u8>) -> nat
    decreases salt.len(),
{
    if salt.len() == 0 {
        0
    } else {
        salt_value(salt.drop_last()) * 256 + salt.last() as nat
    }
}

/// The salt after a salt has its length and writes the next number, and
/// zero after the highest number that the length can write.
pub proof fn lemma_next_salt_counts(salt: Seq<u8>)
    ensures
        next_salt(salt).len() == salt.len(),
        salt_value(salt) < pow(256, salt.len()),
        salt_value(next_salt(salt)) == (salt_value(salt) + 1) as int % pow(256, salt.len()),
    decreases salt.len(),
{
    reveal(pow);
    if salt.len() > 0 {
        let head = salt.drop_last();
        let high = pow(256, head.len());
        lemma_next_salt_counts(head);
        assert(pow(256, salt.len()) == 256 * high);
        if salt.last() != 255 {
            let next = head.push((salt.last() + 1) as u8);
            assert(next.drop_last() =~= head);
            lemma_small_mod(salt_value(salt) + 1, (256 * high) as nat);
        } else {
            let next = next_salt(head).push(0);
            assert(next.drop_last() =~= next_salt(head));
            if salt_value(head) + 1 < high {
                lemma_small_mod(salt_value(head) + 1, high as nat);
                lemma_small_mod(salt_value(salt) + 1, (256 * high) as nat);
            } else {
                lemma_mod_self_0(high);
                lemma_mod_self_0(256 * high);
            }
        }
    }
}

} // verus!
