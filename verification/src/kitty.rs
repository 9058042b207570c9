//! A ledger of collectible kitties: who owns which, and how two of them breed a third.
//!
//! The ledger decides; the caller supplies the entropy that names and shapes a new kitty.

use crate::byte_table::ByteTable;
use crate::types::{copy_of, AccountId, Balance};
use std::collections::HashMap;
use vstd::prelude::*;

verus! {

broadcast use vstd::std_specs::hash::group_hash_axioms;

/// The identity of a kitty, and the shape of its genes: 32 bytes.
pub type Hash = [u8; 32];

/// A collectible.
#[derive(Clone, Copy, Debug, PartialEq, Eq)]
pub struct Kitty {
    id: Hash,
    dna: Hash,
    price: Balance,
    gen: u64,
}

impl Kitty {
    /// The kitty's identity.
    pub fn id(&self) -> (id: Hash)
        ensures
            id == self.spec_id(),
    {
        self.id
    }

    /// The kitty's genes.
    pub fn dna(&self) -> (dna: Hash)
        ensures
            dna == self.spec_dna(),
    {
        self.dna
    }

    /// The kitty's price.
    pub fn price(&self) -> (price: Balance)
        ensures
            price == self.spec_price(),
    {
        self.price
    }

    /// The kitty's generation: 0 for a created kitty, one more than the older parent's for a bred one.
    pub fn gen(&self) -> (gen: u64)
        ensures
            gen == self.spec_gen(),
    {
        self.gen
    }

    /// The kitty's identity.
    pub closed spec fn spec_id(&self) -> Hash {
        self.id
    }

    /// The kitty's genes.
    pub closed spec fn spec_dna(&self) -> Hash {
        self.dna
    }

    /// The kitty's price.
    pub closed spec fn spec_price(&self) -> Balance {
        self.price
    }

    /// The kitty's generation.
    pub closed spec fn spec_gen(&self) -> u64 {
        self.gen
    }
}

/// Why the ledger turned a call down.
#[derive(Clone, Copy, Debug, PartialEq, Eq, Structural)]
pub enum Error {
    /// A kitty with the drawn identity exists.
    CreatedKittyExist,
    /// A parent does not exist or belongs to someone else.
    KittyNotExist,
}

/// A kitty and its owner.
#[derive(Clone, Copy)]
pub struct Holding {
    pub kitty: Kitty,
    pub owner: AccountId,
}

/// The ledger's state as plain mathematics.
pub struct KittiesView {
    /// Every kitty with its owner, by identity.
    pub holdings: Map<Seq<u8>, Holding>,
    /// The identities that each participant was given, oldest first; empty for a participant without any.
    pub owned: Map<AccountId, Seq<Hash>>,
}

/// The genes of a child: byte by byte those of the second parent where the
/// entropy byte is even, and those of the first parent where it is odd.
pub open spec fn mixed_dna(dna_1: Hash, dna_2: Hash, r: Hash) -> Seq<u8> {
    Seq::new(
        32,
        |i: int|
            if r@[i] % 2 == 0 {
                dna_2@[i]
            } else {
                dna_1@[i]
            },
    )
}

/// The larger of two generations.
pub open spec fn elder(gen_1: u64, gen_2: u64) -> u64 {
    if gen_1 >= gen_2 {
        gen_1
    } else {
        gen_2
    }
}

/// Mixes the genes of two parents under the given entropy.
pub fn mix_dna(dna_1: &Hash, dna_2: &Hash, r: &Hash) -> (child: Hash)
    ensures
        child@ == mixed_dna(*dna_1, *dna_2, *r),
{
    let mut final_dna: Hash = *dna_1;
    let mut i: usize = 0;
    while i < 32
        invariant
            i <= 32,
            forall|j: int|
                0 <= j < i ==> final_dna@[j] == if r@[j] % 2 == 0 {
                    dna_2@[j]
                } else {
                    dna_1@[j]
                },
            forall|j: int| i <= j < 32 ==> final_dna@[j] == dna_1@[j],
        decreases 32 - i,
    {
        if r[i] % 2 == 0 {
            final_dna[i] = dna_2[i];
        }
        i = i + 1;
    }
    proof {
        assert(final_dna@ =~= mixed_dna(*dna_1, *dna_2, *r));
    }
    final_dna
}

/// The bytes of an identity as a list.
fn bytes_of(hash: &Hash) -> (bytes: Vec<u8>)
    ensures
        bytes@ == hash@,
{
    let mut bytes: Vec<u8> = Vec::new();
    let mut i: usize = 0;
    while i < 32
        invariant
            i <= 32,
            bytes@ == hash@.take(i as int),
        decreases 32 - i,
    {
        bytes.push(hash[i]);
        proof {
            assert(hash@.take(i + 1) =~= hash@.take(i as int).push(hash@[i as int]));
        }
        i = i + 1;
    }
    proof {
        assert(hash@.take(i as int) =~= hash@);
    }
    bytes
}

/// The ledger of kitties.
pub struct Module {
    holdings: ByteTable<Holding>,
    owned: HashMap<AccountId, Vec<Hash>>,
}

impl View for Module {
    type V = KittiesView;

    closed spec fn view(&self) -> KittiesView {
        KittiesView {
            holdings: self.holdings@,
            owned: Map::total(
                |who: AccountId|
                    if self.owned@.contains_key(who) {
                        self.owned@[who]@
                    } else {
                        Seq::empty()
                    },
            ),
        }
    }
}

/// Whether a participant owns the kitty of an identity.
pub open spec fn owns(s: KittiesView, who: AccountId, id: Hash) -> bool {
    s.holdings.contains_key(id@) && s.holdings[id@].owner == who
}

/// The ledger after `owner` was given the kitty `kitty` under the identity `id`.
pub open spec fn with_kitty(s: KittiesView, owner: AccountId, id: Hash, kitty: Kitty) -> KittiesView {
    KittiesView {
        holdings: s.holdings.insert(id@, Holding { kitty, owner }),
        owned: s.owned.insert(owner, s.owned[owner].push(id)),
    }
}

impl Module {
    /// A ledger without kitties.
    pub fn new() -> (module: Module)
        ensures
            module@.holdings == Map::<Seq<u8>, Holding>::empty(),
            module@.owned == Map::total(|who: AccountId| Seq::<Hash>::empty()),
    {
        let module = Module { holdings: ByteTable::new(), owned: HashMap::new() };
        proof {
            assert(module@.owned =~= Map::total(|who: AccountId| Seq::<Hash>::empty()));
        }
        module
    }

    /// The kitty of an identity, if there is one.
    pub fn kitties(&self, id: &Hash) -> (kitty: Option<Kitty>)
        ensures
            kitty == if self@.holdings.contains_key(id@) {
                Some(self@.holdings[id@].kitty)
            } else {
                None
            },
    {
        let key = bytes_of(id);
        match self.holdings.get(&key) {
            Some(h) => Some(h.kitty),
            None => None,
        }
    }

    /// The owner of the kitty of an identity, if there is one.
    pub fn owner_of(&self, id: &Hash) -> (owner: Option<AccountId>)
        ensures
            owner == if self@.holdings.contains_key(id@) {
                Some(self@.holdings[id@].owner)
            } else {
                None
            },
    {
        let key = bytes_of(id);
        match self.holdings.get(&key) {
            Some(h) => Some(h.owner),
            None => None,
        }
    }

    /// The identities that a participant was given, oldest first.
    pub fn kitty_of_owner(&self, who: AccountId) -> (ids: Vec<Hash>)
        ensures
            ids@ == self@.owned[who],
    {
        match self.owned.get(&who) {
            Some(list) => copy_of(list),
            None => Vec::new(),
        }
    }

    /// Enters a kitty under its identity and adds the identity to the owner's list.
    fn give(&mut self, owner: AccountId, id: &Hash, kitty: Kitty)
        ensures
            final(self)@ == with_kitty(old(self)@, owner, *id, kitty),
    {
        let key = bytes_of(id);
        self.holdings.put(&key, Holding { kitty, owner });
        let mut list = match self.owned.remove(&owner) {
            Some(l) => l,
            None => Vec::new(),
        };
        proof {
            assert(list@ =~= old(self)@.owned[owner]);
        }
        list.push(*id);
        self.owned.insert(owner, list);
        proof {
            assert(final(self)@.owned =~= old(self)@.owned.insert(
                owner,
                old(self)@.owned[owner].push(*id),
            ));
        }
    }

    /// Creates a kitty of generation 0 whose identity and genes are the
    /// given entropy, unless a kitty of that identity exists.
    pub fn create_kitty(&mut self, owner: AccountId, r: Hash) -> (result: Result<(), Error>)
        ensures
            old(self)@.holdings.contains_key(r@) ==> result == Err::<(), Error>(
                Error::CreatedKittyExist,
            ) && final(self)@ == old(self)@,
            !old(self)@.holdings.contains_key(r@) ==> {
                &&& result == Ok::<(), Error>(())
                &&& final(self)@.holdings.contains_key(r@)
                &&& final(self)@ == with_kitty(old(self)@, owner, r, final(self)@.holdings[r@].kitty)
                &&& final(self)@.holdings[r@].kitty.spec_id() == r
                &&& final(self)@.holdings[r@].kitty.spec_dna() == r
                &&& final(self)@.holdings[r@].kitty.spec_price() == 0
                &&& final(self)@.holdings[r@].kitty.spec_gen() == 0
            },
    {
        if self.owner_of(&r).is_some() {
            return Err(Error::CreatedKittyExist);
        }
        let new_kitty = Kitty { id: r, dna: r, price: 0, gen: 0 };
        self.give(owner, &r, new_kitty);
        Ok(())
    }

    /// Breeds a kitty from two kitties of one owner. The child takes the
    /// given entropy as its identity, a mix of its parents' genes under that
    /// entropy, and the generation after that of its older parent. It takes
    /// the place of a kitty that had its identity before.
    pub fn breed_kitty(&mut self, owner: AccountId, kitty_id_1: Hash, kitty_id_2: Hash, r: Hash) -> (result:
        Result<(), Error>)
        requires
            owns(old(self)@, owner, kitty_id_1) && owns(old(self)@, owner, kitty_id_2) ==> elder(
                old(self)@.holdings[kitty_id_1@].kitty.spec_gen(),
                old(self)@.holdings[kitty_id_2@].kitty.spec_gen(),
            ) < u64::MAX,
        ensures
            !(owns(old(self)@, owner, kitty_id_1) && owns(old(self)@, owner, kitty_id_2)) ==> result
                == Err::<(), Error>(Error::KittyNotExist) && final(self)@ == old(self)@,
            owns(old(self)@, owner, kitty_id_1) && owns(old(self)@, owner, kitty_id_2) ==> {
                let kitty_1 = old(self)@.holdings[kitty_id_1@].kitty;
                let kitty_2 = old(self)@.holdings[kitty_id_2@].kitty;
                &&& result == Ok::<(), Error>(())
                &&& final(self)@.holdings.contains_key(r@)
                &&& final(self)@ == with_kitty(old(self)@, owner, r, final(self)@.holdings[r@].kitty)
                &&& final(self)@.holdings[r@].kitty.spec_id() == r
                &&& final(self)@.holdings[r@].kitty.spec_dna()@ == mixed_dna(
                    kitty_1.spec_dna(),
                    kitty_2.spec_dna(),
                    r,
                )
                &&& final(self)@.holdings[r@].kitty.spec_price() == 0
                &&& final(self)@.holdings[r@].kitty.spec_gen() == elder(
                    kitty_1.spec_gen(),
                    kitty_2.spec_gen(),
                ) + 1
            },
    {
        let key_1 = bytes_of(&kitty_id_1);
        let key_2 = bytes_of(&kitty_id_2);
        let kitty_1 = match self.holdings.get(&key_1) {
            Some(h) => {
                if h.owner != owner {
                    return Err(Error::KittyNotExist);
                }
                h.kitty
            },
            None => {
                return Err(Error::KittyNotExist);
            },
        };
        let kitty_2 = match self.holdings.get(&key_2) {
            Some(h) => {
                if h.owner != owner {
                    return Err(Error::KittyNotExist);
                }
                h.kitty
            },
            None => {
                return Err(Error::KittyNotExist);
            },
        };
        let final_dna = mix_dna(&kitty_1.dna, &kitty_2.dna, &r);
        let older: u64 = if kitty_1.gen >= kitty_2.gen {
            kitty_1.gen
        } else {
            kitty_2.gen
        };
        let new_kitty = Kitty { id: r, dna: final_dna, price: 0, gen: older + 1 };
        self.give(owner, &r, new_kitty);
        Ok(())
    }
}

} // verus!
