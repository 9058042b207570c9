//! A registry that leases names for a week at a time against a locked fee.
//!
//! The registry decides; the caller holds the clock and the currency. It is
//! handed the time and the total issuance, and tells the caller whose fee to
//! release.

use crate::byte_table::ByteTable;
use crate::types::{copy_of, AccountId, Balance};
use vstd::prelude::*;

verus! {

/// A point in time, in milliseconds.
pub type Moment = u64;

/// The number of bytes that all names together may take; the fee prices one byte as this share of the issuance.
pub const TOTAL_BYTE_FOR_NAME: u32 = 4294967295;

/// How long a registration lasts: seven days in milliseconds.
pub const NAME_RENEW_TIMESTAMP: u32 = 604800000;

/// A registered name and the time at which its registration ends.
#[derive(Debug, PartialEq, Eq)]
pub struct Name {
    /// The name registered.
    pub name: Vec<u8>,
    /// The time from which the name is free again.
    pub expired: Moment,
}

/// Why the registry turned a call down.
#[derive(Clone, Copy, Debug, PartialEq, Eq, Structural)]
pub enum Error {
    /// The name is registered and its registration has not ended.
    NameAlreadyRegistered,
    /// The name is empty or too long.
    NameInvalid,
    /// The name is registered by someone else.
    NameRegisteredByOther,
    /// The registration has not ended yet.
    RegisteredTimeNotOver,
    /// The name is not registered.
    NameNotExist,
}

/// What the registry knows of a registered name.
#[derive(Clone, Copy, Debug, PartialEq, Eq, Structural)]
pub struct Registration {
    pub expired: Moment,
    pub owner: AccountId,
}

/// A successful registration.
#[derive(Clone, Copy, Debug, PartialEq, Eq, Structural)]
pub struct Registered {
    /// The time at which the new registration ends.
    pub expired: Moment,
    /// The owner of the ended registration that this one replaces: the
    /// caller releases that owner's fee.
    pub released: Option<AccountId>,
}

/// The fee for a name: one share of the issuance per byte. `None` for a name
/// that is empty or as long as the byte total.
pub open spec fn register_fee(name: Seq<u8>, total_issuance: Balance) -> Option<Balance> {
    if 0 < name.len() < TOTAL_BYTE_FOR_NAME {
        Some((total_issuance / (TOTAL_BYTE_FOR_NAME as Balance) * name.len()) as Balance)
    } else {
        None
    }
}

/// The fee never exceeds the issuance.
pub proof fn lemma_register_fee_bounded(name: Seq<u8>, total_issuance: Balance)
    requires
        0 < name.len() < TOTAL_BYTE_FOR_NAME,
    ensures
        total_issuance / (TOTAL_BYTE_FOR_NAME as Balance) * name.len() <= total_issuance,
{
    let share = total_issuance / (TOTAL_BYTE_FOR_NAME as Balance);
    let len = name.len() as int;
    assert(share * len <= share * 4294967295) by (nonlinear_arith)
        requires
            0 <= share,
            0 <= len <= 4294967295,
    ;
    assert(share * 4294967295 <= total_issuance) by (nonlinear_arith)
        requires
            share == total_issuance / 4294967295,
            0 <= total_issuance,
    ;
}

/// Checks a name and prices it.
pub fn check_and_calculate_register_fee(name: &Vec<u8>, total_issuance: Balance) -> (fee: Option<
    Balance,
>)
    ensures
        fee == register_fee(name@, total_issuance),
{
    if 0 < name.len() && name.len() < 4294967295 {
        proof {
            lemma_register_fee_bounded(name@, total_issuance);
        }
        Some(total_issuance / (TOTAL_BYTE_FOR_NAME as Balance) * (name.len() as Balance))
    } else {
        None
    }
}

/// The registry's state as plain mathematics: the registration of every registered name.
pub type RegistryView = Map<Seq<u8>, Registration>;

/// The registry of names.
pub struct Module {
    registrations: ByteTable<Registration>,
}

impl View for Module {
    type V = RegistryView;

    closed spec fn view(&self) -> RegistryView {
        self.registrations@
    }
}

/// Whether a registration is still running at `now`.
pub open spec fn is_running(r: Registration, now: Moment) -> bool {
    r.expired > now
}

/// The time at which a registration made or renewed at `now` ends.
pub open spec fn renewed_until(now: Moment) -> int {
    now + NAME_RENEW_TIMESTAMP
}

impl Module {
    /// A registry without names.
    pub fn new() -> (module: Module)
        ensures
            module@ == Map::<Seq<u8>, Registration>::empty(),
    {
        Module { registrations: ByteTable::new() }
    }

    /// The registration of a name, if the name is registered.
    pub fn names(&self, name: &Vec<u8>) -> (found: Option<Name>)
        ensures
            match found {
                Some(n) => self@.contains_key(name@) && n.name@ == name@ && n.expired
                    == self@[name@].expired,
                None => !self@.contains_key(name@),
            },
    {
        match self.registrations.get(name) {
            Some(r) => Some(Name { name: copy_of(name), expired: r.expired }),
            None => None,
        }
    }

    /// The owner of a name, if the name is registered.
    pub fn name_of(&self, name: &Vec<u8>) -> (owner: Option<AccountId>)
        ensures
            owner == if self@.contains_key(name@) {
                Some(self@[name@].owner)
            } else {
                None
            },
    {
        match self.registrations.get(name) {
            Some(r) => Some(r.owner),
            None => None,
        }
    }

    /// Registers a name for a week from `now`, for a caller who has locked
    /// the fee. A name whose registration is still running is not given
    /// away. A name whose registration has ended changes hands, and the
    /// result names the former owner, whose fee is to be released.
    pub fn register_name(&mut self, who: AccountId, name: &Vec<u8>, now: Moment) -> (result: Result<
        Registered,
        Error,
    >)
        requires
            renewed_until(now) <= u64::MAX,
        ensures
            result == register_verdict(old(self)@, name@, now),
            final(self)@ == if result is Ok {
                old(self)@.insert(
                    name@,
                    Registration { expired: renewed_until(now) as Moment, owner: who },
                )
            } else {
                old(self)@
            },
    {
        if !(0 < name.len() && name.len() < 4294967295) {
            return Err(Error::NameInvalid);
        }
        let released = match self.registrations.get(name) {
            Some(r) => {
                if r.expired > now {
                    return Err(Error::NameAlreadyRegistered);
                }
                Some(r.owner)
            },
            None => None,
        };
        let expired: Moment = now + NAME_RENEW_TIMESTAMP as u64;
        self.registrations.put(name, Registration { expired, owner: who });
        Ok(Registered { expired, released })
    }

    /// Gives up a name whose registration has ended. Only the owner can; on
    /// success the caller releases the owner's fee.
    pub fn ungister_name(&mut self, who: AccountId, name: &Vec<u8>, now: Moment) -> (result: Result<
        (),
        Error,
    >)
        ensures
            result == unregister_verdict(old(self)@, who, name@, now),
            final(self)@ == if result is Ok {
                old(self)@.remove(name@)
            } else {
                old(self)@
            },
    {
        let found = match self.registrations.get(name) {
            Some(r) => *r,
            None => {
                return Err(Error::NameNotExist);
            },
        };
        if found.expired > now {
            Err(Error::RegisteredTimeNotOver)
        } else if found.owner != who {
            Err(Error::NameRegisteredByOther)
        } else {
            self.registrations.remove(name);
            Ok(())
        }
    }

    /// Renews the registration of a name for a week from `now`. Only the owner can.
    pub fn renew_register_name(&mut self, who: AccountId, name: &Vec<u8>, now: Moment) -> (result:
        Result<Moment, Error>)
        requires
            renewed_until(now) <= u64::MAX,
        ensures
            result == renew_verdict(old(self)@, who, name@, now),
            final(self)@ == if result is Ok {
                old(self)@.insert(
                    name@,
                    Registration { expired: renewed_until(now) as Moment, owner: who },
                )
            } else {
                old(self)@
            },
    {
        let new_time: Moment = now + NAME_RENEW_TIMESTAMP as u64;
        let owner = match self.registrations.get(name) {
            Some(r) => r.owner,
            None => {
                return Err(Error::NameNotExist);
            },
        };
        if owner != who {
            Err(Error::NameRegisteredByOther)
        } else {
            self.registrations.put(name, Registration { expired: new_time, owner: who });
            Ok(new_time)
        }
    }
}

/// How a registration ends: the name must be valid and must not be under a
/// registration that is still running. Where it replaces a registration that
/// has ended, the result names the former owner.
pub open spec fn register_verdict(s: RegistryView, name: Seq<u8>, now: Moment) -> Result<
    Registered,
    Error,
> {
    if !(0 < name.len() < TOTAL_BYTE_FOR_NAME) {
        Err(Error::NameInvalid)
    } else if s.contains_key(name) && is_running(s[name], now) {
        Err(Error::NameAlreadyRegistered)
    } else {
        Ok(
            Registered {
                expired: renewed_until(now) as Moment,
                released: if s.contains_key(name) {
                    Some(s[name].owner)
                } else {
                    None
                },
            },
        )
    }
}

/// How giving up a name ends: the name must be registered, its registration
/// over, and the caller its owner.
pub open spec fn unregister_verdict(
    s: RegistryView,
    who: AccountId,
    name: Seq<u8>,
    now: Moment,
) -> Result<(), Error> {
    if !s.contains_key(name) {
        Err(Error::NameNotExist)
    } else if is_running(s[name], now) {
        Err(Error::RegisteredTimeNotOver)
    } else if s[name].owner != who {
        Err(Error::NameRegisteredByOther)
    } else {
        Ok(())
    }
}

/// How a renewal ends: the name must be registered and the caller its owner.
pub open spec fn renew_verdict(s: RegistryView, who: AccountId, name: Seq<u8>, now: Moment) -> Result<
    Moment,
    Error,
> {
    if !s.contains_key(name) {
        Err(Error::NameNotExist)
    } else if s[name].owner != who {
        Err(Error::NameRegisteredByOther)
    } else {
        Ok(renewed_until(now) as Moment)
    }
}

} // verus!
