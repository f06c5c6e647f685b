//! The testnet onboarding faucet: enrols callers in the allowlist and, when
//! it can mint the pool's token, drips some to them, at most once per
//! cooldown per recipient.
use vstd::prelude::*;
use crate::address::Address;
use crate::uint::U256;

verus! {

/// Failures of the faucet.
#[derive(Clone, Copy, Debug, PartialEq, Eq, Structural)]
pub enum Error {
    NotInitialized,
    CooldownActive,
    InvalidAmount,
    NoTokenConfigured,
}

/// Published when a recipient is onboarded.
#[derive(Clone, Copy, Debug, PartialEq, Eq, Structural)]
pub struct OnboardEvent {
    pub to: Address,
    /// Amount minted; zero when the faucet only enrols.
    pub amount: i128,
    /// The allowlist leaf enrolled.
    pub leaf: U256,
}

/// What an accepted onboarding asks of the outside world: enrol `leaf` in the
/// allowlist at `asp`, mint `amount` of `token` to the recipient when a token
/// is configured, and publish `event`.
#[derive(Clone, Copy, Debug, PartialEq, Eq, Structural)]
pub struct Onboarding {
    pub asp: Address,
    pub leaf: U256,
    pub token: Option<Address>,
    pub amount: i128,
    pub event: OnboardEvent,
}

/// `last + cooldown`, saturating at `u32::MAX`.
pub open spec fn cooldown_end(last: u32, cooldown: u32) -> int {
    if last + cooldown > u32::MAX {
        u32::MAX as int
    } else {
        last + cooldown
    }
}

/// The faucet's persistent state.
pub struct Faucet {
    admin: Address,
    token: Option<Address>,
    asp: Address,
    drip_amount: i128,
    cooldown_ledgers: u32,
    last_drip: Vec<(Address, u32)>,
    drips: Ghost<Map<Address, u32>>,
}

impl Faucet {
    /// The administrator.
    pub closed spec fn admin_spec(&self) -> Address {
        self.admin
    }

    /// The token the faucet mints, if any.
    pub closed spec fn token_spec(&self) -> Option<Address> {
        self.token
    }

    /// The allowlist the faucet enrols into.
    pub closed spec fn asp_spec(&self) -> Address {
        self.asp
    }

    /// Amount minted per call.
    pub closed spec fn drip_amount_spec(&self) -> i128 {
        self.drip_amount
    }

    /// Minimum ledgers between two calls for one recipient.
    pub closed spec fn cooldown_spec(&self) -> u32 {
        self.cooldown_ledgers
    }

    /// The ledger of each recipient's last accepted call.
    pub closed spec fn last_drips(&self) -> Map<Address, u32> {
        self.drips@
    }

    /// The recipient table agrees with its map view and holds each recipient
    /// once.
    pub closed spec fn wf(&self) -> bool {
        &&& forall|i: int|
            0 <= i < self.last_drip@.len() ==> #[trigger] self.drips@.contains_key(
                self.last_drip@[i].0,
            ) && self.drips@[self.last_drip@[i].0] == self.last_drip@[i].1
        &&& forall|a: Address| #[trigger]
            self.drips@.contains_key(a) ==> exists|i: int|
                0 <= i < self.last_drip@.len() && self.last_drip@[i].0 == a
        &&& forall|i: int, j: int|
            0 <= i < j < self.last_drip@.len() ==> self.last_drip@[i].0 != self.last_drip@[j].0
    }

    /// Why a call for `to` at ledger `now` is refused by the cooldown, if it
    /// is.
    pub open spec fn cooldown_refusal(&self, to: Address, now: u32) -> Option<Error> {
        if self.last_drips().contains_key(to) && now < cooldown_end(
            self.last_drips()[to],
            self.cooldown_spec(),
        ) {
            Some(Error::CooldownActive)
        } else {
            None
        }
    }

    /// Creates the faucet; a faucet that mints must mint a positive amount.
    pub fn new(
        admin: Address,
        token: Option<Address>,
        asp: Address,
        drip_amount: i128,
        cooldown_ledgers: u32,
    ) -> (r: Result<Faucet, Error>)
        ensures
            r is Err <==> token is Some && drip_amount <= 0,
            r is Err ==> r == Err::<Faucet, Error>(Error::InvalidAmount),
            r matches Ok(f) ==> {
                &&& f.wf()
                &&& f.admin_spec() == admin
                &&& f.token_spec() == token
                &&& f.asp_spec() == asp
                &&& f.drip_amount_spec() == drip_amount
                &&& f.cooldown_spec() == cooldown_ledgers
                &&& f.last_drips() == Map::<Address, u32>::empty()
            },
    {
        if token.is_some() && drip_amount <= 0 {
            return Err(Error::InvalidAmount);
        }
        Ok(
            Faucet {
                admin,
                token,
                asp,
                drip_amount,
                cooldown_ledgers,
                last_drip: Vec::new(),
                drips: Ghost(Map::empty()),
            },
        )
    }

    /// The ledger of `to`'s last accepted call, if any.
    fn last_drip_of(&self, to: &Address) -> (r: Option<u32>)
        requires
            self.wf(),
        ensures
            r is Some <==> self.last_drips().contains_key(*to),
            r matches Some(l) ==> l == self.last_drips()[*to],
    {
        let mut i: usize = 0;
        while i < self.last_drip.len()
            invariant
                self.wf(),
                i <= self.last_drip@.len(),
                forall|j: int| 0 <= j < i ==> self.last_drip@[j].0 != *to,
            decreases self.last_drip@.len() - i,
        {
            if self.last_drip[i].0 == *to {
                return Some(self.last_drip[i].1);
            }
            i = i + 1;
        }
        proof {
            if self.drips@.contains_key(*to) {
                let k = choose|k: int| 0 <= k < self.last_drip@.len() && self.last_drip@[k].0 == *to;
                assert(false);
            }
        }
        None
    }

    /// Records `now` as `to`'s last accepted call.
    fn record_drip(&mut self, to: Address, now: u32)
        requires
            old(self).wf(),
        ensures
            final(self).wf(),
            final(self).last_drips() == old(self).last_drips().insert(to, now),
            final(self).admin == old(self).admin,
            final(self).token == old(self).token,
            final(self).asp == old(self).asp,
            final(self).drip_amount == old(self).drip_amount,
            final(self).cooldown_ledgers == old(self).cooldown_ledgers,
    {
        let ghost new_map = self.drips@.insert(to, now);
        let mut i: usize = 0;
        while i < self.last_drip.len()
            invariant
                self.wf(),
                self.last_drip == old(self).last_drip,
                self.drips == old(self).drips,
                self.admin == old(self).admin,
                self.token == old(self).token,
                self.asp == old(self).asp,
                self.drip_amount == old(self).drip_amount,
                self.cooldown_ledgers == old(self).cooldown_ledgers,
                i <= self.last_drip@.len(),
                forall|j: int| 0 <= j < i ==> self.last_drip@[j].0 != to,
                new_map == old(self).drips@.insert(to, now),
            decreases self.last_drip@.len() - i,
        {
            if self.last_drip[i].0 == to {
                self.last_drip.set(i, (to, now));
                self.drips = Ghost(new_map);
                proof {
                    assert forall|a: Address| #[trigger]
                        self.drips@.contains_key(a) implies exists|k: int|
                        0 <= k < self.last_drip@.len() && self.last_drip@[k].0 == a by {
                        if a != to {
                            assert(old(self).drips@.contains_key(a));
                            let k = choose|k: int|
                                0 <= k < old(self).last_drip@.len() && old(self).last_drip@[k].0
                                    == a;
                            assert(old(self).last_drip@[i as int].0 == to);
                            assert(k != i);
                            assert(self.last_drip@[k].0 == a);
                        } else {
                            assert(self.last_drip@[i as int].0 == a);
                        }
                    }
                    assert forall|k: int| 0 <= k < self.last_drip@.len() implies #[trigger]
                        self.drips@.contains_key(self.last_drip@[k].0)
                            && self.drips@[self.last_drip@[k].0] == self.last_drip@[k].1 by {
                        if k != i {
                            assert(old(self).drips@.contains_key(old(self).last_drip@[k].0));
                            assert(old(self).last_drip@[k].0 != old(self).last_drip@[i as int].0);
                        }
                    }
                    assert forall|k: int, j: int| 0 <= k < j < self.last_drip@.len() implies
                        self.last_drip@[k].0 != self.last_drip@[j].0 by {
                        assert(old(self).last_drip@[k].0 != old(self).last_drip@[j].0);
                    }
                }
                return;
            }
            i = i + 1;
        }
        self.last_drip.push((to, now));
        self.drips = Ghost(new_map);
        proof {
            assert forall|a: Address| #[trigger]
                self.drips@.contains_key(a) implies exists|k: int|
                0 <= k < self.last_drip@.len() && self.last_drip@[k].0 == a by {
                if a != to {
                    let k = choose|k: int|
                        0 <= k < old(self).last_drip@.len() && old(self).last_drip@[k].0 == a;
                    assert(self.last_drip@[k].0 == a);
                } else {
                    assert(self.last_drip@[self.last_drip@.len() - 1].0 == a);
                }
            }
            let last = self.last_drip@.len() - 1;
            assert forall|k: int| 0 <= k < self.last_drip@.len() implies #[trigger]
                self.drips@.contains_key(self.last_drip@[k].0) && self.drips@[self.last_drip@[k].0]
                    == self.last_drip@[k].1 by {
                if k != last {
                    assert(old(self).drips@.contains_key(old(self).last_drip@[k].0));
                    assert(old(self).last_drip@[k].0 != to);
                }
            }
            assert forall|k: int, j: int| 0 <= k < j < self.last_drip@.len() implies self.last_drip@[
                k].0 != self.last_drip@[j].0 by {
                if j != last {
                    assert(old(self).last_drip@[k].0 != old(self).last_drip@[j].0);
                } else {
                    assert(old(self).last_drip@[k].0 != to);
                }
            }
        }
    }

    /// Enforces the cooldown for `to` at ledger `now`, records the call, and
    /// returns the amount to mint: the drip when a token is configured, zero
    /// otherwise.
    fn drip_with_cooldown(&mut self, to: Address, now: u32) -> (r: Result<i128, Error>)
        requires
            old(self).wf(),
        ensures
            old(self).cooldown_refusal(to, now) matches Some(e) ==> r == Err::<i128, Error>(e)
                && *final(self) == *old(self),
            r is Ok <==> old(self).cooldown_refusal(to, now) is None,
            r is Err <==> (old(self).last_drips().contains_key(to) && now < old(self).last_drips()[to]
                + old(self).cooldown_spec() && now < u32::MAX),
            r matches Ok(a) ==> {
                &&& final(self).wf()
                &&& final(self).last_drips() == old(self).last_drips().insert(to, now)
                &&& final(self).same_settings(old(self))
                &&& a == (if old(self).token_spec() is Some {
                    old(self).drip_amount_spec()
                } else {
                    0
                })
            },
    {
        let cooldown = self.cooldown_ledgers;
        match self.last_drip_of(&to) {
            Some(last) => {
                let end = if last > u32::MAX - cooldown {
                    u32::MAX
                } else {
                    last + cooldown
                };
                if now < end {
                    return Err(Error::CooldownActive);
                }
            },
            None => {},
        }
        self.record_drip(to, now);
        if self.token.is_none() {
            return Ok(0);
        }
        Ok(self.drip_amount)
    }

    /// Onboards `to` at ledger `now`: enforces the cooldown, then asks for
    /// `membership_leaf` to be enrolled and, when a token is configured, for
    /// the drip to be minted.
    pub fn onboard(&mut self, to: Address, membership_leaf: U256, now: u32) -> (r: Result<
        Onboarding,
        Error,
    >)
        requires
            old(self).wf(),
        ensures
            old(self).cooldown_refusal(to, now) matches Some(e) ==> r == Err::<Onboarding, Error>(e)
                && *final(self) == *old(self),
            r is Ok <==> old(self).cooldown_refusal(to, now) is None,
            r is Err <==> (old(self).last_drips().contains_key(to) && now < old(self).last_drips()[to]
                + old(self).cooldown_spec() && now < u32::MAX),
            r matches Ok(o) ==> {
                let amount = if old(self).token_spec() is Some {
                    old(self).drip_amount_spec()
                } else {
                    0
                };
                &&& final(self).wf()
                &&& final(self).last_drips() == old(self).last_drips().insert(to, now)
                &&& final(self).same_settings(old(self))
                &&& o == (Onboarding {
                    asp: old(self).asp_spec(),
                    leaf: membership_leaf,
                    token: old(self).token_spec(),
                    amount,
                    event: OnboardEvent { to, amount, leaf: membership_leaf },
                })
            },
    {
        let amount = self.drip_with_cooldown(to, now)?;
        Ok(
            Onboarding {
                asp: self.asp,
                leaf: membership_leaf,
                token: self.token,
                amount,
                event: OnboardEvent { to, amount, leaf: membership_leaf },
            },
        )
    }

    /// Drips to `to` at ledger `now` without enrolling; refused when no token
    /// is configured. Returns the amount to mint.
    pub fn drip(&mut self, to: Address, now: u32) -> (r: Result<i128, Error>)
        requires
            old(self).wf(),
        ensures
            old(self).token_spec() is None ==> r == Err::<i128, Error>(Error::NoTokenConfigured),
            old(self).token_spec() is Some ==> (old(self).cooldown_refusal(to, now) matches Some(e)
                ==> r == Err::<i128, Error>(e)),
            r is Err ==> *final(self) == *old(self),
            r is Ok <==> old(self).token_spec() is Some && old(self).cooldown_refusal(to, now) is None,
            old(self).token_spec() is Some ==> (r is Err <==> (old(self).last_drips().contains_key(to) && now < old(self).last_drips()[to]
                + old(self).cooldown_spec() && now < u32::MAX)),
            r matches Ok(a) ==> {
                &&& final(self).wf()
                &&& final(self).last_drips() == old(self).last_drips().insert(to, now)
                &&& final(self).same_settings(old(self))
                &&& a == old(self).drip_amount_spec()
            },
    {
        if self.token.is_none() {
            return Err(Error::NoTokenConfigured);
        }
        self.drip_with_cooldown(to, now)
    }

    /// Sets the drip amount and the cooldown; the amount must be positive. The
    /// caller has checked the administrator's authorisation.
    pub fn set_drip(&mut self, drip_amount: i128, cooldown_ledgers: u32) -> (r: Result<(), Error>)
        requires
            old(self).wf(),
        ensures
            r is Err <==> drip_amount <= 0,
            r is Err ==> r == Err::<(), Error>(Error::InvalidAmount) && *final(self) == *old(self),
            r is Ok ==> {
                &&& final(self).wf()
                &&& final(self).drip_amount_spec() == drip_amount
                &&& final(self).cooldown_spec() == cooldown_ledgers
                &&& final(self).admin_spec() == old(self).admin_spec()
                &&& final(self).token_spec() == old(self).token_spec()
                &&& final(self).asp_spec() == old(self).asp_spec()
                &&& final(self).last_drips() == old(self).last_drips()
            },
    {
        if drip_amount <= 0 {
            return Err(Error::InvalidAmount);
        }
        self.drip_amount = drip_amount;
        self.cooldown_ledgers = cooldown_ledgers;
        proof {
            self.lemma_wf_frame(old(self));
        }
        Ok(())
    }

    /// Hands the administrator role to `new_admin`; the caller has checked
    /// the current administrator's authorisation.
    pub fn update_admin(&mut self, new_admin: Address)
        requires
            old(self).wf(),
        ensures
            final(self).wf(),
            final(self).admin_spec() == new_admin,
            final(self).token_spec() == old(self).token_spec(),
            final(self).asp_spec() == old(self).asp_spec(),
            final(self).drip_amount_spec() == old(self).drip_amount_spec(),
            final(self).cooldown_spec() == old(self).cooldown_spec(),
            final(self).last_drips() == old(self).last_drips(),
    {
        self.admin = new_admin;
        proof {
            self.lemma_wf_frame(old(self));
        }
    }

    /// The administrator, whose authorisation admin operations need.
    pub fn admin(&self) -> (r: Address)
        ensures
            r == self.admin_spec(),
    {
        self.admin
    }

    /// The token the faucet mints, if any.
    pub fn token(&self) -> (r: Option<Address>)
        ensures
            r == self.token_spec(),
    {
        self.token
    }

    /// The configured drip amount.
    pub fn drip_amount(&self) -> (r: i128)
        ensures
            r == self.drip_amount_spec(),
    {
        self.drip_amount
    }

    /// The configured cooldown, in ledgers.
    pub fn cooldown_ledgers(&self) -> (r: u32)
        ensures
            r == self.cooldown_spec(),
    {
        self.cooldown_ledgers
    }

    /// Well-formedness depends on the recipient table alone.
    proof fn lemma_wf_frame(&self, other: &Self)
        requires
            other.wf(),
            self.last_drip@ == other.last_drip@,
            self.drips@ == other.drips@,
        ensures
            self.wf(),
    {
        assert forall|i: int| 0 <= i < self.last_drip@.len() implies #[trigger]
            self.drips@.contains_key(self.last_drip@[i].0) && self.drips@[self.last_drip@[i].0]
                == self.last_drip@[i].1 by {
            assert(other.drips@.contains_key(other.last_drip@[i].0));
        }
        assert forall|a: Address| #[trigger] self.drips@.contains_key(a) implies exists|i: int|
            0 <= i < self.last_drip@.len() && self.last_drip@[i].0 == a by {
            assert(other.drips@.contains_key(a));
            let i = choose|i: int| 0 <= i < other.last_drip@.len() && other.last_drip@[i].0 == a;
            assert(self.last_drip@[i].0 == a);
        }
        assert forall|i: int, j: int| 0 <= i < j < self.last_drip@.len() implies self.last_drip@[i].0
            != self.last_drip@[j].0 by {
            assert(other.last_drip@[i].0 != other.last_drip@[j].0);
        }
    }

    /// The settings are unchanged between the two states.
    pub open spec fn same_settings(&self, other: &Self) -> bool {
        &&& self.admin_spec() == other.admin_spec()
        &&& self.token_spec() == other.token_spec()
        &&& self.asp_spec() == other.asp_spec()
        &&& self.drip_amount_spec() == other.drip_amount_spec()
        &&& self.cooldown_spec() == other.cooldown_spec()
    }
}

/// After an accepted call for `to` at ledger `now`, the next call for `to`
/// at ledger `t` is refused exactly while `t` is below `now` plus the
/// configured cooldown, a sum that saturates at `u32::MAX`: so a call
/// `k` ledgers later is refused for every `k` short of the cooldown.
pub proof fn lemma_cooldown_window(before: Faucet, after: Faucet, to: Address, now: u32, t: u32)
    requires
        after.last_drips() == before.last_drips().insert(to, now),
        after.same_settings(&before),
    ensures
        now + before.cooldown_spec() <= u32::MAX ==> ((after.cooldown_refusal(to, t) is Some) <==> t
            < now + before.cooldown_spec()),
        now + before.cooldown_spec() > u32::MAX ==> ((after.cooldown_refusal(to, t) is Some) <==> t
            < u32::MAX),
        t >= now && t - now < before.cooldown_spec() && t < u32::MAX ==> after.cooldown_refusal(
            to,
            t,
        ) == Some(Error::CooldownActive),
{
}

/// After an accepted call for `to` at ledger `now`, a call for `to` is
/// refused exactly until the cooldown has passed, and every other
/// recipient's standing is unchanged.
pub proof fn lemma_cooldown(before: Faucet, after: Faucet, to: Address, now: u32, other: Address, t: u32)
    requires
        after.last_drips() == before.last_drips().insert(to, now),
        after.same_settings(&before),
        other != to,
    ensures
        (after.cooldown_refusal(to, t) is Some) <==> t < cooldown_end(now, before.cooldown_spec()),
        after.cooldown_refusal(other, t) == before.cooldown_refusal(other, t),
{
}

} // verus!
