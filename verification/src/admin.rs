//! Administration: setup, versioning, distributors, configuration and pausing,
//! and the small checks that the other entrypoints share.
use vstd::prelude::*;

use crate::keymap::copy_bytes;
use crate::state::{AidEscrow, EscrowView};
use crate::types::{default_config, Config, Error};

verus! {

/// The switches that `pause_action` and `unpause_action` turn.
#[derive(Clone, Copy, PartialEq, Eq, Debug, Structural)]
pub enum PauseKey {
    Create,
    Claim,
    Withdraw,
}

/// The bytes of `create`.
pub open spec fn create_action() -> Seq<u8> {
    seq![99u8, 114u8, 101u8, 97u8, 116u8, 101u8]
}

/// The bytes of `claim`.
pub open spec fn claim_action() -> Seq<u8> {
    seq![99u8, 108u8, 97u8, 105u8, 109u8]
}

/// The bytes of `withdraw`.
pub open spec fn withdraw_action() -> Seq<u8> {
    seq![119u8, 105u8, 116u8, 104u8, 100u8, 114u8, 97u8, 119u8]
}

pub fn create_action_bytes() -> (r: Vec<u8>)
    ensures
        r@ == create_action(),
{
    vec![99u8, 114u8, 101u8, 97u8, 116u8, 101u8]
}

pub fn claim_action_bytes() -> (r: Vec<u8>)
    ensures
        r@ == claim_action(),
{
    vec![99u8, 108u8, 97u8, 105u8, 109u8]
}

pub fn withdraw_action_bytes() -> (r: Vec<u8>)
    ensures
        r@ == withdraw_action(),
{
    vec![119u8, 105u8, 116u8, 104u8, 100u8, 114u8, 97u8, 119u8]
}

/// The switch that an action name selects, if it names one.
pub open spec fn pause_key_of(action: Seq<u8>) -> Option<PauseKey> {
    if action == create_action() {
        Some(PauseKey::Create)
    } else if action == claim_action() {
        Some(PauseKey::Claim)
    } else if action == withdraw_action() {
        Some(PauseKey::Withdraw)
    } else {
        None
    }
}

/// `10` to the power `n`.
pub open spec fn pow10(n: nat) -> int
    decreases n,
{
    if n == 0 {
        1
    } else {
        10 * pow10((n - 1) as nat)
    }
}

proof fn lemma_pow10_mono(m: nat, n: nat)
    requires
        m <= n,
    ensures
        1 <= pow10(m) <= pow10(n),
    decreases n,
{
    if n > m {
        lemma_pow10_mono(m, (n - 1) as nat);
    } else if m > 0 {
        lemma_pow10_mono((m - 1) as nat, (m - 1) as nat);
    }
}

proof fn lemma_pow10_bound(n: nat)
    requires
        n <= 38,
    ensures
        1 <= pow10(n) <= 100000000000000000000000000000000000000,
{
    lemma_pow10_mono(n, 38);
    reveal_with_fuel(pow10, 39);
    assert(pow10(38) == 100000000000000000000000000000000000000);
}

/// A token's decimals as the escrow accepts them: reported, and at most 38.
pub open spec fn accepted_decimals(decimals: Option<u32>) -> bool {
    decimals matches Some(d) && d <= 38
}

impl EscrowView {
    pub open spec fn switch(self, k: PauseKey) -> bool {
        match k {
            PauseKey::Create => self.create_paused,
            PauseKey::Claim => self.claim_paused,
            PauseKey::Withdraw => self.withdraw_paused,
        }
    }

    /// An action is paused when everything is, or when its own switch is on.
    pub open spec fn action_paused(self, action: Seq<u8>) -> bool {
        self.paused || match pause_key_of(action) {
            Some(k) => self.switch(k),
            None => false,
        }
    }

    pub open spec fn with_switch(self, k: PauseKey, on: bool) -> EscrowView {
        match k {
            PauseKey::Create => EscrowView { create_paused: on, ..self },
            PauseKey::Claim => EscrowView { claim_paused: on, ..self },
            PauseKey::Withdraw => EscrowView { withdraw_paused: on, ..self },
        }
    }

    /// Why `caller` may not act as the admin, if it may not.
    pub open spec fn admin_refusal(self, caller: Seq<u8>) -> Option<Error> {
        if self.admin is None {
            Some(Error::NotInitialized)
        } else if caller != self.admin->0 {
            Some(Error::NotAuthorized)
        } else {
            None
        }
    }

    /// Why `operator` may not create packages, if it may not.
    pub open spec fn operator_refusal(self, operator: Seq<u8>) -> Option<Error> {
        if self.admin is None {
            Some(Error::NotInitialized)
        } else if operator == self.admin->0 || self.is_distributor(operator) {
            None
        } else {
            Some(Error::NotAuthorized)
        }
    }
}

impl AidEscrow {
    proof fn lemma_settings_keep_wf(old_s: &AidEscrow, new_s: &AidEscrow)
        requires
            old_s.wf(),
            new_s@.admin is Some,
            new_s.distributors.wf(),
            new_s.locked == old_s.locked,
            new_s.claimed == old_s.claimed,
            new_s.claimed.wf(),
            new_s.locked.wf(),
            new_s.packages == old_s.packages,
            new_s.index == old_s.index,
            new_s.index_len == old_s.index_len,
            new_s.package_counter == old_s.package_counter,
        ensures
            new_s.wf(),
    {
        crate::accounting::lemma_wf_frame(old_s@, new_s@);
    }

    /// Sets the admin and the first version; refused once an admin is set.
    pub fn init(&mut self, admin: Vec<u8>) -> (r: Result<(), Error>)
        requires
            old(self).wf(),
        ensures
            final(self).wf(),
            r == (if old(self)@.admin is Some { Err(Error::AlreadyInitialized) } else { Ok(()) }),
            r is Ok ==> final(self)@ == (EscrowView {
                admin: Some(admin@),
                version: 1,
                config: default_config(),
                ..old(self)@
            }),
            r is Ok ==> !final(self)@.paused && !final(self)@.create_paused && !final(self)@.claim_paused
                && !final(self)@.withdraw_paused && final(self)@.packages.is_empty(),
            r is Err ==> final(self)@ == old(self)@,
    {
        if self.admin.is_some() {
            return Err(Error::AlreadyInitialized);
        }
        self.admin = Some(admin);
        self.version = 1;
        self.config = Config::default_config();
        proof {
            Self::lemma_settings_keep_wf(&*old(self), &*self);
        }
        Ok(())
    }

    /// The admin, once set.
    pub fn get_admin(&self) -> (r: Result<Vec<u8>, Error>)
        ensures
            (match r {
                Ok(a) => self@.admin == Some(a@),
                Err(e) => self@.admin is None && e == Error::NotInitialized,
            }),
    {
        match &self.admin {
            Some(a) => Ok(copy_bytes(a)),
            None => Err(Error::NotInitialized),
        }
    }

    /// The version: `0` before `init`.
    pub fn get_version(&self) -> (v: u32)
        ensures
            v == self@.version,
    {
        self.version
    }

    /// Whether `caller` is the admin: `NotInitialized` before there is one,
    /// `NotAuthorized` for anyone else.
    pub fn check_admin(&self, caller: &[u8]) -> (r: Result<(), Error>)
        ensures
            r == (match self@.admin_refusal(caller@) {
                Some(e) => Err(e),
                None => Ok(()),
            }),
    {
        match &self.admin {
            Some(a) => if crate::keymap::bytes_eq(a.as_slice(), caller) {
                Ok(())
            } else {
                Err(Error::NotAuthorized)
            },
            None => Err(Error::NotInitialized),
        }
    }

    /// Admin only. Records `new_version`.
    pub fn migrate(&mut self, caller: &[u8], new_version: u32) -> (r: Result<(), Error>)
        requires
            old(self).wf(),
        ensures
            final(self).wf(),
            r == (match old(self)@.admin_refusal(caller@) {
                Some(e) => Err(e),
                None => Ok(()),
            }),
            r is Ok ==> final(self)@ == (EscrowView { version: new_version, ..old(self)@ }),
            r is Err ==> final(self)@ == old(self)@,
    {
        self.check_admin(caller)?;
        self.version = new_version;
        proof {
            Self::lemma_settings_keep_wf(&*old(self), &*self);
        }
        Ok(())
    }

    /// Admin only. Lets `addr` create packages.
    pub fn add_distributor(&mut self, caller: &[u8], addr: Vec<u8>) -> (r: Result<(), Error>)
        requires
            old(self).wf(),
        ensures
            final(self).wf(),
            r == (match old(self)@.admin_refusal(caller@) {
                Some(e) => Err(e),
                None => Ok(()),
            }),
            r is Ok ==> final(self)@ == (EscrowView {
                distributors: old(self)@.distributors.insert(addr@, true),
                ..old(self)@
            }),
            r is Err ==> final(self)@ == old(self)@,
    {
        self.check_admin(caller)?;
        self.distributors.set(addr, true);
        proof {
            Self::lemma_settings_keep_wf(&*old(self), &*self);
        }
        Ok(())
    }

    /// Admin only. Withdraws `addr`'s right to create packages.
    pub fn remove_distributor(&mut self, caller: &[u8], addr: &[u8]) -> (r: Result<(), Error>)
        requires
            old(self).wf(),
        ensures
            final(self).wf(),
            r == (match old(self)@.admin_refusal(caller@) {
                Some(e) => Err(e),
                None => Ok(()),
            }),
            r is Ok ==> final(self)@ == (EscrowView {
                distributors: old(self)@.distributors.remove(addr@),
                ..old(self)@
            }),
            r is Err ==> final(self)@ == old(self)@,
    {
        self.check_admin(caller)?;
        self.distributors.remove(addr);
        proof {
            Self::lemma_settings_keep_wf(&*old(self), &*self);
        }
        Ok(())
    }

    /// Reads what a token's `decimals` call returned (`None` when the call
    /// failed): the decimals, or `InvalidToken` above 38.
    pub fn validate_token(decimals: Option<u32>) -> (r: Result<u32, Error>)
        ensures
            r == (if accepted_decimals(decimals) { Ok(decimals->0) } else { Err(Error::InvalidToken) }),
    {
        match decimals {
            Some(d) => {
                if d <= 38 {
                    Ok(d)
                } else {
                    Err(Error::InvalidToken)
                }
            },
            None => Err(Error::InvalidToken),
        }
    }

    /// Reads what a token's `balance` call returned (`None` when the call failed).
    pub fn token_balance(balance: Option<i128>) -> (r: Result<i128, Error>)
        ensures
            r == (match balance {
                Some(b) => Ok(b),
                None => Err(Error::InvalidToken),
            }),
    {
        match balance {
            Some(b) => Ok(b),
            None => Err(Error::InvalidToken),
        }
    }

    /// Reads whether a token's `transfer` call went through.
    pub fn transfer_token(transferred: bool) -> (r: Result<(), Error>)
        ensures
            r == (if transferred { Ok(()) } else { Err(Error::TokenTransferFailed) }),
    {
        if transferred {
            Ok(())
        } else {
            Err(Error::TokenTransferFailed)
        }
    }

    /// The smallest whole unit of a token with `decimals` decimals.
    pub fn unit_of(decimals: u32) -> (u: i128)
        requires
            decimals <= 38,
        ensures
            u == pow10(decimals as nat),
            u >= 1,
    {
        let mut u: i128 = 1;
        let mut i: u32 = 0;
        while i < decimals
            invariant
                i <= decimals <= 38,
                u == pow10(i as nat),
            decreases decimals - i,
        {
            proof {
                lemma_pow10_bound((i + 1) as nat);
            }
            u = u * 10;
            i += 1;
        }
        proof {
            lemma_pow10_bound(decimals as nat);
        }
        u
    }

    /// Admin only. Replaces the configuration; `decimals[i]` is what the
    /// `decimals` call of `config.allowed_tokens[i]` returned.
    pub fn set_config(&mut self, caller: &[u8], config: Config, decimals: &Vec<Option<u32>>) -> (r: Result<(), Error>)
        requires
            old(self).wf(),
            decimals@.len() == config.allowed_tokens@.len(),
        ensures
            final(self).wf(),
            r == (if old(self)@.admin_refusal(caller@) is Some {
                Err(old(self)@.admin_refusal(caller@)->0)
            } else if config.min_amount <= 0 {
                Err(Error::InvalidAmount)
            } else if exists|i: int| 0 <= i < decimals@.len() && !accepted_decimals(#[trigger] decimals@[i]) {
                Err(Error::InvalidToken)
            } else {
                Ok(())
            }),
            r is Ok ==> final(self)@ == (EscrowView { config: config@, ..old(self)@ }),
            r is Err ==> final(self)@ == old(self)@,
    {
        self.check_admin(caller)?;
        if config.min_amount <= 0 {
            return Err(Error::InvalidAmount);
        }
        let mut i: usize = 0;
        while i < decimals.len()
            invariant
                self.wf(),
                *self == *old(self),
                self@.admin is Some,
                self@.admin_refusal(caller@) is None,
                config.min_amount > 0,
                i <= decimals@.len(),
                forall|j: int| 0 <= j < i ==> accepted_decimals(#[trigger] decimals@[j]),
            decreases decimals@.len() - i,
        {
            match Self::validate_token(decimals[i]) {
                Ok(_) => {},
                Err(e) => {
                    assert(!accepted_decimals(decimals@[i as int]));
                    return Err(e);
                },
            }
            i += 1;
        }
        self.config = config;
        proof {
            Self::lemma_settings_keep_wf(&*old(self), &*self);
        }
        Ok(())
    }

    /// The configuration in force.
    pub fn get_config(&self) -> (c: Config)
        ensures
            c@ == self@.config,
    {
        self.config.copy()
    }

    /// Admin only. Pauses everything.
    pub fn pause(&mut self, caller: &[u8]) -> (r: Result<(), Error>)
        requires
            old(self).wf(),
        ensures
            final(self).wf(),
            r == (match old(self)@.admin_refusal(caller@) {
                Some(e) => Err(e),
                None => Ok(()),
            }),
            r is Ok ==> final(self)@ == (EscrowView { paused: true, ..old(self)@ }),
            r is Err ==> final(self)@ == old(self)@,
    {
        self.check_admin(caller)?;
        self.paused = true;
        proof {
            Self::lemma_settings_keep_wf(&*old(self), &*self);
        }
        Ok(())
    }

    /// Admin only. Lifts the general pause.
    pub fn unpause(&mut self, caller: &[u8]) -> (r: Result<(), Error>)
        requires
            old(self).wf(),
        ensures
            final(self).wf(),
            r == (match old(self)@.admin_refusal(caller@) {
                Some(e) => Err(e),
                None => Ok(()),
            }),
            r is Ok ==> final(self)@ == (EscrowView { paused: false, ..old(self)@ }),
            r is Err ==> final(self)@ == old(self)@,
    {
        self.check_admin(caller)?;
        self.paused = false;
        proof {
            Self::lemma_settings_keep_wf(&*old(self), &*self);
        }
        Ok(())
    }

    /// The switch that `action` names: `create`, `claim` or `withdraw`.
    pub fn get_pause_key(action: &[u8]) -> (r: Result<PauseKey, Error>)
        ensures
            r == (match pause_key_of(action@) {
                Some(k) => Ok(k),
                None => Err(Error::InvalidState),
            }),
    {
        if crate::keymap::bytes_eq(action, create_action_bytes().as_slice()) {
            Ok(PauseKey::Create)
        } else if crate::keymap::bytes_eq(action, claim_action_bytes().as_slice()) {
            Ok(PauseKey::Claim)
        } else if crate::keymap::bytes_eq(action, withdraw_action_bytes().as_slice()) {
            Ok(PauseKey::Withdraw)
        } else {
            Err(Error::InvalidState)
        }
    }

    fn set_switch(&mut self, k: PauseKey, on: bool)
        requires
            old(self).wf(),
            old(self)@.admin is Some,
        ensures
            final(self).wf(),
            final(self)@ == old(self)@.with_switch(k, on),
    {
        match k {
            PauseKey::Create => self.create_paused = on,
            PauseKey::Claim => self.claim_paused = on,
            PauseKey::Withdraw => self.withdraw_paused = on,
        }
        proof {
            Self::lemma_settings_keep_wf(&*old(self), &*self);
        }
    }

    /// Admin only. Pauses one action.
    pub fn pause_action(&mut self, caller: &[u8], action: &[u8]) -> (r: Result<(), Error>)
        requires
            old(self).wf(),
        ensures
            final(self).wf(),
            r == (if old(self)@.admin_refusal(caller@) is Some {
                Err(old(self)@.admin_refusal(caller@)->0)
            } else if pause_key_of(action@) is None {
                Err(Error::InvalidState)
            } else {
                Ok(())
            }),
            r is Ok ==> final(self)@ == old(self)@.with_switch(pause_key_of(action@)->0, true),
            r is Err ==> final(self)@ == old(self)@,
    {
        self.check_admin(caller)?;
        let k = Self::get_pause_key(action)?;
        self.set_switch(k, true);
        Ok(())
    }

    /// Admin only. Lifts the pause of one action.
    pub fn unpause_action(&mut self, caller: &[u8], action: &[u8]) -> (r: Result<(), Error>)
        requires
            old(self).wf(),
        ensures
            final(self).wf(),
            r == (if old(self)@.admin_refusal(caller@) is Some {
                Err(old(self)@.admin_refusal(caller@)->0)
            } else if pause_key_of(action@) is None {
                Err(Error::InvalidState)
            } else {
                Ok(())
            }),
            r is Ok ==> final(self)@ == old(self)@.with_switch(pause_key_of(action@)->0, false),
            r is Err ==> final(self)@ == old(self)@,
    {
        self.check_admin(caller)?;
        let k = Self::get_pause_key(action)?;
        self.set_switch(k, false);
        Ok(())
    }

    /// Whether `action` is paused, by the general pause or its own switch.
    pub fn is_action_paused(&self, action: &[u8]) -> (b: bool)
        ensures
            b == self@.action_paused(action@),
    {
        if self.is_paused() {
            return true;
        }
        match Self::get_pause_key(action) {
            Ok(PauseKey::Create) => self.create_paused,
            Ok(PauseKey::Claim) => self.claim_paused,
            Ok(PauseKey::Withdraw) => self.withdraw_paused,
            Err(_) => false,
        }
    }

    pub fn is_paused(&self) -> (b: bool)
        ensures
            b == self@.paused,
    {
        self.paused
    }

    /// Refuses with `ContractPaused` when `action` is paused.
    pub fn check_action_paused(&self, action: &[u8]) -> (r: Result<(), Error>)
        ensures
            r == (if self@.action_paused(action@) { Err(Error::ContractPaused) } else { Ok(()) }),
    {
        if self.is_action_paused(action) {
            Err(Error::ContractPaused)
        } else {
            Ok(())
        }
    }

    /// Whether `operator` may create packages: the admin, or a distributor.
    pub fn require_admin_or_distributor(&self, operator: &[u8]) -> (r: Result<(), Error>)
        requires
            self.wf(),
        ensures
            r == (match self@.operator_refusal(operator@) {
                Some(e) => Err(e),
                None => Ok(()),
            }),
    {
        let admin = match &self.admin {
            Some(a) => a,
            None => {
                return Err(Error::NotInitialized);
            },
        };
        if crate::keymap::bytes_eq(operator, admin.as_slice()) {
            return Ok(());
        }
        match self.distributors.get(operator) {
            Some(v) => {
                if *v {
                    Ok(())
                } else {
                    Err(Error::NotAuthorized)
                }
            },
            None => Err(Error::NotAuthorized),
        }
    }

    /// The amount of `token` promised to open packages.
    pub fn get_total_locked(&self, token: &[u8]) -> (t: i128)
        requires
            self.locked.wf(),
        ensures
            t == self@.locked_of(token@),
    {
        match self.locked.get(token) {
            Some(v) => *v,
            None => 0,
        }
    }

    /// The amount of `token` ever paid out to claimants.
    pub fn get_total_claimed(&self, token: &[u8]) -> (t: i128)
        requires
            self.claimed.wf(),
        ensures
            t == self@.claimed_of(token@),
    {
        match self.claimed.get(token) {
            Some(v) => *v,
            None => 0,
        }
    }
}

} // verus!
