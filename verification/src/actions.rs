//! What happens to a package after it is made: claims, disbursement, revocation,
//! cancellation, refunds and expiry extensions; and the escrow's own funding.
use vstd::prelude::*;

use crate::accounting::{lemma_close_wf, lemma_credit_wf, lemma_reexpire_wf, lemma_restatus_wf};
use crate::admin::{accepted_decimals, claim_action, claim_action_bytes, pow10, withdraw_action, withdraw_action_bytes};
use crate::codec::{hex_digest_bytes, is_hex_digest};
use crate::keymap::{bytes_eq, copy_bytes};
use crate::merkle::proof_admits;
use crate::state::{AidEscrow, EscrowView};
use crate::types::{Deposit, Error, Metadata, PackageStatus, Payout};

verus! {

broadcast use vstd::std_specs::hash::group_hash_axioms;

/// Why an admin action on package `id` is refused before its own checks, if it is.
pub open spec fn admin_package_refusal(s: EscrowView, id: u64) -> Option<Error> {
    if s.admin is None {
        Some(Error::NotInitialized)
    } else if !s.packages.contains_key(id) {
        Some(Error::PackageNotFound)
    } else {
        None
    }
}

/// Why `disburse` refuses before the transfer, if it does.
pub open spec fn disburse_refusal(s: EscrowView, id: u64) -> Option<Error> {
    if admin_package_refusal(s, id) is Some {
        admin_package_refusal(s, id)
    } else if s.packages[id].status != PackageStatus::Created {
        Some(Error::PackageNotActive)
    } else {
        None
    }
}

/// Why `revoke` refuses, if it does.
pub open spec fn revoke_refusal(s: EscrowView, id: u64) -> Option<Error> {
    if admin_package_refusal(s, id) is Some {
        admin_package_refusal(s, id)
    } else if s.packages[id].status != PackageStatus::Created {
        Some(Error::InvalidState)
    } else {
        None
    }
}

/// Why `cancel_package` refuses, if it does.
pub open spec fn cancel_refusal(s: EscrowView, id: u64, now: u64) -> Option<Error> {
    if admin_package_refusal(s, id) is Some {
        admin_package_refusal(s, id)
    } else if s.packages[id].status != PackageStatus::Created {
        Some(Error::PackageNotActive)
    } else if s.packages[id].expires_at > 0 && now > s.packages[id].expires_at {
        Some(Error::PackageExpired)
    } else {
        None
    }
}

/// Why `refund` refuses before the transfer, if it does: only packages that
/// expired unclaimed, or were cancelled, are refunded.
pub open spec fn refund_refusal(s: EscrowView, id: u64, now: u64) -> Option<Error> {
    if admin_package_refusal(s, id) is Some {
        admin_package_refusal(s, id)
    } else if s.packages[id].status == PackageStatus::Created {
        if s.packages[id].expires_at > 0 && now > s.packages[id].expires_at {
            None
        } else {
            Some(Error::InvalidState)
        }
    } else if s.packages[id].status == PackageStatus::Claimed || s.packages[id].status
        == PackageStatus::Refunded {
        Some(Error::InvalidState)
    } else {
        None
    }
}

/// The result of an action that transfers after its checks pass.
pub open spec fn after_transfer(refusal: Option<Error>, transferred: bool) -> Result<(), Error> {
    match refusal {
        Some(e) => Err(e),
        None => if transferred {
            Ok(())
        } else {
            Err(Error::TokenTransferFailed)
        },
    }
}

/// The payout that an action asks for when its checks pass.
pub open spec fn payout_matches(r: Result<Payout, Error>, refusal: Option<Error>, token: Seq<u8>, to: Seq<u8>, amount: i128) -> bool {
    match r {
        Ok(p) => refusal is None && p.token@ == token && p.to@ == to && p.amount == amount,
        Err(e) => refusal == Some(e),
    }
}

/// The bytes of `merkle_root`, the metadata entry that restricts claims to an allowlist.
pub open spec fn merkle_root_key() -> Seq<u8> {
    seq![109u8, 101u8, 114u8, 107u8, 108u8, 101u8, 95u8, 114u8, 111u8, 111u8, 116u8]
}

pub fn merkle_root_key_bytes() -> (r: Vec<u8>)
    ensures
        r@ == merkle_root_key(),
{
    vec![109u8, 101u8, 114u8, 107u8, 108u8, 101u8, 95u8, 114u8, 111u8, 111u8, 116u8]
}

/// The allowlist root of a package: its `merkle_root` entry, when that is
/// sixty-four hexadecimal digits.
pub open spec fn merkle_root_of(metadata: Map<Seq<u8>, Seq<u8>>) -> Option<Seq<u8>> {
    if metadata.contains_key(merkle_root_key()) && is_hex_digest(metadata[merkle_root_key()]) {
        Some(hex_digest_bytes(metadata[merkle_root_key()]))
    } else {
        None
    }
}

/// Why a claim on package `id` at `now` is refused before the claimant is
/// considered, if it is: claims paused, no such package, not open, too early, expired.
pub open spec fn claim_window_refusal(s: EscrowView, id: u64, now: u64) -> Option<Error> {
    if s.action_paused(claim_action()) {
        Some(Error::ContractPaused)
    } else if !s.packages.contains_key(id) {
        Some(Error::PackageNotFound)
    } else if s.packages[id].status != PackageStatus::Created {
        Some(Error::PackageNotActive)
    } else if now < s.packages[id].claim_starts_at {
        Some(Error::ClaimTooEarly)
    } else if s.packages[id].expires_at > 0 && now > s.packages[id].expires_at {
        Some(Error::PackageExpired)
    } else {
        None
    }
}

/// Why `claim` refuses before the transfer, if it does: allowlisted packages
/// need `claim_with_proof`.
pub open spec fn claim_refusal(s: EscrowView, id: u64, now: u64) -> Option<Error> {
    if claim_window_refusal(s, id, now) is Some {
        claim_window_refusal(s, id, now)
    } else if merkle_root_of(s.packages[id].metadata) is Some {
        Some(Error::InvalidProof)
    } else {
        None
    }
}

/// Why `claim_with_proof` refuses before the transfer, if it does: an allowlisted
/// package needs a proof that admits the claimant, any other needs its recipient.
pub open spec fn claim_with_proof_refusal(
    s: EscrowView,
    id: u64,
    claimant: Seq<u8>,
    proof: Seq<Seq<u8>>,
    now: u64,
) -> Option<Error> {
    if claim_window_refusal(s, id, now) is Some {
        claim_window_refusal(s, id, now)
    } else {
        match merkle_root_of(s.packages[id].metadata) {
            Some(root) => if proof_admits(claimant, proof, root) {
                None
            } else {
                Some(Error::InvalidProof)
            },
            None => if claimant == s.packages[id].recipient {
                None
            } else {
                Some(Error::NotAuthorized)
            },
        }
    }
}

/// Why `extend_expiry` refuses, if it does.
pub open spec fn extend_refusal(s: EscrowView, id: u64, new_expires_at: u64, now: u64) -> Option<Error> {
    if admin_package_refusal(s, id) is Some {
        admin_package_refusal(s, id)
    } else if s.packages[id].status != PackageStatus::Created {
        Some(Error::PackageNotActive)
    } else if s.packages[id].expires_at == 0 {
        Some(Error::InvalidState)
    } else if now > s.packages[id].expires_at {
        Some(Error::PackageExpired)
    } else if new_expires_at <= s.packages[id].expires_at {
        Some(Error::InvalidState)
    } else if s.config.max_expires_in > 0 && (new_expires_at <= now || new_expires_at - now
        > s.config.max_expires_in) {
        Some(Error::InvalidState)
    } else {
        None
    }
}

/// Why `extend_expiration` refuses, if it does.
pub open spec fn extend_expiration_refusal(s: EscrowView, id: u64, additional_time: u64, now: u64) -> Option<Error> {
    if additional_time == 0 {
        Some(Error::InvalidAmount)
    } else if !s.packages.contains_key(id) {
        Some(Error::PackageNotFound)
    } else if s.packages[id].expires_at == 0 {
        Some(Error::InvalidState)
    } else {
        extend_refusal(s, id, (s.packages[id].expires_at + additional_time) as u64, now)
    }
}

/// Why `withdraw_surplus` refuses before it reads the escrow's balance, if it does.
pub open spec fn withdraw_precheck(s: EscrowView, amount: i128, decimals: Option<u32>) -> Option<Error> {
    if s.action_paused(withdraw_action()) {
        Some(Error::ContractPaused)
    } else if s.admin is None {
        Some(Error::NotInitialized)
    } else if amount <= 0 {
        Some(Error::InvalidAmount)
    } else if !accepted_decimals(decimals) {
        Some(Error::InvalidToken)
    } else {
        None
    }
}

/// Why `withdraw_surplus` refuses before the transfer, if it does: only what the
/// escrow holds beyond the locked amount may leave.
pub open spec fn withdraw_refusal(
    s: EscrowView,
    amount: i128,
    token: Seq<u8>,
    decimals: Option<u32>,
    balance: Option<i128>,
) -> Option<Error> {
    if withdraw_precheck(s, amount, decimals) is Some {
        withdraw_precheck(s, amount, decimals)
    } else if balance is None {
        Some(Error::InvalidToken)
    } else if amount > balance->0 - s.locked_of(token) {
        Some(Error::InsufficientSurplus)
    } else {
        None
    }
}

/// Why `fund` refuses before the transfer, if it does: a positive amount of whole units.
pub open spec fn fund_refusal(amount: i128, decimals: Option<u32>) -> Option<Error> {
    if amount <= 0 {
        Some(Error::InvalidAmount)
    } else if !accepted_decimals(decimals) {
        Some(Error::InvalidToken)
    } else if (amount as int) % pow10(decimals->0 as nat) != 0 {
        Some(Error::InvalidAmount)
    } else {
        None
    }
}

impl EscrowView {
    /// A refund: the package ends `Refunded`, and its amount is unlocked if it was still open.
    pub open spec fn after_refund(self, id: u64) -> EscrowView {
        if self.packages[id].status == PackageStatus::Created || self.packages[id].status
            == PackageStatus::Expired {
            self.closed_as(id, PackageStatus::Refunded)
        } else {
            self.with_status(id, PackageStatus::Refunded)
        }
    }

    /// A claim: the package ends `Claimed`, its amount unlocked and counted as claimed.
    pub open spec fn after_claim(self, id: u64) -> EscrowView {
        self.closed_as(id, PackageStatus::Claimed).credited(
            self.packages[id].token,
            self.packages[id].amount,
        )
    }
}

impl AidEscrow {
    /// Package `id` with status `st`.
    fn set_status(&mut self, id: u64, st: PackageStatus)
        requires
            old(self).parts_wf(),
            old(self)@.packages.contains_key(id),
        ensures
            final(self).parts_wf(),
            final(self)@ == old(self)@.with_status(id, st),
    {
        let mut p = self.packages.get(&id).unwrap().copy();
        p.status = st;
        let ghost pv = p@;
        self.packages.insert(id, p);
        assert(self@.packages =~= old(self)@.with_status(id, st).packages);
    }

    /// Package `id` expiring at `e`.
    fn set_expiry(&mut self, id: u64, e: u64)
        requires
            old(self).parts_wf(),
            old(self)@.packages.contains_key(id),
        ensures
            final(self).parts_wf(),
            final(self)@ == old(self)@.with_expiry(id, e),
    {
        let mut p = self.packages.get(&id).unwrap().copy();
        p.expires_at = e;
        self.packages.insert(id, p);
        assert(self@.packages =~= old(self)@.with_expiry(id, e).packages);
    }

    /// Unlocks `amount` of `token`, never below zero.
    fn decrement_locked(&mut self, token: &[u8], amount: i128)
        requires
            old(self).parts_wf(),
            amount > 0,
        ensures
            final(self).parts_wf(),
            final(self)@ == old(self)@.unlocked(token@, amount),
    {
        let current = self.get_total_locked(token);
        let new_locked = if current > amount {
            current - amount
        } else {
            0
        };
        let mut key: Vec<u8> = Vec::new();
        let mut i: usize = 0;
        while i < token.len()
            invariant
                i <= token@.len(),
                key@ == token@.subrange(0, i as int),
            decreases token@.len() - i,
        {
            key.push(token[i]);
            i += 1;
        }
        assert(token@.subrange(0, token@.len() as int) =~= token@);
        self.locked.set(key, new_locked);
    }

    /// Counts `amount` more of `token` as claimed.
    fn credit_claimed(&mut self, token: &Vec<u8>, amount: i128)
        requires
            old(self).parts_wf(),
            old(self)@.claimed_of(token@) + amount <= i128::MAX,
            old(self)@.claimed_of(token@) + amount >= i128::MIN,
        ensures
            final(self).parts_wf(),
            final(self)@ == old(self)@.credited(token@, amount),
    {
        let current = self.get_total_claimed(token.as_slice());
        self.claimed.set(copy_bytes(token), current + amount);
    }

    /// Admin only. Cancels an open package; its amount goes back to the pool.
    pub fn revoke(&mut self, id: u64) -> (r: Result<(), Error>)
        requires
            old(self).wf(),
        ensures
            final(self).wf(),
            r == (match revoke_refusal(old(self)@, id) {
                Some(e) => Err(e),
                None => Ok(()),
            }),
            r is Ok ==> final(self)@ == old(self)@.closed_as(id, PackageStatus::Cancelled),
            r is Err ==> final(self)@ == old(self)@,
    {
        if self.admin.is_none() {
            return Err(Error::NotInitialized);
        }
        let package = match self.packages.get(&id) {
            Some(p) => p,
            None => {
                return Err(Error::PackageNotFound);
            },
        };
        if package.status != PackageStatus::Created {
            return Err(Error::InvalidState);
        }
        let token = copy_bytes(&package.token);
        let amount = package.amount;
        self.close_package(id, PackageStatus::Cancelled, &token, amount);
        Ok(())
    }

    /// Moves open package `id` to `st` and unlocks its amount.
    fn close_package(&mut self, id: u64, st: PackageStatus, token: &Vec<u8>, amount: i128)
        requires
            old(self).wf(),
            old(self)@.packages.contains_key(id),
            old(self)@.packages[id].status == PackageStatus::Created,
            st != PackageStatus::Created,
            st != PackageStatus::Expired,
            token@ == old(self)@.packages[id].token,
            amount == old(self)@.packages[id].amount,
        ensures
            final(self).wf(),
            final(self)@ == old(self)@.closed_as(id, st),
    {
        proof {
            lemma_close_wf(old(self)@, id, st);
        }
        self.set_status(id, st);
        self.decrement_locked(token.as_slice(), amount);
    }

    /// Admin only. Cancels an open package that has not expired.
    pub fn cancel_package(&mut self, package_id: u64, now: u64) -> (r: Result<(), Error>)
        requires
            old(self).wf(),
        ensures
            final(self).wf(),
            r == (match cancel_refusal(old(self)@, package_id, now) {
                Some(e) => Err(e),
                None => Ok(()),
            }),
            r is Ok ==> final(self)@ == old(self)@.closed_as(package_id, PackageStatus::Cancelled),
            r is Err ==> final(self)@ == old(self)@,
    {
        if self.admin.is_none() {
            return Err(Error::NotInitialized);
        }
        let package = match self.packages.get(&package_id) {
            Some(p) => p,
            None => {
                return Err(Error::PackageNotFound);
            },
        };
        if package.status != PackageStatus::Created {
            return Err(Error::PackageNotActive);
        }
        if package.expires_at > 0 && now > package.expires_at {
            return Err(Error::PackageExpired);
        }
        let token = copy_bytes(&package.token);
        let amount = package.amount;
        self.close_package(package_id, PackageStatus::Cancelled, &token, amount);
        Ok(())
    }

    /// The transfer that `disburse` makes: the package's amount to its recipient.
    pub fn disburse_payout(&self, id: u64) -> (r: Result<Payout, Error>)
        requires
            self.wf(),
        ensures
            payout_matches(r, disburse_refusal(self@, id), self@.packages[id].token,
                self@.packages[id].recipient, self@.packages[id].amount),
    {
        if self.admin.is_none() {
            return Err(Error::NotInitialized);
        }
        let package = match self.packages.get(&id) {
            Some(p) => p,
            None => {
                return Err(Error::PackageNotFound);
            },
        };
        if package.status != PackageStatus::Created {
            return Err(Error::PackageNotActive);
        }
        Ok(Payout { token: copy_bytes(&package.token), to: copy_bytes(&package.recipient), amount: package.amount })
    }

    /// Admin only. Pays an open package to its recipient without a claim;
    /// `transferred` says whether the transfer of `disburse_payout` went through.
    pub fn disburse(&mut self, id: u64, transferred: bool) -> (r: Result<(), Error>)
        requires
            old(self).wf(),
        ensures
            final(self).wf(),
            r == after_transfer(disburse_refusal(old(self)@, id), transferred),
            r is Ok ==> final(self)@ == old(self)@.closed_as(id, PackageStatus::Claimed),
            r is Err ==> final(self)@ == old(self)@,
    {
        let payout = self.disburse_payout(id)?;
        Self::transfer_token(transferred)?;
        self.close_package(id, PackageStatus::Claimed, &payout.token, payout.amount);
        Ok(())
    }

    /// The transfer that `refund` makes: the package's amount back to the admin.
    pub fn refund_payout(&self, id: u64, now: u64) -> (r: Result<Payout, Error>)
        requires
            self.wf(),
        ensures
            payout_matches(r, refund_refusal(self@, id, now), self@.packages[id].token,
                self@.admin->0, self@.packages[id].amount),
    {
        let admin = match &self.admin {
            Some(a) => a,
            None => {
                return Err(Error::NotInitialized);
            },
        };
        let package = match self.packages.get(&id) {
            Some(p) => p,
            None => {
                return Err(Error::PackageNotFound);
            },
        };
        if package.status == PackageStatus::Created {
            if !(package.expires_at > 0 && now > package.expires_at) {
                return Err(Error::InvalidState);
            }
        } else if package.status == PackageStatus::Claimed || package.status == PackageStatus::Refunded {
            return Err(Error::InvalidState);
        }
        Ok(Payout { token: copy_bytes(&package.token), to: copy_bytes(admin), amount: package.amount })
    }

    /// Admin only. Returns to the admin the amount of a package that expired
    /// unclaimed or was cancelled; `transferred` says whether the transfer of
    /// `refund_payout` went through.
    pub fn refund(&mut self, id: u64, now: u64, transferred: bool) -> (r: Result<(), Error>)
        requires
            old(self).wf(),
        ensures
            final(self).wf(),
            r == after_transfer(refund_refusal(old(self)@, id, now), transferred),
            r is Ok ==> final(self)@ == old(self)@.after_refund(id),
            r is Err ==> final(self)@ == old(self)@,
    {
        let payout = self.refund_payout(id, now)?;
        Self::transfer_token(transferred)?;
        let status = self.packages.get(&id).unwrap().status;
        if status == PackageStatus::Created {
            self.close_package(id, PackageStatus::Refunded, &payout.token, payout.amount);
        } else {
            proof {
                lemma_restatus_wf(old(self)@, id, PackageStatus::Refunded);
            }
            self.set_status(id, PackageStatus::Refunded);
        }
        Ok(())
    }

    /// The allowlist root in `metadata`, if its `merkle_root` entry is one.
    pub fn merkle_root_from_metadata(metadata: &Metadata) -> (r: Option<[u8; 32]>)
        requires
            metadata.wf(),
        ensures
            (match r {
                Some(root) => merkle_root_of(metadata.view()) == Some(root@),
                None => merkle_root_of(metadata.view()) is None,
            }),
    {
        match metadata.get(merkle_root_key_bytes().as_slice()) {
            Some(hex) => Self::parse_hex_32(hex.as_slice()),
            None => None,
        }
    }

    /// The checks of a claim that come before the claimant is considered.
    pub fn check_claim_window(&self, id: u64, now: u64) -> (r: Result<(), Error>)
        requires
            self.wf(),
        ensures
            r == (match claim_window_refusal(self@, id, now) {
                Some(e) => Err(e),
                None => Ok(()),
            }),
    {
        self.check_action_paused(claim_action_bytes().as_slice())?;
        let package = match self.packages.get(&id) {
            Some(p) => p,
            None => {
                return Err(Error::PackageNotFound);
            },
        };
        if package.status != PackageStatus::Created {
            return Err(Error::PackageNotActive);
        }
        if now < package.claim_starts_at {
            return Err(Error::ClaimTooEarly);
        }
        if package.expires_at > 0 && now > package.expires_at {
            return Err(Error::PackageExpired);
        }
        Ok(())
    }

    /// The transfer that `claim` makes: the package's amount to its recipient.
    pub fn claim_payout(&self, id: u64, now: u64) -> (r: Result<Payout, Error>)
        requires
            self.wf(),
        ensures
            payout_matches(r, claim_refusal(self@, id, now), self@.packages[id].token,
                self@.packages[id].recipient, self@.packages[id].amount),
    {
        self.check_claim_window(id, now)?;
        let package = self.packages.get(&id).unwrap();
        if Self::merkle_root_from_metadata(&package.metadata).is_some() {
            return Err(Error::InvalidProof);
        }
        Ok(Payout { token: copy_bytes(&package.token), to: copy_bytes(&package.recipient), amount: package.amount })
    }

    /// Completes a claim of open package `id` once its transfer is known:
    /// `transferred` says whether it went through.
    pub fn finalize_claim(&mut self, id: u64, transferred: bool) -> (r: Result<(), Error>)
        requires
            old(self).wf(),
            old(self)@.packages.contains_key(id),
            old(self)@.packages[id].status == PackageStatus::Created,
            transferred ==> old(self)@.claimed_of(old(self)@.packages[id].token) + old(self)@.packages[id].amount
                <= i128::MAX,
        ensures
            final(self).wf(),
            r == (if transferred { Ok(()) } else { Err(Error::TokenTransferFailed) }),
            r is Ok ==> final(self)@ == old(self)@.after_claim(id),
            r is Err ==> final(self)@ == old(self)@,
    {
        Self::transfer_token(transferred)?;
        let package = self.packages.get(&id).unwrap();
        let token = copy_bytes(&package.token);
        let amount = package.amount;
        let ghost s0 = self@;
        self.close_package(id, PackageStatus::Claimed, &token, amount);
        proof {
            lemma_credit_wf(s0.closed_as(id, PackageStatus::Claimed), token@, amount);
        }
        self.credit_claimed(&token, amount);
        Ok(())
    }

    /// The recipient claims package `id` at `now`; `transferred` says whether the
    /// transfer of `claim_payout` went through.
    pub fn claim(&mut self, id: u64, now: u64, transferred: bool) -> (r: Result<(), Error>)
        requires
            old(self).wf(),
            claim_refusal(old(self)@, id, now) is None && transferred ==> old(self)@.claimed_of(
                old(self)@.packages[id].token) + old(self)@.packages[id].amount <= i128::MAX,
        ensures
            final(self).wf(),
            r == after_transfer(claim_refusal(old(self)@, id, now), transferred),
            r is Ok ==> final(self)@ == old(self)@.after_claim(id),
            r is Err ==> final(self)@ == old(self)@,
    {
        self.claim_payout(id, now)?;
        self.finalize_claim(id, transferred)
    }

    /// The transfer that `claim_with_proof` makes: the package's amount to the claimant.
    pub fn claim_with_proof_payout(
        &self,
        env: &soroban_sdk::Env,
        id: u64,
        claimant: &Vec<u8>,
        proof: &Vec<Vec<u8>>,
        now: u64,
    ) -> (r: Result<Payout, Error>)
        requires
            self.wf(),
        ensures
            payout_matches(r, claim_with_proof_refusal(self@, id, claimant@, proof@.map_values(|h: Vec<u8>| h@), now),
                self@.packages[id].token, claimant@, self@.packages[id].amount),
    {
        self.check_claim_window(id, now)?;
        let package = self.packages.get(&id).unwrap();
        match Self::merkle_root_from_metadata(&package.metadata) {
            Some(root) => {
                if !Self::verify_merkle_proof_for_claimant(env, claimant.as_slice(), proof, &root) {
                    return Err(Error::InvalidProof);
                }
            },
            None => {
                if !bytes_eq(claimant.as_slice(), package.recipient.as_slice()) {
                    return Err(Error::NotAuthorized);
                }
            },
        }
        Ok(Payout { token: copy_bytes(&package.token), to: copy_bytes(claimant), amount: package.amount })
    }

    /// `claimant` claims package `id` at `now`, with a Merkle proof when the package
    /// has an allowlist; `transferred` says whether the transfer of
    /// `claim_with_proof_payout` went through.
    pub fn claim_with_proof(
        &mut self,
        env: &soroban_sdk::Env,
        id: u64,
        claimant: &Vec<u8>,
        proof: &Vec<Vec<u8>>,
        now: u64,
        transferred: bool,
    ) -> (r: Result<(), Error>)
        requires
            old(self).wf(),
            claim_with_proof_refusal(old(self)@, id, claimant@, proof@.map_values(|h: Vec<u8>| h@), now) is None
                && transferred ==> old(self)@.claimed_of(old(self)@.packages[id].token)
                + old(self)@.packages[id].amount <= i128::MAX,
        ensures
            final(self).wf(),
            r == after_transfer(
                claim_with_proof_refusal(old(self)@, id, claimant@, proof@.map_values(|h: Vec<u8>| h@), now),
                transferred,
            ),
            r is Ok ==> final(self)@ == old(self)@.after_claim(id),
            r is Err ==> final(self)@ == old(self)@,
    {
        self.claim_with_proof_payout(env, id, claimant, proof, now)?;
        self.finalize_claim(id, transferred)
    }

    /// Admin only. Moves the expiry of an open, unexpired package to the later
    /// `new_expires_at`, within the configured horizon.
    pub fn extend_expiry(&mut self, id: u64, new_expires_at: u64, now: u64) -> (r: Result<(), Error>)
        requires
            old(self).wf(),
        ensures
            final(self).wf(),
            r == (match extend_refusal(old(self)@, id, new_expires_at, now) {
                Some(e) => Err(e),
                None => Ok(()),
            }),
            r is Ok ==> final(self)@ == old(self)@.with_expiry(id, new_expires_at),
            r is Err ==> final(self)@ == old(self)@,
    {
        if self.admin.is_none() {
            return Err(Error::NotInitialized);
        }
        let package = match self.packages.get(&id) {
            Some(p) => p,
            None => {
                return Err(Error::PackageNotFound);
            },
        };
        if package.status != PackageStatus::Created {
            return Err(Error::PackageNotActive);
        }
        if package.expires_at == 0 {
            return Err(Error::InvalidState);
        }
        if now > package.expires_at {
            return Err(Error::PackageExpired);
        }
        if new_expires_at <= package.expires_at {
            return Err(Error::InvalidState);
        }
        let max = self.config.max_expires_in;
        if max > 0 && (new_expires_at <= now || new_expires_at - now > max) {
            return Err(Error::InvalidState);
        }
        proof {
            lemma_reexpire_wf(old(self)@, id, new_expires_at);
        }
        self.set_expiry(id, new_expires_at);
        Ok(())
    }

    /// The expiry that `extend_expiration` asks for: `additional_time` after the
    /// package's current expiry, which must be set.
    pub fn extend_expiration_target(&self, package_id: u64, additional_time: u64) -> (r: Result<u64, Error>)
        requires
            self.wf(),
            additional_time != 0 && self@.packages.contains_key(package_id)
                ==> self@.packages[package_id].expires_at + additional_time <= u64::MAX,
        ensures
            r == (if additional_time == 0 {
                Err(Error::InvalidAmount)
            } else if !self@.packages.contains_key(package_id) {
                Err(Error::PackageNotFound)
            } else if self@.packages[package_id].expires_at == 0 {
                Err(Error::InvalidState)
            } else {
                Ok((self@.packages[package_id].expires_at + additional_time) as u64)
            }),
    {
        if additional_time == 0 {
            return Err(Error::InvalidAmount);
        }
        let expires_at = match self.packages.get(&package_id) {
            Some(p) => p.expires_at,
            None => {
                return Err(Error::PackageNotFound);
            },
        };
        if expires_at == 0 {
            return Err(Error::InvalidState);
        }
        Ok(expires_at + additional_time)
    }

    /// Admin only. Adds `additional_time` to the expiry of a package that has one.
    pub fn extend_expiration(&mut self, package_id: u64, additional_time: u64, now: u64) -> (r: Result<(), Error>)
        requires
            old(self).wf(),
            additional_time != 0 && old(self)@.packages.contains_key(package_id)
                ==> old(self)@.packages[package_id].expires_at + additional_time <= u64::MAX,
        ensures
            final(self).wf(),
            r == (match extend_expiration_refusal(old(self)@, package_id, additional_time, now) {
                Some(e) => Err(e),
                None => Ok(()),
            }),
            r is Ok ==> final(self)@ == old(self)@.with_expiry(
                package_id,
                (old(self)@.packages[package_id].expires_at + additional_time) as u64,
            ),
            r is Err ==> final(self)@ == old(self)@,
    {
        let new_expires_at = self.extend_expiration_target(package_id, additional_time)?;
        self.extend_expiry(package_id, new_expires_at, now)
    }

    /// Whether `withdraw_surplus` on these arguments would pass its first checks
    /// and then find a balance so far below the locked amount that the surplus
    /// leaves the range of an `i128`.
    pub fn withdraw_surplus_would_overflow(
        &self,
        amount: i128,
        token: &[u8],
        decimals: Option<u32>,
        balance: Option<i128>,
    ) -> (b: bool)
        requires
            self.wf(),
        ensures
            b == (withdraw_precheck(self@, amount, decimals) is None && balance is Some && balance->0
                - self@.locked_of(token@) < i128::MIN),
    {
        if self.is_action_paused(withdraw_action_bytes().as_slice()) || self.admin.is_none() || amount <= 0 {
            return false;
        }
        if Self::validate_token(decimals).is_err() {
            return false;
        }
        match balance {
            Some(b) => {
                let total_locked = self.get_total_locked(token);
                proof {
                    crate::accounting::lemma_locked_nonneg(self@, token@);
                }
                b < i128::MIN + total_locked
            },
            None => false,
        }
    }

    /// The transfer that `withdraw_surplus` makes: `amount` of `token` to `to`.
    pub fn withdraw_surplus_payout(
        &self,
        to: &Vec<u8>,
        amount: i128,
        token: &Vec<u8>,
        decimals: Option<u32>,
        balance: Option<i128>,
    ) -> (r: Result<Payout, Error>)
        requires
            self.wf(),
            withdraw_precheck(self@, amount, decimals) is None && balance is Some
                ==> balance->0 - self@.locked_of(token@) >= i128::MIN,
        ensures
            payout_matches(r, withdraw_refusal(self@, amount, token@, decimals, balance), token@, to@, amount),
    {
        self.check_action_paused(withdraw_action_bytes().as_slice())?;
        if self.admin.is_none() {
            return Err(Error::NotInitialized);
        }
        if amount <= 0 {
            return Err(Error::InvalidAmount);
        }
        Self::validate_token(decimals)?;
        let contract_balance = Self::token_balance(balance)?;
        let total_locked = self.get_total_locked(token.as_slice());
        proof {
            crate::accounting::lemma_locked_nonneg(self@, token@);
        }
        let available_surplus = contract_balance - total_locked;
        if amount > available_surplus {
            return Err(Error::InsufficientSurplus);
        }
        Ok(Payout { token: copy_bytes(token), to: copy_bytes(to), amount })
    }

    /// Admin only. Sends `amount` of `token` that no package holds out of the
    /// escrow to `to`; `decimals` and `balance` are what the token's calls
    /// returned, and `transferred` says whether the transfer of
    /// `withdraw_surplus_payout` went through. Nothing is stored.
    pub fn withdraw_surplus(
        &self,
        to: &Vec<u8>,
        amount: i128,
        token: &Vec<u8>,
        decimals: Option<u32>,
        balance: Option<i128>,
        transferred: bool,
    ) -> (r: Result<(), Error>)
        requires
            self.wf(),
            withdraw_precheck(self@, amount, decimals) is None && balance is Some
                ==> balance->0 - self@.locked_of(token@) >= i128::MIN,
        ensures
            r == after_transfer(withdraw_refusal(self@, amount, token@, decimals, balance), transferred),
    {
        self.withdraw_surplus_payout(to, amount, token, decimals, balance)?;
        Self::transfer_token(transferred)
    }

    /// The transfer that `fund` makes: `amount` of `token` from `from` into the
    /// escrow, when it is a positive number of whole units of a token whose
    /// `decimals` call returned `decimals`.
    pub fn fund_deposit(token: &Vec<u8>, from: &Vec<u8>, amount: i128, decimals: Option<u32>) -> (r: Result<
        Deposit,
        Error,
    >)
        ensures
            (match r {
                Ok(d) => fund_refusal(amount, decimals) is None && d.token@ == token@ && d.from@ == from@
                    && d.amount == amount,
                Err(e) => fund_refusal(amount, decimals) == Some(e),
            }),
    {
        if amount <= 0 {
            return Err(Error::InvalidAmount);
        }
        let d = Self::validate_token(decimals)?;
        let unit = Self::unit_of(d);
        if (amount as u128) % (unit as u128) != 0 {
            return Err(Error::InvalidAmount);
        }
        Ok(Deposit { token: copy_bytes(token), from: copy_bytes(from), amount })
    }

    /// Funds the escrow's pool with `amount` of `token` from `from`;
    /// `transferred` says whether the transfer of `fund_deposit` went through.
    /// Nothing is stored: the pool is the escrow's token balance.
    pub fn fund(token: &Vec<u8>, from: &Vec<u8>, amount: i128, decimals: Option<u32>, transferred: bool) -> (r:
        Result<(), Error>)
        ensures
            r == after_transfer(fund_refusal(amount, decimals), transferred),
    {
        Self::fund_deposit(token, from, amount, decimals)?;
        Self::transfer_token(transferred)
    }

    /// Whether crediting package `id`'s amount to what its token has paid out to
    /// claimants would leave the range of an `i128`.
    pub fn claimed_total_would_overflow(&self, id: u64) -> (b: bool)
        requires
            self.wf(),
        ensures
            b == (self@.packages.contains_key(id) && self@.claimed_of(self@.packages[id].token)
                + self@.packages[id].amount > i128::MAX),
    {
        match self.packages.get(&id) {
            Some(package) => {
                let claimed = self.get_total_claimed(package.token.as_slice());
                claimed > i128::MAX - package.amount
            },
            None => false,
        }
    }
}

} // verus!
