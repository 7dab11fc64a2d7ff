//! Read-only views: single packages, per-token aggregates and per-recipient listings.
use vstd::prelude::*;

use crate::accounting::{lemma_locked_nonneg, lemma_sum_monotone};
use crate::keymap::bytes_eq;
use crate::state::{AidEscrow, EscrowView, StatusGroup};
use crate::types::{Aggregates, Error, Package, PackageStatus};

verus! {

broadcast use vstd::std_specs::hash::group_hash_axioms;

/// Whether id `id` holds a package for `recipient`.
pub open spec fn held_for(s: EscrowView, recipient: Seq<u8>, id: int) -> bool {
    0 <= id <= u64::MAX && s.packages.contains_key(id as u64) && s.packages[id as u64].recipient == recipient
}

/// The ids in `lo..hi` that hold packages for `recipient`, in increasing order.
pub open spec fn recipient_ids(s: EscrowView, recipient: Seq<u8>, lo: int, hi: int) -> Seq<u64>
    decreases hi - lo,
{
    if hi <= lo {
        Seq::empty()
    } else if held_for(s, recipient, hi - 1) {
        recipient_ids(s, recipient, lo, hi - 1).push((hi - 1) as u64)
    } else {
        recipient_ids(s, recipient, lo, hi - 1)
    }
}

/// The ids of the stored packages made out to `recipient`.
pub open spec fn packages_of(s: EscrowView, recipient: Seq<u8>) -> Set<u64> {
    Set::new(|id: u64| s.packages.contains_key(id) && s.packages[id].recipient == recipient)
}

/// How many ids in `lo..hi` hold packages for `recipient`.
pub open spec fn recipient_count(s: EscrowView, recipient: Seq<u8>, lo: int, hi: int) -> nat
    decreases hi - lo,
{
    if hi <= lo {
        0
    } else {
        recipient_count(s, recipient, lo, hi - 1) + if held_for(s, recipient, hi - 1) {
            1nat
        } else {
            0nat
        }
    }
}

/// Where a page that starts at `cursor` and holds at most `limit` ids stops:
/// `cursor + limit`, capped at the counter.
pub open spec fn page_end(cursor: u64, limit: u32, counter: u64) -> u64 {
    let want = if cursor + limit > u64::MAX { u64::MAX as int } else { cursor + limit };
    if want > counter {
        counter
    } else {
        want as u64
    }
}

impl AidEscrow {
    /// The package stored under `id`.
    pub fn get_package(&self, id: u64) -> (r: Result<Package, Error>)
        requires
            self.wf(),
        ensures
            (match r {
                Ok(p) => self@.packages.contains_key(id) && p@ == self@.packages[id] && p.metadata.wf(),
                Err(e) => !self@.packages.contains_key(id) && e == Error::PackageNotFound,
            }),
    {
        match self.packages.get(&id) {
            Some(p) => Ok(p.copy()),
            None => Err(Error::PackageNotFound),
        }
    }

    /// The status of the package stored under `id`.
    pub fn view_package_status(&self, id: u64) -> (r: Result<PackageStatus, Error>)
        requires
            self.wf(),
        ensures
            r == (if self@.packages.contains_key(id) {
                Ok(self@.packages[id].status)
            } else {
                Err(Error::PackageNotFound)
            }),
    {
        match self.packages.get(&id) {
            Some(p) => Ok(p.status),
            None => Err(Error::PackageNotFound),
        }
    }

    /// Sums of the amounts of `token` over every package made, by status group.
    pub fn get_aggregates(&self, token: &[u8]) -> (a: Aggregates)
        requires
            self.wf(),
            self@.group_sum(token@, StatusGroup::Paid, self@.index_len as nat) <= i128::MAX,
            self@.group_sum(token@, StatusGroup::Closed, self@.index_len as nat) <= i128::MAX,
        ensures
            a.total_committed == self@.group_sum(token@, StatusGroup::Committed, self@.index_len as nat),
            a.total_claimed == self@.group_sum(token@, StatusGroup::Paid, self@.index_len as nat),
            a.total_expired_cancelled == self@.group_sum(token@, StatusGroup::Closed, self@.index_len as nat),
    {
        let count = self.index_len;
        let ghost s = self@;
        proof {
            lemma_locked_nonneg(s, token@);
            assert(s.locked_of(token@) as int == s.committed(token@));
        }
        let mut total_committed: i128 = 0;
        let mut total_claimed: i128 = 0;
        let mut total_expired_cancelled: i128 = 0;
        let mut i: u64 = 0;
        while i < count
            invariant
                s == self@,
                self.wf(),
                count == s.index_len,
                i <= count,
                s.group_sum(token@, StatusGroup::Committed, count as nat) <= i128::MAX,
                s.group_sum(token@, StatusGroup::Paid, count as nat) <= i128::MAX,
                s.group_sum(token@, StatusGroup::Closed, count as nat) <= i128::MAX,
                total_committed == s.group_sum(token@, StatusGroup::Committed, i as nat),
                total_claimed == s.group_sum(token@, StatusGroup::Paid, i as nat),
                total_expired_cancelled == s.group_sum(token@, StatusGroup::Closed, i as nat),
            decreases count - i,
        {
            proof {
                lemma_sum_monotone(s, token@, StatusGroup::Committed, (i + 1) as nat, count as nat);
                lemma_sum_monotone(s, token@, StatusGroup::Paid, (i + 1) as nat, count as nat);
                lemma_sum_monotone(s, token@, StatusGroup::Closed, (i + 1) as nat, count as nat);
                lemma_sum_monotone(s, token@, StatusGroup::Committed, i as nat, i as nat);
                lemma_sum_monotone(s, token@, StatusGroup::Paid, i as nat, i as nat);
                lemma_sum_monotone(s, token@, StatusGroup::Closed, i as nat, i as nat);
            }
            if let Some(pkg_id) = self.index.get(&i) {
                if let Some(package) = self.packages.get(pkg_id) {
                    assert(s.indexed(i as int) == Some(package@));
                    if bytes_eq(package.token.as_slice(), token) {
                        match package.status {
                            PackageStatus::Created => {
                                total_committed = total_committed + package.amount;
                            },
                            PackageStatus::Claimed => {
                                total_claimed = total_claimed + package.amount;
                            },
                            PackageStatus::Expired | PackageStatus::Cancelled | PackageStatus::Refunded => {
                                total_expired_cancelled = total_expired_cancelled + package.amount;
                            },
                        }
                    }
                }
            }
            i += 1;
        }
        Aggregates { total_committed, total_claimed, total_expired_cancelled }
    }

    /// Whether the claimed and the expired-or-cancelled sums of `token` over every
    /// package made fit in an `i128`, as `get_aggregates` needs.
    pub fn aggregates_fit(&self, token: &[u8]) -> (b: bool)
        requires
            self.wf(),
        ensures
            b == (self@.group_sum(token@, StatusGroup::Paid, self@.index_len as nat) <= i128::MAX
                && self@.group_sum(token@, StatusGroup::Closed, self@.index_len as nat) <= i128::MAX),
    {
        let count = self.index_len;
        let ghost s = self@;
        let mut total_claimed: i128 = 0;
        let mut total_expired_cancelled: i128 = 0;
        let mut i: u64 = 0;
        while i < count
            invariant
                s == self@,
                self.wf(),
                count == s.index_len,
                i <= count,
                total_claimed == s.group_sum(token@, StatusGroup::Paid, i as nat),
                total_expired_cancelled == s.group_sum(token@, StatusGroup::Closed, i as nat),
            decreases count - i,
        {
            proof {
                lemma_sum_monotone(s, token@, StatusGroup::Paid, (i + 1) as nat, count as nat);
                lemma_sum_monotone(s, token@, StatusGroup::Closed, (i + 1) as nat, count as nat);
                lemma_sum_monotone(s, token@, StatusGroup::Paid, i as nat, i as nat);
                lemma_sum_monotone(s, token@, StatusGroup::Closed, i as nat, i as nat);
            }
            if let Some(pkg_id) = self.index.get(&i) {
                if let Some(package) = self.packages.get(pkg_id) {
                    assert(s.indexed(i as int) == Some(package@));
                    assert(package.amount > 0);
                    if bytes_eq(package.token.as_slice(), token) {
                        match package.status {
                            PackageStatus::Claimed => {
                                if total_claimed > i128::MAX - package.amount {
                                    return false;
                                }
                                total_claimed = total_claimed + package.amount;
                            },
                            PackageStatus::Expired | PackageStatus::Cancelled | PackageStatus::Refunded => {
                                if total_expired_cancelled > i128::MAX - package.amount {
                                    return false;
                                }
                                total_expired_cancelled = total_expired_cancelled + package.amount;
                            },
                            PackageStatus::Created => {},
                        }
                    }
                }
            }
            i += 1;
        }
        true
    }

    /// How many stored packages are made out to `recipient`, counted over the ids
    /// below the counter.
    pub fn get_recipient_package_count(&self, recipient: &[u8]) -> (n: u64)
        requires
            self.wf(),
        ensures
            n == recipient_count(self@, recipient@, 0, self@.package_counter as int),
            n == packages_of(self@, recipient@).len(),
    {
        proof {
            crate::laws::law_count_is_stored_packages(self@, recipient@);
        }
        let count = self.package_counter;
        let mut matches: u64 = 0;
        let mut id: u64 = 0;
        while id < count
            invariant
                self.wf(),
                count == self@.package_counter,
                id <= count,
                matches <= id,
                matches == recipient_count(self@, recipient@, 0, id as int),
            decreases count - id,
        {
            if let Some(package) = self.packages.get(&id) {
                if bytes_eq(package.recipient.as_slice(), recipient) {
                    matches += 1;
                }
            }
            id += 1;
        }
        matches
    }

    /// A page of the ids that hold packages for `recipient`: those from `cursor`
    /// up to `cursor + limit` or the counter, whichever is smaller.
    pub fn list_recipient_packages(&self, recipient: &[u8], cursor: u64, limit: u32) -> (ids: Vec<u64>)
        requires
            self.wf(),
        ensures
            ids@ == recipient_ids(self@, recipient@, cursor as int,
                page_end(cursor, limit, self@.package_counter) as int),
    {
        let package_counter = self.package_counter;
        let want = cursor.saturating_add(limit as u64);
        let end_pos = if want > package_counter {
            package_counter
        } else {
            want
        };
        let mut result: Vec<u64> = Vec::new();
        if cursor >= end_pos {
            return result;
        }
        let mut id: u64 = cursor;
        while id < end_pos
            invariant
                self.wf(),
                cursor <= id <= end_pos,
                result@ == recipient_ids(self@, recipient@, cursor as int, id as int),
            decreases end_pos - id,
        {
            if let Some(package) = self.packages.get(&id) {
                if bytes_eq(package.recipient.as_slice(), recipient) {
                    result.push(id);
                }
            }
            id += 1;
        }
        result
    }
}

} // verus!
