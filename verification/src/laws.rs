//! Properties of the escrow as a whole, across its entrypoints.
use vstd::prelude::*;

use crate::actions::{
    after_transfer, claim_refusal, claim_window_refusal, disburse_refusal, refund_refusal, revoke_refusal,
    cancel_refusal, extend_refusal, withdraw_refusal,
};
use crate::admin::{accepted_decimals, claim_action, create_action, pow10, withdraw_action};
use crate::codec::{all_digits, decimal_value, hex_digest_bytes, is_digit, is_hex_digest, nibble_value, parsed_u64};
use crate::merkle::{address_leaf, lemma_lex_le_skip, lex_le, merkle_parent, proof_admits, sha256_digest};
use crate::packages::{
    batch_item_check, batch_items_refusal, batch_precheck, batch_refusal, claim_start_of, create_refusal,
    lemma_items_prefix, lemma_items_sticky, new_package, token_admitted,
};
use crate::queries::{held_for, packages_of, page_end, recipient_count, recipient_ids};
use crate::state::{AidEscrow, EscrowView, StatusGroup};
use crate::types::{Error, PackageStatus, PackageView};

verus! {

/// The locked amount of every token is exactly what its open packages hold, so
/// the aggregates' committed total and `get_total_locked` always agree.
pub proof fn law_locked_matches_committed(s: &AidEscrow, token: Seq<u8>)
    requires
        s.wf(),
    ensures
        s@.locked_of(token) as int == s@.group_sum(token, StatusGroup::Committed, s@.index_len as nat),
        s@.locked_of(token) >= 0,
{
    crate::accounting::lemma_locked_nonneg(s@, token);
}

/// The counter always names a free id, so packages made in batches never
/// overwrite one made with a chosen id.
pub proof fn law_counter_is_free(s: &AidEscrow)
    requires
        s.wf(),
    ensures
        !s@.packages.contains_key(s@.package_counter),
{
    if s@.packages.contains_key(s@.package_counter) {
        assert(s@.packages[s@.package_counter].id < s@.package_counter);
    }
}

/// A claim adds the package's amount to its token's claimed total and takes it
/// off the locked amount; other tokens are untouched.
pub proof fn law_claim_moves_amount(s: &AidEscrow, id: u64, other: Seq<u8>)
    requires
        s.wf(),
        s@.packages.contains_key(id),
        s@.packages[id].status == PackageStatus::Created,
        other != s@.packages[id].token,
        s@.claimed_of(s@.packages[id].token) + s@.packages[id].amount <= i128::MAX,
    ensures
        s@.after_claim(id).claimed_of(s@.packages[id].token) == s@.claimed_of(s@.packages[id].token)
            + s@.packages[id].amount,
        s@.after_claim(id).locked_of(s@.packages[id].token) == s@.locked_of(s@.packages[id].token)
            - s@.packages[id].amount,
        s@.after_claim(id).claimed_of(other) == s@.claimed_of(other),
        s@.after_claim(id).locked_of(other) == s@.locked_of(other),
{
    crate::accounting::lemma_locked_covers(s@, id);
}

/// A package is only created when the escrow's balance covers everything then
/// locked in its token, the new package included.
pub proof fn law_create_keeps_solvency(
    s: EscrowView,
    operator: Seq<u8>,
    id: u64,
    recipient: Seq<u8>,
    amount: i128,
    token: Seq<u8>,
    expires_at: u64,
    metadata: Map<Seq<u8>, Seq<u8>>,
    now: u64,
    decimals: Option<u32>,
    balance: Option<i128>,
)
    requires
        create_refusal(s, operator, id, amount, token, expires_at, metadata, now, decimals, balance) is None,
        s.locked_of(token) + amount <= i128::MAX,
    ensures
        s.after_create(new_package(id, recipient, amount, token, now, expires_at,
            claim_start_of(metadata, now)->0, metadata)).locked_of(token) <= balance->0,
{
}

/// A created package reads back as made: open, with the amount, recipient and
/// token given, claimable from its start until its expiry.
pub proof fn law_create_then_read(s: EscrowView, p: PackageView)
    ensures
        s.after_create(p).packages.contains_key(p.id),
        s.after_create(p).packages[p.id] == p,
{
}

/// Only the surplus leaves through `withdraw_surplus`: when it pays out, the
/// balance still covers every locked amount afterwards.
pub proof fn law_withdraw_spares_locked(
    s: EscrowView,
    amount: i128,
    token: Seq<u8>,
    decimals: Option<u32>,
    balance: Option<i128>,
)
    requires
        withdraw_refusal(s, amount, token, decimals, balance) is None,
    ensures
        balance->0 - amount >= s.locked_of(token),
        amount > 0,
{
}

/// While the escrow is paused, every pausable action is refused.
pub proof fn law_pause_blocks_everything(s: EscrowView, id: u64, now: u64)
    requires
        s.paused,
    ensures
        s.action_paused(create_action()),
        s.action_paused(claim_action()),
        s.action_paused(withdraw_action()),
        claim_window_refusal(s, id, now) == Some(Error::ContractPaused),
{
}

/// Removing a distributor undoes adding it.
pub proof fn law_remove_undoes_add(s: EscrowView, a: Seq<u8>)
    ensures
        !(EscrowView { distributors: s.distributors.insert(a, true).remove(a), ..s }).is_distributor(a),
        (EscrowView { distributors: s.distributors.insert(a, true), ..s }).is_distributor(a),
{
}

/// A package is paid at most once: after a claim, claiming, disbursing,
/// revoking, cancelling, refunding or extending it is refused.
pub proof fn law_claimed_is_final(s: EscrowView, id: u64, now: u64, new_expires_at: u64)
    requires
        s.packages.contains_key(id),
        s.packages[id].status == PackageStatus::Claimed,
        !s.paused,
        !s.claim_paused,
        s.admin is Some,
    ensures
        claim_refusal(s, id, now) == Some(Error::PackageNotActive),
        disburse_refusal(s, id) == Some(Error::PackageNotActive),
        revoke_refusal(s, id) == Some(Error::InvalidState),
        cancel_refusal(s, id, now) == Some(Error::PackageNotActive),
        refund_refusal(s, id, now) == Some(Error::InvalidState),
        extend_refusal(s, id, new_expires_at, now) == Some(Error::PackageNotActive),
{
}

/// A claim leaves the package claimed, so a second claim is refused.
pub proof fn law_claim_once(s: EscrowView, id: u64, now: u64, later: u64)
    requires
        s.packages.contains_key(id),
        claim_refusal(s, id, now) is None,
    ensures
        s.after_claim(id).packages[id].status == PackageStatus::Claimed,
        claim_refusal(s.after_claim(id), id, later) is Some,
{
}

/// A refund leaves the package refunded, and refunding it again is refused.
pub proof fn law_refund_once(s: EscrowView, id: u64, now: u64, later: u64)
    requires
        s.packages.contains_key(id),
        refund_refusal(s, id, now) is None,
    ensures
        s.after_refund(id).packages[id].status == PackageStatus::Refunded,
        refund_refusal(s.after_refund(id), id, later) == Some(Error::InvalidState),
{
}

/// An open package can be refunded only after it expired.
pub proof fn law_refund_needs_expiry(s: EscrowView, id: u64, now: u64)
    requires
        s.admin is Some,
        s.packages.contains_key(id),
        s.packages[id].status == PackageStatus::Created,
    ensures
        refund_refusal(s, id, now) is None <==> (s.packages[id].expires_at > 0 && now > s.packages[id].expires_at),
{
}

/// A failed transfer turns every paying action into `TokenTransferFailed`
/// once its checks pass.
pub proof fn law_failed_transfer_refused(refusal: Option<Error>)
    ensures
        after_transfer(refusal, false) is Err,
        refusal is None ==> after_transfer(refusal, false) == Err::<(), Error>(Error::TokenTransferFailed),
        refusal is None ==> after_transfer(refusal, true) == Ok::<(), Error>(()),
{
}

/// An allowlist of one address is its leaf: the empty proof admits exactly the
/// claimant whose leaf is the root.
pub proof fn law_single_leaf_allowlist(claimant: Seq<u8>, root: Seq<u8>)
    ensures
        proof_admits(claimant, Seq::empty(), root) <==> root == address_leaf(claimant),
{
    assert(Seq::<Seq<u8>>::empty().map_values(|h: Seq<u8>| crate::codec::hex_digest_bytes(h)) =~= Seq::empty());
}

/// Listing a recipient's packages over a range finds as many ids as counting
/// them, each holding a package for that recipient, within the range.
pub proof fn law_list_matches_count(s: EscrowView, recipient: Seq<u8>, lo: int, hi: int)
    ensures
        recipient_ids(s, recipient, lo, hi).len() == recipient_count(s, recipient, lo, hi),
        forall|i: int| 0 <= i < recipient_ids(s, recipient, lo, hi).len() ==> {
            &&& lo <= #[trigger] recipient_ids(s, recipient, lo, hi)[i] < hi
            &&& held_for(s, recipient, recipient_ids(s, recipient, lo, hi)[i] as int)
        },
    decreases hi - lo,
{
    if hi > lo {
        law_list_matches_count(s, recipient, lo, hi - 1);
    }
}

/// A page from id `0` as long as the counter lists every package of the recipient.
pub proof fn law_full_page_is_count(s: EscrowView, recipient: Seq<u8>, limit: u32)
    requires
        limit >= s.package_counter,
    ensures
        recipient_ids(s, recipient, 0, page_end(0, limit, s.package_counter) as int).len()
            == recipient_count(s, recipient, 0, s.package_counter as int),
{
    law_list_matches_count(s, recipient, 0, s.package_counter as int);
}

/// The ids listed for a recipient rise strictly.
proof fn lemma_ids_rise(s: EscrowView, recipient: Seq<u8>, lo: int, hi: int)
    ensures
        forall|i: int, j: int|
            0 <= i < j < recipient_ids(s, recipient, lo, hi).len() ==> #[trigger] recipient_ids(s, recipient, lo,
                hi)[i] < #[trigger] recipient_ids(s, recipient, lo, hi)[j],
    decreases hi - lo,
{
    if hi > lo {
        lemma_ids_rise(s, recipient, lo, hi - 1);
        law_list_matches_count(s, recipient, lo, hi - 1);
    }
}

/// Every id in `lo..hi` that holds a package for the recipient is listed.
proof fn lemma_ids_complete(s: EscrowView, recipient: Seq<u8>, lo: int, hi: int, id: int)
    requires
        lo <= id < hi,
        held_for(s, recipient, id),
    ensures
        recipient_ids(s, recipient, lo, hi).contains(id as u64),
    decreases hi - lo,
{
    if id < hi - 1 {
        lemma_ids_complete(s, recipient, lo, hi - 1, id);
        let prev = recipient_ids(s, recipient, lo, hi - 1);
        let k = choose|k: int| 0 <= k < prev.len() && prev[k] == id as u64;
        if held_for(s, recipient, hi - 1) {
            assert(recipient_ids(s, recipient, lo, hi)[k] == id as u64);
        }
    } else {
        let ids = recipient_ids(s, recipient, lo, hi);
        assert(ids[ids.len() - 1] == id as u64);
    }
}

/// The recipient's package count is the number of stored packages made out to
/// it: the listing below the counter names each of them exactly once.
pub proof fn law_count_is_stored_packages(s: EscrowView, recipient: Seq<u8>)
    requires
        s.wf(),
    ensures
        recipient_ids(s, recipient, 0, s.package_counter as int).no_duplicates(),
        recipient_ids(s, recipient, 0, s.package_counter as int).to_set() == packages_of(s, recipient),
        recipient_count(s, recipient, 0, s.package_counter as int) == packages_of(s, recipient).len(),
{
    let ids = recipient_ids(s, recipient, 0, s.package_counter as int);
    lemma_ids_rise(s, recipient, 0, s.package_counter as int);
    law_list_matches_count(s, recipient, 0, s.package_counter as int);
    assert forall|id: u64| #[trigger] packages_of(s, recipient).contains(id) implies ids.contains(id) by {
        assert(s.packages[id].id == id);
        lemma_ids_complete(s, recipient, 0, s.package_counter as int, id as int);
    }
    assert forall|id: u64| ids.contains(id) implies #[trigger] packages_of(s, recipient).contains(id) by {
        let k = choose|k: int| 0 <= k < ids.len() && ids[k] == id;
        assert(held_for(s, recipient, ids[k] as int));
    }
    assert(ids.to_set() =~= packages_of(s, recipient));
    ids.unique_seq_to_set();
}

/// The decimal text of `n`, most significant digit first, without leading zeros.
pub open spec fn decimal_text(n: nat) -> Seq<u8>
    decreases n,
{
    if n < 10 {
        seq![(48 + n) as u8]
    } else {
        decimal_text(n / 10).push((48 + n % 10) as u8)
    }
}

proof fn lemma_decimal_text(n: nat, k: nat)
    requires
        n < pow10(k),
    ensures
        all_digits(decimal_text(n)),
        decimal_value(decimal_text(n)) == n,
        1 <= decimal_text(n).len() <= if k == 0 { 1 } else { k },
    decreases n,
{
    if n >= 10 {
        assert(k >= 2) by {
            if k == 0 {
            } else if k == 1 {
                assert(pow10(1) == 10 * pow10(0));
            }
        }
        assert((n / 10) < pow10((k - 1) as nat));
        lemma_decimal_text(n / 10, (k - 1) as nat);
        let t = decimal_text(n);
        assert(t.drop_last() =~= decimal_text(n / 10));
        assert forall|i: int| 0 <= i < t.len() implies #[trigger] is_digit(t[i]) by {
            if i < t.len() - 1 {
                assert(t[i] == decimal_text(n / 10)[i]);
            }
        }
        assert(t.last() == (48 + n % 10) as u8);
        assert(decimal_value(t) == decimal_value(decimal_text(n / 10)) * 10 + (n % 10));
        assert((n / 10) * 10 + n % 10 == n);
    } else {
        let t = decimal_text(n);
        assert(t.drop_last() =~= Seq::<u8>::empty());
        assert(decimal_value(t) == decimal_value(t.drop_last()) * 10 + n);
    }
}

/// Whatever `u64` is written in decimal, `parse_u64` reads it back.
pub proof fn law_parse_reads_decimal_text(n: u64)
    ensures
        parsed_u64(decimal_text(n as nat)) == Some(n),
{
    reveal_with_fuel(pow10, 21);
    assert(pow10(20) == 100000000000000000000);
    lemma_decimal_text(n as nat, 20);
}

/// The lowercase hexadecimal digit of `d`, for `d < 16`.
pub open spec fn hex_digit(d: int) -> u8 {
    if d < 10 {
        (48 + d) as u8
    } else {
        (87 + d) as u8
    }
}

/// The lowercase hexadecimal text of a byte string, two digits per byte.
pub open spec fn hex_text(b: Seq<u8>) -> Seq<u8> {
    Seq::new(2 * b.len(), |i: int| if i % 2 == 0 { hex_digit(b[i / 2] as int / 16) } else { hex_digit(b[i / 2] as int % 16) })
}

/// `parse_hex_32` reads back the hexadecimal text of any thirty-two bytes.
pub proof fn law_parse_hex_reads_hex_text(b: Seq<u8>)
    requires
        b.len() == 32,
    ensures
        is_hex_digest(hex_text(b)),
        hex_digest_bytes(hex_text(b)) == b,
{
    let t = hex_text(b);
    assert forall|i: int| 0 <= i < 64 implies (#[trigger] nibble_value(t[i])) is Some by {
        let v: int = if i % 2 == 0 { b[i / 2] as int / 16 } else { b[i / 2] as int % 16 };
        assert(0 <= v < 16);
    }
    assert forall|i: int| 0 <= i < 32 implies #[trigger] hex_digest_bytes(t)[i] == b[i] by {
        assert((2 * i) % 2 == 0);
        assert((2 * i + 1) % 2 == 1);
        assert((2 * i) / 2 == i);
        assert((2 * i + 1) / 2 == i);
        let hi: int = b[i] as int / 16;
        let lo: int = b[i] as int % 16;
        assert(nibble_value(t[2 * i]) == Some(hi as u8));
        assert(nibble_value(t[2 * i + 1]) == Some(lo as u8));
        assert(hi * 16 + lo == b[i]);
    }
    assert(hex_digest_bytes(t) =~= b);
}

/// The statuses a package may move between: forward only, and never out of
/// `Claimed` or `Refunded`.
pub open spec fn status_step(a: PackageStatus, b: PackageStatus) -> bool {
    ||| a == b
    ||| a == PackageStatus::Created && (b == PackageStatus::Claimed || b == PackageStatus::Cancelled
        || b == PackageStatus::Refunded)
    ||| (a == PackageStatus::Cancelled || a == PackageStatus::Expired) && b == PackageStatus::Refunded
}

/// Every entrypoint that changes a package moves its status forward, and
/// leaves every other package as it was.
pub proof fn law_statuses_move_forward(s: EscrowView, id: u64, other: u64, e: u64, now: u64)
    requires
        s.packages.contains_key(id),
        other != id,
    ensures
        claim_refusal(s, id, now) is None ==> status_step(s.packages[id].status, s.after_claim(id).packages[id].status),
        disburse_refusal(s, id) is None ==> status_step(s.packages[id].status,
            s.closed_as(id, PackageStatus::Claimed).packages[id].status),
        revoke_refusal(s, id) is None ==> status_step(s.packages[id].status,
            s.closed_as(id, PackageStatus::Cancelled).packages[id].status),
        refund_refusal(s, id, now) is None ==> status_step(s.packages[id].status, s.after_refund(id).packages[id].status),
        s.with_expiry(id, e).packages[id].status == s.packages[id].status,
        s.after_claim(id).packages.contains_key(other) == s.packages.contains_key(other),
        s.after_claim(id).packages[other] == s.packages[other],
        s.after_refund(id).packages[other] == s.packages[other],
        s.closed_as(id, PackageStatus::Cancelled).packages[other] == s.packages[other],
        s.with_expiry(id, e).packages[other] == s.packages[other],
{
}

/// One Merkle step hashes the two digests smaller first, in the order of byte
/// arrays from byte `0`: where `a` and `b` first differ, at byte `k`, the one with
/// the smaller byte there goes first, whichever of the two is the climbing node.
pub proof fn law_merkle_step_hashes_smaller_first(a: Seq<u8>, b: Seq<u8>, k: int)
    requires
        a.len() == 32,
        b.len() == 32,
        0 <= k < 32,
        forall|j: int| 0 <= j < k ==> a[j] == b[j],
        a[k] < b[k],
    ensures
        merkle_parent(a, b) == sha256_digest(a + b),
        merkle_parent(b, a) == sha256_digest(a + b),
{
    lemma_lex_le_skip(a, b, k);
    lemma_lex_le_skip(b, a, k);
    assert(a.skip(k)[0] == a[k]);
    assert(b.skip(k)[0] == b[k]);
    assert(lex_le(a.skip(k), b.skip(k)));
    assert(!lex_le(b.skip(k), a.skip(k)));
}

/// A node climbing past an equal sibling is hashed with itself.
pub proof fn law_merkle_step_equal_digests(a: Seq<u8>)
    requires
        a.len() == 32,
    ensures
        merkle_parent(a, a) == sha256_digest(a + a),
{
    lemma_lex_le_skip(a, a, 32);
    assert(a.skip(32).len() == 0);
}

/// The sorted-pair tree of two leaves admits each of them: a one-entry proof
/// naming the other leaf reaches the root that hashes the smaller leaf first,
/// smaller by the first byte where the two leaves differ.
pub proof fn law_two_leaf_proof_admits(claimant: Seq<u8>, sibling_hex: Seq<u8>, k: int)
    requires
        is_hex_digest(sibling_hex),
        address_leaf(claimant).len() == 32,
        0 <= k < 32,
        forall|j: int| 0 <= j < k ==> address_leaf(claimant)[j] == hex_digest_bytes(sibling_hex)[j],
        address_leaf(claimant)[k] != hex_digest_bytes(sibling_hex)[k],
    ensures
        address_leaf(claimant)[k] < hex_digest_bytes(sibling_hex)[k] ==> proof_admits(claimant, seq![sibling_hex],
            sha256_digest(address_leaf(claimant) + hex_digest_bytes(sibling_hex))),
        address_leaf(claimant)[k] > hex_digest_bytes(sibling_hex)[k] ==> proof_admits(claimant, seq![sibling_hex],
            sha256_digest(hex_digest_bytes(sibling_hex) + address_leaf(claimant))),
{
    let leaf = address_leaf(claimant);
    let sib = hex_digest_bytes(sibling_hex);
    let entries = seq![sibling_hex].map_values(|h: Seq<u8>| hex_digest_bytes(h));
    assert(entries.len() == 1);
    assert(entries.last() == sib);
    assert(entries.drop_last() =~= Seq::<Seq<u8>>::empty());
    assert(crate::merkle::merkle_climb(leaf, entries.drop_last()) == leaf);
    assert(crate::merkle::merkle_climb(leaf, entries) == merkle_parent(leaf, sib));
    assert(seq![sibling_hex][0] == sibling_hex);
    if leaf[k] < sib[k] {
        law_merkle_step_hashes_smaller_first(leaf, sib, k);
    } else {
        assert forall|j: int| 0 <= j < k implies sib[j] == leaf[j] by {}
        law_merkle_step_hashes_smaller_first(sib, leaf, k);
    }
}

/// A token is admitted exactly when the allowlist is empty or names it at some
/// position, any position.
pub proof fn law_token_admitted_anywhere_in_list(s: EscrowView, token: Seq<u8>)
    ensures
        token_admitted(s, token) <==> (s.config.allowed_tokens.len() == 0 || exists|i: int|
            0 <= i < s.config.allowed_tokens.len() && s.config.allowed_tokens[i] == token),
{
    if exists|i: int| 0 <= i < s.config.allowed_tokens.len() && s.config.allowed_tokens[i] == token {
        let i = choose|i: int| 0 <= i < s.config.allowed_tokens.len() && s.config.allowed_tokens[i] == token;
        assert(s.config.allowed_tokens.contains(token));
    }
}

/// Every package of a batch that goes through is a positive amount of whole
/// units of its token, at least the configured minimum, and claimable before it
/// expires.
pub proof fn law_batch_items_are_whole_units(
    s: EscrowView,
    operator: Seq<u8>,
    recipients: Seq<Seq<u8>>,
    amounts: Seq<i128>,
    token: Seq<u8>,
    expires_in: u64,
    metadatas: Seq<Map<Seq<u8>, Seq<u8>>>,
    now: u64,
    decimals: Option<u32>,
    balance: Option<i128>,
    i: int,
)
    requires
        batch_refusal(s, operator, recipients, amounts, token, expires_in, metadatas, now, decimals, balance) is None,
        0 <= i < amounts.len(),
    ensures
        accepted_decimals(decimals),
        amounts[i] > 0,
        amounts[i] >= s.config.min_amount,
        (amounts[i] as int) % pow10(decimals->0 as nat) == 0,
        claim_start_of(metadatas[i], now) is Some,
        claim_start_of(metadatas[i], now)->0 <= (now + expires_in) as u64,
{
    lemma_items_prefix(amounts, metadatas, now, (now + expires_in) as u64, s.config.min_amount,
        pow10(decimals->0 as nat), balance->0, s.locked_of(token) as int, i as nat, amounts.len());
}

/// A batch whose packages before `i` all pass, and whose package `i` can be
/// claimed in time but is no whole number of units, is refused with
/// `InvalidAmount`, whatever follows it.
pub proof fn law_batch_refuses_fractional_amount(
    s: EscrowView,
    operator: Seq<u8>,
    recipients: Seq<Seq<u8>>,
    amounts: Seq<i128>,
    token: Seq<u8>,
    expires_in: u64,
    metadatas: Seq<Map<Seq<u8>, Seq<u8>>>,
    now: u64,
    decimals: Option<u32>,
    balance: Option<i128>,
    i: int,
)
    requires
        batch_precheck(s, operator, recipients.len(), amounts.len(), metadatas.len(), token, expires_in, decimals,
            balance) is None,
        0 <= i < amounts.len(),
        batch_items_refusal(amounts, metadatas, now, (now + expires_in) as u64, s.config.min_amount,
            pow10(decimals->0 as nat), balance->0, s.locked_of(token) as int, i as nat) is None,
        claim_start_of(metadatas[i], now) is Some,
        claim_start_of(metadatas[i], now)->0 <= (now + expires_in) as u64,
        amounts[i] > 0,
        (amounts[i] as int) % pow10(decimals->0 as nat) != 0,
    ensures
        batch_refusal(s, operator, recipients, amounts, token, expires_in, metadatas, now, decimals, balance)
            == Some(Error::InvalidAmount),
{
    let expires_at = (now + expires_in) as u64;
    let unit = pow10(decimals->0 as nat);
    assert(batch_item_check(amounts[i], metadatas[i], now, expires_at, s.config.min_amount, unit)
        == Some(Error::InvalidAmount));
    assert(batch_items_refusal(amounts, metadatas, now, expires_at, s.config.min_amount, unit, balance->0,
        s.locked_of(token) as int, (i + 1) as nat) == Some(Error::InvalidAmount));
    lemma_items_sticky(amounts, metadatas, now, expires_at, s.config.min_amount, unit, balance->0,
        s.locked_of(token) as int, (i + 1) as nat, amounts.len());
}

/// The sums by status group after package `id` takes status `st`, whatever else
/// changes outside the packages.
proof fn lemma_sums_after_status(s: EscrowView, s2: EscrowView, id: u64, st: PackageStatus, token: Seq<u8>, g: StatusGroup)
    requires
        s.wf(),
        s.packages.contains_key(id),
        s2.packages == s.with_status(id, st).packages,
        s2.index == s.index,
        s2.index_len == s.index_len,
    ensures
        s2.group_sum(token, g, s.index_len as nat) == s.group_sum(token, g, s.index_len as nat)
            - crate::state::share(s.packages[id], token, g) + crate::state::share(
            PackageView { status: st, ..s.packages[id] }, token, g),
{
    let p2 = PackageView { status: st, ..s.packages[id] };
    crate::accounting::lemma_sum_update(s, id, p2, token, g);
    let s1 = EscrowView { packages: s.packages.insert(id, p2), ..s };
    assert forall|k: int| 0 <= k < s.index_len implies #[trigger] s1.indexed(k) == s2.indexed(k) by {}
    crate::accounting::lemma_sum_frame(s1, s2, token, g, s.index_len as nat);
}

/// A claim moves the package's amount of its token from the committed total to
/// the claimed total; the expired-or-cancelled total is untouched, and so are
/// the totals of every other token.
pub proof fn law_claim_moves_committed_to_claimed(s: EscrowView, id: u64, token: Seq<u8>)
    requires
        s.wf(),
        s.packages.contains_key(id),
        s.packages[id].status == PackageStatus::Created,
    ensures
        s.after_claim(id).group_sum(token, StatusGroup::Committed, s.index_len as nat) == s.group_sum(token,
            StatusGroup::Committed, s.index_len as nat) - (if s.packages[id].token == token {
            s.packages[id].amount as int
        } else {
            0
        }),
        s.after_claim(id).group_sum(token, StatusGroup::Paid, s.index_len as nat) == s.group_sum(token,
            StatusGroup::Paid, s.index_len as nat) + (if s.packages[id].token == token {
            s.packages[id].amount as int
        } else {
            0
        }),
        s.after_claim(id).group_sum(token, StatusGroup::Closed, s.index_len as nat) == s.group_sum(token,
            StatusGroup::Closed, s.index_len as nat),
{
    let s2 = s.after_claim(id);
    lemma_sums_after_status(s, s2, id, PackageStatus::Claimed, token, StatusGroup::Committed);
    lemma_sums_after_status(s, s2, id, PackageStatus::Claimed, token, StatusGroup::Paid);
    lemma_sums_after_status(s, s2, id, PackageStatus::Claimed, token, StatusGroup::Closed);
}

/// Cancelling or revoking an open package moves its amount from the committed
/// total to the expired-or-cancelled total; the claimed total is untouched.
pub proof fn law_cancel_moves_committed_to_closed(s: EscrowView, id: u64, token: Seq<u8>)
    requires
        s.wf(),
        s.packages.contains_key(id),
        s.packages[id].status == PackageStatus::Created,
    ensures
        s.closed_as(id, PackageStatus::Cancelled).group_sum(token, StatusGroup::Committed, s.index_len as nat)
            == s.group_sum(token, StatusGroup::Committed, s.index_len as nat) - (if s.packages[id].token == token {
            s.packages[id].amount as int
        } else {
            0
        }),
        s.closed_as(id, PackageStatus::Cancelled).group_sum(token, StatusGroup::Closed, s.index_len as nat)
            == s.group_sum(token, StatusGroup::Closed, s.index_len as nat) + (if s.packages[id].token == token {
            s.packages[id].amount as int
        } else {
            0
        }),
        s.closed_as(id, PackageStatus::Cancelled).group_sum(token, StatusGroup::Paid, s.index_len as nat)
            == s.group_sum(token, StatusGroup::Paid, s.index_len as nat),
{
    let s2 = s.closed_as(id, PackageStatus::Cancelled);
    lemma_sums_after_status(s, s2, id, PackageStatus::Cancelled, token, StatusGroup::Committed);
    lemma_sums_after_status(s, s2, id, PackageStatus::Cancelled, token, StatusGroup::Paid);
    lemma_sums_after_status(s, s2, id, PackageStatus::Cancelled, token, StatusGroup::Closed);
}

/// A refund never counts as paid out to a recipient: the claimed total stays as
/// it was. A package refunded while still open moves its amount from the
/// committed total to the expired-or-cancelled total; one already cancelled
/// stays counted there.
pub proof fn law_refund_is_not_claimed(s: EscrowView, id: u64, now: u64, token: Seq<u8>)
    requires
        s.wf(),
        refund_refusal(s, id, now) is None,
    ensures
        s.after_refund(id).group_sum(token, StatusGroup::Paid, s.index_len as nat) == s.group_sum(token,
            StatusGroup::Paid, s.index_len as nat),
        s.after_refund(id).group_sum(token, StatusGroup::Closed, s.index_len as nat) == s.group_sum(token,
            StatusGroup::Closed, s.index_len as nat) + (if s.packages[id].token == token && s.packages[id].status
            == PackageStatus::Created {
            s.packages[id].amount as int
        } else {
            0
        }),
        s.after_refund(id).group_sum(token, StatusGroup::Committed, s.index_len as nat) == s.group_sum(token,
            StatusGroup::Committed, s.index_len as nat) - (if s.packages[id].token == token
            && s.packages[id].status == PackageStatus::Created {
            s.packages[id].amount as int
        } else {
            0
        }),
{
    let s2 = s.after_refund(id);
    lemma_sums_after_status(s, s2, id, PackageStatus::Refunded, token, StatusGroup::Committed);
    lemma_sums_after_status(s, s2, id, PackageStatus::Refunded, token, StatusGroup::Paid);
    lemma_sums_after_status(s, s2, id, PackageStatus::Refunded, token, StatusGroup::Closed);
}

/// A package made without an expiry (`expires_at == 0`) never expires: while it
/// is open the admin can cancel or revoke it at any time, claims on it are never
/// refused as expired, and it is never refunded as expired.
pub proof fn law_no_expiry_never_expires(s: EscrowView, id: u64, now: u64)
    requires
        s.admin is Some,
        s.packages.contains_key(id),
        s.packages[id].status == PackageStatus::Created,
        s.packages[id].expires_at == 0,
    ensures
        cancel_refusal(s, id, now) is None,
        revoke_refusal(s, id) is None,
        claim_window_refusal(s, id, now) != Some(Error::PackageExpired),
        refund_refusal(s, id, now) == Some(Error::InvalidState),
{
}

} // verus!
