//! Scenarios of the escrow, driven the way the contract drives it: token queries
//! and transfers are answered by a small in-memory token ledger.
use std::collections::HashMap;

use aid_escrow::{AidEscrow, Config, Error, Metadata, PackageStatus};

// Amounts for 7-decimal tokens.
const ONE_TOKEN: i128 = 10_000_000;
const TWO_TOKENS: i128 = 20_000_000;
const HALF_TOKEN: i128 = 5_000_000;

/// A token contract: fixed decimals and a balance per address.
struct TokenLedger {
    address: Vec<u8>,
    decimals: u32,
    balances: HashMap<Vec<u8>, i128>,
}

impl TokenLedger {
    fn new(address: &str) -> Self {
        TokenLedger { address: address.as_bytes().to_vec(), decimals: 7, balances: HashMap::new() }
    }

    fn balance(&self, who: &[u8]) -> i128 {
        *self.balances.get(who).unwrap_or(&0)
    }

    fn mint(&mut self, who: &[u8], amount: i128) {
        let b = self.balance(who);
        self.balances.insert(who.to_vec(), b + amount);
    }

    fn burn(&mut self, who: &[u8], amount: i128) {
        let b = self.balance(who);
        self.balances.insert(who.to_vec(), b - amount);
    }

    fn transfer(&mut self, from: &[u8], to: &[u8], amount: i128) -> bool {
        if amount < 0 || self.balance(from) < amount {
            return false;
        }
        self.burn(from, amount);
        self.mint(to, amount);
        true
    }
}

struct TestSetup {
    escrow: AidEscrow,
    env: soroban_sdk::Env,
    contract: Vec<u8>,
    admin: Vec<u8>,
    token: Vec<u8>,
    ledger: TokenLedger,
    now: u64,
}

fn addr(name: &str) -> Vec<u8> {
    name.as_bytes().to_vec()
}

impl TestSetup {
    fn with_time(now: u64) -> Self {
        let ledger = TokenLedger::new("CTOKENAAAAAAAAAAAAAAAAAAAAAAAAAAAAAAAAAAAAAAAAAAAAAAAAAA");
        let mut t = TestSetup {
            escrow: AidEscrow::new(),
            env: soroban_sdk::Env::default(),
            contract: addr("CESCROWAAAAAAAAAAAAAAAAAAAAAAAAAAAAAAAAAAAAAAAAAAAAAAAAA"),
            admin: addr("GADMINAAAAAAAAAAAAAAAAAAAAAAAAAAAAAAAAAAAAAAAAAAAAAAAAAA"),
            token: ledger.address.clone(),
            ledger,
            now,
        };
        let admin = t.admin.clone();
        t.escrow.init(admin).unwrap();
        t
    }

    /// As the integration tests set up: time 1_000_000, a permissive configuration.
    fn new() -> Self {
        let mut t = Self::with_time(1_000_000);
        t.set_config(Config { min_amount: 1, max_expires_in: 0, allowed_tokens: Vec::new() }).unwrap();
        t
    }

    fn decimals_of(&self, token: &[u8]) -> Option<u32> {
        if token == self.ledger.address.as_slice() { Some(self.ledger.decimals) } else { None }
    }

    fn balance_of(&self, token: &[u8], who: &[u8]) -> Option<i128> {
        if token == self.ledger.address.as_slice() { Some(self.ledger.balance(who)) } else { None }
    }

    fn set_config(&mut self, config: Config) -> Result<(), Error> {
        let decimals: Vec<Option<u32>> = config.allowed_tokens.iter().map(|t| self.decimals_of(t)).collect();
        let admin = self.admin.clone();
        self.escrow.set_config(&admin, config, &decimals)
    }

    fn fund_contract(&mut self, amount: i128) {
        let c = self.contract.clone();
        self.ledger.mint(&c, amount);
    }

    fn fund(&mut self, token: &[u8], from: &[u8], amount: i128) -> Result<(), Error> {
        let decimals = self.decimals_of(token);
        let (token, from) = (token.to_vec(), from.to_vec());
        let deposit = AidEscrow::fund_deposit(&token, &from, amount, decimals)?;
        let transferred = self.receive(&deposit);
        AidEscrow::fund(&token, &from, amount, decimals, transferred)
    }

    fn receive(&mut self, deposit: &aid_escrow::Deposit) -> bool {
        if deposit.token.as_slice() != self.ledger.address.as_slice() {
            return false;
        }
        let c = self.contract.clone();
        self.ledger.transfer(&deposit.from, &c, deposit.amount)
    }

    fn advance_time(&mut self, seconds: u64) {
        self.now += seconds;
    }

    fn create_package(
        &mut self,
        operator: &[u8],
        id: u64,
        recipient: &[u8],
        amount: i128,
        token: &[u8],
        expires_at: u64,
        metadata: Metadata,
    ) -> Result<u64, Error> {
        let decimals = self.decimals_of(token);
        let balance = self.balance_of(token, &self.contract);
        self.escrow.create_package(
            operator,
            id,
            recipient.to_vec(),
            amount,
            token.to_vec(),
            expires_at,
            metadata,
            self.now,
            decimals,
            balance,
        )
    }

    fn create_default_package(&mut self, recipient: &[u8], amount: i128) -> u64 {
        self.fund_contract(amount);
        let expires_at = self.now + 3_600;
        let admin = self.admin.clone();
        let token = self.token.clone();
        self.create_package(&admin, 1, recipient, amount, &token, expires_at, Metadata::new()).unwrap()
    }

    fn pay(&mut self, payout: &aid_escrow::Payout) -> bool {
        if payout.token.as_slice() != self.ledger.address.as_slice() {
            return false;
        }
        let c = self.contract.clone();
        self.ledger.transfer(&c, &payout.to, payout.amount)
    }

    fn claim(&mut self, id: u64) -> Result<(), Error> {
        let payout = self.escrow.claim_payout(id, self.now)?;
        let transferred = self.pay(&payout);
        self.escrow.claim(id, self.now, transferred)
    }

    fn claim_with_proof(&mut self, id: u64, claimant: &[u8], proof: &Vec<Vec<u8>>) -> Result<(), Error> {
        let claimant = claimant.to_vec();
        let payout = self.escrow.claim_with_proof_payout(&self.env, id, &claimant, proof, self.now)?;
        let transferred = self.pay(&payout);
        self.escrow.claim_with_proof(&self.env, id, &claimant, proof, self.now, transferred)
    }

    fn disburse(&mut self, id: u64) -> Result<(), Error> {
        let payout = self.escrow.disburse_payout(id)?;
        let transferred = self.pay(&payout);
        self.escrow.disburse(id, transferred)
    }

    fn withdraw_surplus(&mut self, to: &[u8], amount: i128, token: &[u8]) -> Result<(), Error> {
        let decimals = self.decimals_of(token);
        let balance = self.balance_of(token, &self.contract);
        let (to, token) = (to.to_vec(), token.to_vec());
        let payout = self.escrow.withdraw_surplus_payout(&to, amount, &token, decimals, balance)?;
        let transferred = self.pay(&payout);
        self.escrow.withdraw_surplus(&to, amount, &token, decimals, balance, transferred)
    }

    fn batch(&mut self, recipients: Vec<Vec<u8>>, amounts: Vec<i128>, expires_in: u64, metadatas: Vec<Metadata>) -> Result<Vec<u64>, Error> {
        let token = self.token.clone();
        let admin = self.admin.clone();
        let decimals = self.decimals_of(&token);
        let balance = self.balance_of(&token, &self.contract);
        self.escrow.batch_create_packages(&admin, &recipients, &amounts, &token, expires_in, &metadatas, self.now, decimals, balance)
    }

    fn refund(&mut self, id: u64) -> Result<(), Error> {
        let payout = self.escrow.refund_payout(id, self.now)?;
        let transferred = self.pay(&payout);
        self.escrow.refund(id, self.now, transferred)
    }
}

fn metadata_with(key: &str, value: &str) -> Metadata {
    let mut m = Metadata::new();
    m.set(key.as_bytes().to_vec(), value.as_bytes().to_vec());
    m
}

/// The allowlist leaf of an address, in lowercase hexadecimal.
fn claimant_leaf_hex(env: &soroban_sdk::Env, claimant: &[u8]) -> String {
    let data = soroban_sdk::Bytes::from_slice(env, claimant);
    let hash = env.crypto().sha256(&data).to_array();
    let mut out = String::with_capacity(64);
    for b in hash {
        out.push_str(&format!("{:02x}", b));
    }
    out
}

// ----- create_package ------------------------------------------------------

#[test]
fn succeeds_with_valid_inputs() {
    let mut t = TestSetup::new();
    let recipient = addr("GRECIPIENTAAAAAAAAAAAAAAAAAAAAAAAAAAAAAAAAAAAAAAAAAAAAAA");
    let id = t.create_default_package(&recipient, ONE_TOKEN);
    let pkg = t.escrow.get_package(id).unwrap();
    assert_eq!(pkg.status, PackageStatus::Created);
    assert_eq!(pkg.amount, ONE_TOKEN);
}

#[test]
fn succeeds_with_metadata() {
    let mut t = TestSetup::new();
    let recipient = addr("GRECIPIENT");
    t.fund_contract(ONE_TOKEN);
    let expires_at = t.now + 3_600;
    let metadata = metadata_with("tag", "aid-01");
    let (admin, token) = (t.admin.clone(), t.token.clone());
    let id = t.create_package(&admin, 42, &recipient, ONE_TOKEN, &token, expires_at, metadata).unwrap();
    let pkg = t.escrow.get_package(id).unwrap();
    assert_eq!(pkg.metadata.get(b"tag").unwrap().as_slice(), b"aid-01");
}

#[test]
fn fails_when_amount_below_min_amount() {
    let mut t = TestSetup::new();
    t.set_config(Config { min_amount: TWO_TOKENS, max_expires_in: 0, allowed_tokens: Vec::new() }).unwrap();
    let (admin, token, now) = (t.admin.clone(), t.token.clone(), t.now);
    let result = t.create_package(&admin, 1, &addr("GOTHER"), ONE_TOKEN, &token, now + 3600, Metadata::new());
    assert_eq!(result, Err(Error::InvalidAmount));
}

#[test]
fn fails_when_package_id_already_exists() {
    let mut t = TestSetup::new();
    let recipient = addr("GRECIPIENT");
    t.create_default_package(&recipient, ONE_TOKEN);
    let (admin, token, now) = (t.admin.clone(), t.token.clone(), t.now);
    let result = t.create_package(&admin, 1, &recipient, ONE_TOKEN, &token, now + 3600, Metadata::new());
    assert_eq!(result, Err(Error::PackageIdExists));
}

#[test]
fn fails_when_contract_has_insufficient_balance() {
    let mut t = TestSetup::new();
    t.fund_contract(HALF_TOKEN);
    let (admin, token, now) = (t.admin.clone(), t.token.clone(), t.now);
    let result = t.create_package(&admin, 1, &addr("GOTHER"), ONE_TOKEN, &token, now + 3600, Metadata::new());
    assert_eq!(result, Err(Error::InsufficientFunds));
}

// ----- token validation and transfer failures ------------------------------

#[test]
fn create_package_rejects_invalid_token_address() {
    let mut t = TestSetup::new();
    let invalid_token = addr("CNOTATOKEN");
    let (admin, now) = (t.admin.clone(), t.now);
    let result = t.create_package(&admin, 1, &addr("GOTHER"), ONE_TOKEN, &invalid_token, now + 3600, Metadata::new());
    assert_eq!(result, Err(Error::InvalidToken));
}

#[test]
fn set_config_rejects_invalid_allowed_token_address() {
    let mut t = TestSetup::new();
    let allowed_tokens = vec![addr("CNOTATOKEN")];
    let result = t.set_config(Config { min_amount: 1, max_expires_in: 0, allowed_tokens });
    assert_eq!(result, Err(Error::InvalidToken));
}

#[test]
fn fund_maps_reverted_token_transfer_to_clear_contract_error() {
    let mut t = TestSetup::new();
    let (token, admin) = (t.token.clone(), t.admin.clone());
    let result = t.fund(&token, &admin, ONE_TOKEN);
    assert_eq!(result, Err(Error::TokenTransferFailed));
}

#[test]
fn claim_keeps_accounting_unchanged_when_token_transfer_reverts() {
    let mut t = TestSetup::new();
    let recipient = addr("GRECIPIENT");
    let id = t.create_default_package(&recipient, ONE_TOKEN);
    let c = t.contract.clone();
    t.ledger.burn(&c, ONE_TOKEN);

    let result = t.claim(id);

    assert_eq!(result, Err(Error::TokenTransferFailed));
    assert_eq!(t.escrow.get_package(id).unwrap().status, PackageStatus::Created);
    assert_eq!(t.escrow.get_total_locked(&t.token), ONE_TOKEN);
    assert_eq!(t.ledger.balance(&recipient), 0);
}

// ----- claim ---------------------------------------------------------------

#[test]
fn succeeds_when_recipient_claims_within_window() {
    let mut t = TestSetup::new();
    let recipient = addr("GRECIPIENT");
    let id = t.create_default_package(&recipient, TWO_TOKENS);

    t.claim(id).unwrap();
    let pkg = t.escrow.get_package(id).unwrap();
    assert_eq!(pkg.status, PackageStatus::Claimed);
    assert_eq!(t.ledger.balance(&recipient), TWO_TOKENS);
}

#[test]
fn fails_when_package_is_expired() {
    let mut t = TestSetup::new();
    let id = t.create_default_package(&addr("GRECIPIENT"), ONE_TOKEN);
    t.advance_time(3601);
    let result = t.claim(id);
    assert_eq!(result, Err(Error::PackageExpired));
}

#[test]
fn fails_when_claimed_too_early() {
    let mut t = TestSetup::new();
    let recipient = addr("GRECIPIENT");
    t.fund_contract(ONE_TOKEN);
    let expires_at = t.now + 3600;
    let metadata = metadata_with("claim_starts_at", &(t.now + 1000).to_string());
    let (admin, token) = (t.admin.clone(), t.token.clone());
    let id = t.create_package(&admin, 99, &recipient, ONE_TOKEN, &token, expires_at, metadata).unwrap();
    let result = t.claim(id);
    assert_eq!(result, Err(Error::ClaimTooEarly));
    t.advance_time(1000);
    let result2 = t.claim(id);
    assert!(result2.is_ok());
}

#[test]
fn succeeds_when_claimed_at_exact_expiry_boundary() {
    let mut t = TestSetup::new();
    let recipient = addr("GRECIPIENT");
    t.fund_contract(ONE_TOKEN);
    let expires_at = t.now + 1000;
    let metadata = metadata_with("claim_starts_at", &expires_at.to_string());
    let (admin, token) = (t.admin.clone(), t.token.clone());
    let id = t.create_package(&admin, 100, &recipient, ONE_TOKEN, &token, expires_at, metadata).unwrap();
    let result = t.claim(id);
    assert_eq!(result, Err(Error::ClaimTooEarly));
    t.advance_time(1000);
    let result2 = t.claim(id);
    assert!(result2.is_ok());
}

#[test]
fn default_claim_starts_at_is_created_at() {
    let mut t = TestSetup::new();
    let recipient = addr("GRECIPIENT");
    let id = t.create_default_package(&recipient, ONE_TOKEN);
    let result = t.claim(id);
    assert!(result.is_ok());
}

#[test]
fn merkle_allowlist_claim_succeeds_with_valid_proof() {
    let mut t = TestSetup::new();
    let claimant = addr("GCLAIMANTAAAAAAAAAAAAAAAAAAAAAAAAAAAAAAAAAAAAAAAAAAAAAAA");
    t.fund_contract(ONE_TOKEN);

    // A tree of one leaf: the root is the leaf and the proof is empty.
    let root_hex = claimant_leaf_hex(&t.env, &claimant);
    let metadata = metadata_with("merkle_root", &root_hex);
    let (admin, token, now) = (t.admin.clone(), t.token.clone(), t.now);
    let id = t.create_package(&admin, 777, &addr("GSOMEONEELSE"), ONE_TOKEN, &token, now + 3600, metadata).unwrap();

    let direct = t.claim(id);
    assert_eq!(direct, Err(Error::InvalidProof));

    let proof: Vec<Vec<u8>> = Vec::new();
    let with_proof = t.claim_with_proof(id, &claimant, &proof);
    assert!(with_proof.is_ok());
    assert_eq!(t.ledger.balance(&claimant), ONE_TOKEN);
}

#[test]
fn merkle_allowlist_claim_fails_with_invalid_proof() {
    let mut t = TestSetup::new();
    let claimant = addr("GCLAIMANT");
    t.fund_contract(ONE_TOKEN);

    let wrong_root_hex = claimant_leaf_hex(&t.env, &addr("GWRONGADDRESS"));
    let metadata = metadata_with("merkle_root", &wrong_root_hex);
    let (admin, token, now) = (t.admin.clone(), t.token.clone(), t.now);
    let id = t.create_package(&admin, 778, &addr("GSOMEONEELSE"), ONE_TOKEN, &token, now + 3600, metadata).unwrap();

    let proof: Vec<Vec<u8>> = Vec::new();
    let with_proof = t.claim_with_proof(id, &claimant, &proof);
    assert_eq!(with_proof, Err(Error::InvalidProof));
}

// ----- edge cases ----------------------------------------------------------

#[test]
fn refund_succeeds_on_expired_package() {
    let mut t = TestSetup::new();
    let id = t.create_default_package(&addr("GRECIPIENT"), ONE_TOKEN);
    t.advance_time(3601);
    t.refund(id).unwrap();
    let pkg = t.escrow.get_package(id).unwrap();
    assert_eq!(pkg.status, PackageStatus::Refunded);
}

#[test]
fn locked_funds_released_after_claim_allows_new_package() {
    let mut t = TestSetup::new();
    let recipient = addr("GRECIPIENT");
    let (admin, token) = (t.admin.clone(), t.token.clone());

    t.fund_contract(ONE_TOKEN);
    let now = t.now;
    t.create_package(&admin, 1, &recipient, ONE_TOKEN, &token, now + 3600, Metadata::new()).unwrap();

    // The whole balance is locked: a second package is refused.
    let r2 = t.create_package(&admin, 2, &recipient, ONE_TOKEN, &token, now + 3600, Metadata::new());
    assert_eq!(r2, Err(Error::InsufficientFunds));

    t.claim(1).unwrap();

    t.fund_contract(ONE_TOKEN);
    let r3 = t.create_package(&admin, 3, &recipient, ONE_TOKEN, &token, now + 3600, Metadata::new());
    assert!(r3.is_ok());
}

#[test]
fn fails_with_precision_breaking_amount() {
    let mut t = TestSetup::new();
    t.fund_contract(TWO_TOKENS);
    let precision_breaking = ONE_TOKEN + 1;
    let (admin, token, now) = (t.admin.clone(), t.token.clone(), t.now);
    let result = t.create_package(&admin, 1, &addr("GOTHER"), precision_breaking, &token, now + 3600, Metadata::new());
    assert_eq!(result, Err(Error::InvalidAmount));
}

#[test]
fn succeeds_with_whole_token_amounts() {
    let mut t = TestSetup::new();
    t.fund_contract(TWO_TOKENS);
    let (admin, token, now) = (t.admin.clone(), t.token.clone(), t.now);
    let result = t.create_package(&admin, 1, &addr("GOTHER"), ONE_TOKEN, &token, now + 3600, Metadata::new());
    assert!(result.is_ok());
}

// ----- unit scenarios (ledger time 1000) -----------------------------------

#[test]
fn test_cancel_package() {
    let mut t = TestSetup::with_time(1000);
    let recipient = addr("GRECIPIENT");
    let (admin, token) = (t.admin.clone(), t.token.clone());
    let amount = 10_000_000;
    t.ledger.mint(&admin, 20_000_000);
    t.fund(&token, &admin, amount).unwrap();

    let package_id = t.create_package(&admin, 1, &recipient, 10_000_000, &token, 86400, Metadata::new()).unwrap();

    t.escrow.cancel_package(package_id, t.now).unwrap();
    let package = t.escrow.get_package(package_id).unwrap();
    assert_eq!(package.status, PackageStatus::Cancelled);
}

#[test]
fn test_list_recipient_packages_few_packages() {
    let mut t = TestSetup::with_time(1000);
    let recipient1 = addr("GRECIPIENTONE");
    let (admin, token) = (t.admin.clone(), t.token.clone());
    t.ledger.mint(&admin, 50_000_000);
    t.fund(&token, &admin, 40_000_000).unwrap();

    t.create_package(&admin, 1, &recipient1, 10_000_000, &token, 86400, Metadata::new()).unwrap();
    t.create_package(&admin, 2, &recipient1, 20_000_000, &token, 86400, Metadata::new()).unwrap();

    let packages = t.escrow.list_recipient_packages(&recipient1, 0, 10);
    assert_eq!(packages.len(), 2);
}

#[test]
fn test_list_recipient_packages_pagination() {
    let mut t = TestSetup::with_time(1000);
    let recipient = addr("GRECIPIENT");
    let (admin, token) = (t.admin.clone(), t.token.clone());
    t.ledger.mint(&admin, 100_000_000);
    t.fund(&token, &admin, 100_000_000).unwrap();

    let mut package_ids = Vec::new();
    for i in 0..5 {
        package_ids.push(t.create_package(&admin, i as u64, &recipient, 10_000_000, &token, 86400, Metadata::new()).unwrap());
    }

    let page = t.escrow.list_recipient_packages(&recipient, 0, 3);
    assert_eq!(page.len(), 3);
}

#[test]
fn test_action_specific_pause() {
    let mut t = TestSetup::with_time(1000);
    let recipient = addr("GRECIPIENT");
    let (admin, token) = (t.admin.clone(), t.token.clone());
    t.ledger.mint(&admin, 20_000_000);
    t.fund(&token, &admin, 10_000_000).unwrap();

    t.escrow.pause_action(&t.admin.clone(), b"create").unwrap();

    let result = t.create_package(&admin, 99, &recipient, 10_000_000, &token, 86400, Metadata::new());
    assert!(result.is_err());
}


// ----- more scenarios -------------------------------------------------------

fn hex(bytes: &[u8]) -> String {
    bytes.iter().map(|b| format!("{:02x}", b)).collect()
}

#[test]
fn parse_u64_reads_decimal_text() {
    assert_eq!(AidEscrow::parse_u64(b"0"), Some(0));
    assert_eq!(AidEscrow::parse_u64(b"1001000"), Some(1_001_000));
    assert_eq!(AidEscrow::parse_u64(b"18446744073709551615"), Some(u64::MAX));
    assert_eq!(AidEscrow::parse_u64(b"18446744073709551616"), None);
    assert_eq!(AidEscrow::parse_u64(b"99999999999999999999"), None);
    assert_eq!(AidEscrow::parse_u64(b"00000000000000000001"), Some(1));
    assert_eq!(AidEscrow::parse_u64(b"000000000000000000001"), None);
    assert_eq!(AidEscrow::parse_u64(b""), None);
    assert_eq!(AidEscrow::parse_u64(b"12a"), None);
    assert_eq!(AidEscrow::parse_u64(b"-1"), None);
    assert_eq!(AidEscrow::parse_u64(b" 1"), None);
}

#[test]
fn hex_nibble_reads_both_cases() {
    assert_eq!(AidEscrow::hex_nibble(b'0'), Some(0));
    assert_eq!(AidEscrow::hex_nibble(b'9'), Some(9));
    assert_eq!(AidEscrow::hex_nibble(b'a'), Some(10));
    assert_eq!(AidEscrow::hex_nibble(b'f'), Some(15));
    assert_eq!(AidEscrow::hex_nibble(b'A'), Some(10));
    assert_eq!(AidEscrow::hex_nibble(b'F'), Some(15));
    assert_eq!(AidEscrow::hex_nibble(b'g'), None);
    assert_eq!(AidEscrow::hex_nibble(b'/'), None);
}

#[test]
fn parse_hex_32_round_trips_and_rejects() {
    let bytes: Vec<u8> = (0..32u8).map(|i| i.wrapping_mul(37).wrapping_add(5)).collect();
    let text = hex(&bytes);
    assert_eq!(AidEscrow::parse_hex_32(text.as_bytes()).unwrap().to_vec(), bytes);
    assert_eq!(AidEscrow::parse_hex_32(text.to_uppercase().as_bytes()).unwrap().to_vec(), bytes);
    assert_eq!(AidEscrow::parse_hex_32(&text.as_bytes()[..63]), None);
    let mut bad = text.clone().into_bytes();
    bad[10] = b'z';
    assert_eq!(AidEscrow::parse_hex_32(&bad), None);
}

#[test]
fn hash_address_is_sha256_of_the_text() {
    let env = soroban_sdk::Env::default();
    let digest = AidEscrow::hash_address(&env, b"abc");
    assert_eq!(hex(&digest), "ba7816bf8f01cfea414140de5dae2223b00361a396177a9cb410ff61f20015ad");
}

#[test]
fn hash_pair_hashes_the_concatenation_in_order() {
    let env = soroban_sdk::Env::default();
    let left = AidEscrow::hash_address(&env, b"left");
    let right = AidEscrow::hash_address(&env, b"right");
    let mut joined = left.to_vec();
    joined.extend_from_slice(&right);
    let expected = env.crypto().sha256(&soroban_sdk::Bytes::from_slice(&env, &joined)).to_array();
    assert_eq!(AidEscrow::hash_pair(&env, &left, &right), expected);
    assert_ne!(AidEscrow::hash_pair(&env, &right, &left), expected);
}

#[test]
fn merkle_proof_of_two_leaves() {
    let env = soroban_sdk::Env::default();
    let a = AidEscrow::hash_address(&env, b"GALICE");
    let b = AidEscrow::hash_address(&env, b"GBOB");
    let root = if a <= b { AidEscrow::hash_pair(&env, &a, &b) } else { AidEscrow::hash_pair(&env, &b, &a) };
    let proof_for_alice = vec![hex(&b).into_bytes()];
    let proof_for_bob = vec![hex(&a).into_bytes()];
    assert!(AidEscrow::verify_merkle_proof_for_claimant(&env, b"GALICE", &proof_for_alice, &root));
    assert!(AidEscrow::verify_merkle_proof_for_claimant(&env, b"GBOB", &proof_for_bob, &root));
    assert!(!AidEscrow::verify_merkle_proof_for_claimant(&env, b"GCAROL", &proof_for_alice, &root));
    assert!(!AidEscrow::verify_merkle_proof_for_claimant(&env, b"GALICE", &vec![b"not hex".to_vec()], &root));
    assert!(!AidEscrow::verify_merkle_proof_for_claimant(&env, b"GALICE", &Vec::new(), &root));
}

#[test]
fn claim_with_proof_without_allowlist_needs_the_recipient() {
    let mut t = TestSetup::new();
    let recipient = addr("GRECIPIENT");
    let id = t.create_default_package(&recipient, ONE_TOKEN);
    assert_eq!(t.claim_with_proof(id, b"GSTRANGER", &Vec::new()), Err(Error::NotAuthorized));
    assert_eq!(t.claim_with_proof(id, &recipient, &Vec::new()), Ok(()));
    assert_eq!(t.ledger.balance(&recipient), ONE_TOKEN);
    assert_eq!(t.escrow.get_total_claimed(&t.token), ONE_TOKEN);
}

#[test]
fn claiming_twice_is_refused() {
    let mut t = TestSetup::new();
    let recipient = addr("GRECIPIENT");
    let id = t.create_default_package(&recipient, ONE_TOKEN);
    t.claim(id).unwrap();
    assert_eq!(t.claim(id), Err(Error::PackageNotActive));
    assert_eq!(t.refund(id), Err(Error::InvalidState));
    assert_eq!(t.escrow.revoke(id), Err(Error::InvalidState));
    assert_eq!(t.ledger.balance(&recipient), ONE_TOKEN);
}

#[test]
fn claim_of_missing_package_is_refused() {
    let mut t = TestSetup::new();
    assert_eq!(t.claim(404), Err(Error::PackageNotFound));
    assert_eq!(t.escrow.get_package(404).err(), Some(Error::PackageNotFound));
    assert_eq!(t.escrow.view_package_status(404), Err(Error::PackageNotFound));
}

#[test]
fn disburse_pays_without_counting_a_claim() {
    let mut t = TestSetup::new();
    let recipient = addr("GRECIPIENT");
    let id = t.create_default_package(&recipient, ONE_TOKEN);
    t.disburse(id).unwrap();
    assert_eq!(t.escrow.view_package_status(id), Ok(PackageStatus::Claimed));
    assert_eq!(t.escrow.get_total_locked(&t.token), 0);
    assert_eq!(t.escrow.get_total_claimed(&t.token), 0);
    assert_eq!(t.ledger.balance(&recipient), ONE_TOKEN);
    assert_eq!(t.disburse(id), Err(Error::PackageNotActive));
}

#[test]
fn revoke_then_refund_unlocks_once() {
    let mut t = TestSetup::new();
    let id = t.create_default_package(&addr("GRECIPIENT"), ONE_TOKEN);
    t.escrow.revoke(id).unwrap();
    assert_eq!(t.escrow.get_total_locked(&t.token), 0);
    assert_eq!(t.escrow.revoke(id), Err(Error::InvalidState));
    t.refund(id).unwrap();
    assert_eq!(t.escrow.view_package_status(id), Ok(PackageStatus::Refunded));
    assert_eq!(t.escrow.get_total_locked(&t.token), 0);
    assert_eq!(t.ledger.balance(&t.admin), ONE_TOKEN);
    assert_eq!(t.refund(id), Err(Error::InvalidState));
}

#[test]
fn refund_of_open_unexpired_package_is_refused() {
    let mut t = TestSetup::new();
    let id = t.create_default_package(&addr("GRECIPIENT"), ONE_TOKEN);
    assert_eq!(t.refund(id), Err(Error::InvalidState));
    assert_eq!(t.escrow.get_total_locked(&t.token), ONE_TOKEN);
}

#[test]
fn refund_of_expired_package_unlocks() {
    let mut t = TestSetup::new();
    let id = t.create_default_package(&addr("GRECIPIENT"), ONE_TOKEN);
    t.advance_time(3601);
    t.refund(id).unwrap();
    assert_eq!(t.escrow.get_total_locked(&t.token), 0);
    assert_eq!(t.ledger.balance(&t.admin), ONE_TOKEN);
}

#[test]
fn cancel_after_expiry_is_refused() {
    let mut t = TestSetup::new();
    let id = t.create_default_package(&addr("GRECIPIENT"), ONE_TOKEN);
    t.advance_time(3601);
    assert_eq!(t.escrow.cancel_package(id, t.now), Err(Error::PackageExpired));
    t.escrow.revoke(id).unwrap();
    assert_eq!(t.escrow.cancel_package(id, t.now), Err(Error::PackageNotActive));
}

#[test]
fn extend_expiry_and_expiration() {
    let mut t = TestSetup::new();
    let id = t.create_default_package(&addr("GRECIPIENT"), ONE_TOKEN);
    let expires = t.escrow.get_package(id).unwrap().expires_at;
    assert_eq!(t.escrow.extend_expiry(id, expires, t.now), Err(Error::InvalidState));
    t.escrow.extend_expiry(id, expires + 100, t.now).unwrap();
    assert_eq!(t.escrow.get_package(id).unwrap().expires_at, expires + 100);
    assert_eq!(t.escrow.extend_expiration(id, 0, t.now), Err(Error::InvalidAmount));
    assert_eq!(t.escrow.extend_expiration(999, 5, t.now), Err(Error::PackageNotFound));
    t.escrow.extend_expiration(id, 50, t.now).unwrap();
    assert_eq!(t.escrow.get_package(id).unwrap().expires_at, expires + 150);
    t.advance_time(10_000);
    assert_eq!(t.escrow.extend_expiry(id, t.now + 10, t.now), Err(Error::PackageExpired));
}

#[test]
fn extend_respects_the_configured_horizon() {
    let mut t = TestSetup::new();
    let id = t.create_default_package(&addr("GRECIPIENT"), ONE_TOKEN);
    t.set_config(Config { min_amount: 1, max_expires_in: 4000, allowed_tokens: Vec::new() }).unwrap();
    assert_eq!(t.escrow.extend_expiry(id, t.now + 5000, t.now), Err(Error::InvalidState));
    assert_eq!(t.escrow.extend_expiry(id, t.now + 3900, t.now), Ok(()));
}

#[test]
fn packages_without_expiry_cannot_be_extended() {
    let mut t = TestSetup::new();
    t.fund_contract(ONE_TOKEN);
    let (admin, token) = (t.admin.clone(), t.token.clone());
    let id = t.create_package(&admin, 5, b"GRECIPIENT", ONE_TOKEN, &token, 0, Metadata::new()).unwrap();
    assert_eq!(t.escrow.extend_expiration(id, 10, t.now), Err(Error::InvalidState));
    assert_eq!(t.escrow.extend_expiry(id, 10, t.now), Err(Error::InvalidState));
    t.advance_time(1_000_000_000);
    assert_eq!(t.claim(id), Ok(()));
}

#[test]
fn withdraw_surplus_spares_locked_funds() {
    let mut t = TestSetup::new();
    let id = t.create_default_package(&addr("GRECIPIENT"), ONE_TOKEN);
    t.fund_contract(TWO_TOKENS);
    let (token, to) = (t.token.clone(), addr("GTREASURY"));
    assert_eq!(t.withdraw_surplus(&to, TWO_TOKENS + 1, &token), Err(Error::InsufficientSurplus));
    assert_eq!(t.withdraw_surplus(&to, 0, &token), Err(Error::InvalidAmount));
    assert_eq!(t.withdraw_surplus(&to, 1, b"CNOTATOKEN"), Err(Error::InvalidToken));
    t.withdraw_surplus(&to, TWO_TOKENS, &token).unwrap();
    assert_eq!(t.ledger.balance(&to), TWO_TOKENS);
    assert_eq!(t.claim(id), Ok(()));
}

#[test]
fn withdraw_surplus_can_be_paused() {
    let mut t = TestSetup::new();
    t.fund_contract(ONE_TOKEN);
    t.escrow.pause_action(&t.admin.clone(), b"withdraw").unwrap();
    assert!(t.escrow.is_action_paused(b"withdraw"));
    let token = t.token.clone();
    assert_eq!(t.withdraw_surplus(b"GTREASURY", 1, &token), Err(Error::ContractPaused));
    t.escrow.unpause_action(&t.admin.clone(), b"withdraw").unwrap();
    assert_eq!(t.withdraw_surplus(b"GTREASURY", 1, &token), Ok(()));
}

#[test]
fn pause_blocks_creation_and_claims() {
    let mut t = TestSetup::new();
    let recipient = addr("GRECIPIENT");
    let id = t.create_default_package(&recipient, ONE_TOKEN);
    t.escrow.pause(&t.admin.clone()).unwrap();
    assert!(t.escrow.is_paused());
    assert!(t.escrow.is_action_paused(b"claim"));
    assert!(t.escrow.is_action_paused(b"anything"));
    assert_eq!(t.claim(id), Err(Error::ContractPaused));
    let (admin, token, now) = (t.admin.clone(), t.token.clone(), t.now);
    t.fund_contract(ONE_TOKEN);
    assert_eq!(t.create_package(&admin, 2, &recipient, ONE_TOKEN, &token, now + 10, Metadata::new()), Err(Error::ContractPaused));
    t.escrow.unpause(&t.admin.clone()).unwrap();
    assert!(!t.escrow.is_paused());
    assert!(!t.escrow.is_action_paused(b"anything"));
    assert_eq!(t.claim(id), Ok(()));
}

#[test]
fn unknown_actions_cannot_be_paused() {
    let mut t = TestSetup::new();
    assert_eq!(t.escrow.pause_action(&t.admin.clone(), b"dance"), Err(Error::InvalidState));
    assert_eq!(t.escrow.unpause_action(&t.admin.clone(), b"dance"), Err(Error::InvalidState));
    assert!(!t.escrow.is_action_paused(b"dance"));
    assert_eq!(t.escrow.check_action_paused(b"dance"), Ok(()));
}

#[test]
fn distributors_may_create_until_removed() {
    let mut t = TestSetup::new();
    let distributor = addr("GDISTRIBUTOR");
    let (token, now) = (t.token.clone(), t.now);
    t.fund_contract(TWO_TOKENS);
    assert_eq!(t.create_package(&distributor, 7, b"GRECIPIENT", ONE_TOKEN, &token, now + 10, Metadata::new()), Err(Error::NotAuthorized));
    t.escrow.add_distributor(&t.admin.clone(), distributor.clone()).unwrap();
    assert_eq!(t.create_package(&distributor, 7, b"GRECIPIENT", ONE_TOKEN, &token, now + 10, Metadata::new()), Ok(7));
    t.escrow.remove_distributor(&t.admin.clone(), &distributor).unwrap();
    assert_eq!(t.create_package(&distributor, 8, b"GRECIPIENT", ONE_TOKEN, &token, now + 10, Metadata::new()), Err(Error::NotAuthorized));
}

#[test]
fn version_and_admin_lifecycle() {
    let mut e = AidEscrow::new();
    assert_eq!(e.get_version(), 0);
    assert_eq!(e.get_admin(), Err(Error::NotInitialized));
    assert_eq!(e.migrate(b"GADMIN", 3), Err(Error::NotInitialized));
    assert_eq!(e.pause(b"GADMIN"), Err(Error::NotInitialized));
    e.init(addr("GADMIN")).unwrap();
    assert_eq!(e.get_version(), 1);
    assert_eq!(e.get_admin(), Ok(addr("GADMIN")));
    assert_eq!(e.init(addr("GOTHER")), Err(Error::AlreadyInitialized));
    assert_eq!(e.get_admin(), Ok(addr("GADMIN")));
    e.migrate(b"GADMIN", 2).unwrap();
    assert_eq!(e.get_version(), 2);
    let c = e.get_config();
    assert_eq!((c.min_amount, c.max_expires_in, c.allowed_tokens.len()), (1, 0, 0));
}

#[test]
fn set_config_validates_min_amount() {
    let mut t = TestSetup::new();
    assert_eq!(t.set_config(Config { min_amount: 0, max_expires_in: 0, allowed_tokens: Vec::new() }), Err(Error::InvalidAmount));
    let token = t.token.clone();
    t.set_config(Config { min_amount: 5, max_expires_in: 99, allowed_tokens: vec![token.clone()] }).unwrap();
    let c = t.escrow.get_config();
    assert_eq!((c.min_amount, c.max_expires_in), (5, 99));
    assert_eq!(c.allowed_tokens, vec![token]);
}

#[test]
fn config_restricts_tokens_and_expiry() {
    let mut t = TestSetup::new();
    let token = t.token.clone();
    t.set_config(Config { min_amount: 1, max_expires_in: 100, allowed_tokens: vec![token.clone()] }).unwrap();
    t.fund_contract(ONE_TOKEN);
    let (admin, now) = (t.admin.clone(), t.now);
    assert_eq!(t.create_package(&admin, 1, b"GR", ONE_TOKEN, &token, 0, Metadata::new()), Err(Error::InvalidState));
    assert_eq!(t.create_package(&admin, 1, b"GR", ONE_TOKEN, &token, now, Metadata::new()), Err(Error::InvalidState));
    assert_eq!(t.create_package(&admin, 1, b"GR", ONE_TOKEN, &token, now + 101, Metadata::new()), Err(Error::InvalidState));
    assert_eq!(t.create_package(&admin, 1, b"GR", ONE_TOKEN, &token, now + 100, Metadata::new()), Ok(1));
}

#[test]
fn bad_claim_start_is_refused() {
    let mut t = TestSetup::new();
    t.fund_contract(ONE_TOKEN);
    let (admin, token, now) = (t.admin.clone(), t.token.clone(), t.now);
    let bad = metadata_with("claim_starts_at", "soon");
    assert_eq!(t.create_package(&admin, 1, b"GR", ONE_TOKEN, &token, now + 10, bad), Err(Error::InvalidState));
    let late = metadata_with("claim_starts_at", &(now + 11).to_string());
    assert_eq!(t.create_package(&admin, 1, b"GR", ONE_TOKEN, &token, now + 10, late), Err(Error::InvalidState));
    let early = metadata_with("claim_starts_at", &(now - 1).to_string());
    assert_eq!(t.create_package(&admin, 1, b"GR", ONE_TOKEN, &token, now + 10, early), Err(Error::InvalidState));
    assert_eq!(t.escrow.get_total_locked(&token), 0);
}

#[test]
fn non_positive_amounts_are_refused() {
    let mut t = TestSetup::new();
    t.fund_contract(ONE_TOKEN);
    let (admin, token, now) = (t.admin.clone(), t.token.clone(), t.now);
    assert_eq!(t.create_package(&admin, 1, b"GR", 0, &token, now + 10, Metadata::new()), Err(Error::InvalidAmount));
    assert_eq!(t.create_package(&admin, 1, b"GR", -ONE_TOKEN, &token, now + 10, Metadata::new()), Err(Error::InvalidAmount));
    assert_eq!(t.fund(&token, &admin, 0), Err(Error::InvalidAmount));
    assert_eq!(t.fund(&token, &admin, ONE_TOKEN + 1), Err(Error::InvalidAmount));
    assert_eq!(t.fund(b"CNOTATOKEN", &admin, ONE_TOKEN), Err(Error::InvalidToken));
}

#[test]
fn batch_numbers_packages_from_the_counter() {
    let mut t = TestSetup::new();
    t.create_default_package(&addr("GFIRST"), ONE_TOKEN);
    t.fund_contract(TWO_TOKENS + ONE_TOKEN);
    let ids = t
        .batch(vec![addr("GA"), addr("GB"), addr("GC")], vec![ONE_TOKEN, ONE_TOKEN, ONE_TOKEN], 600, vec![Metadata::new(), Metadata::new(), Metadata::new()])
        .unwrap();
    assert_eq!(ids, vec![2, 3, 4]);
    assert_eq!(t.escrow.get_total_locked(&t.token), 4 * ONE_TOKEN);
    let p = t.escrow.get_package(3).unwrap();
    assert_eq!(p.recipient, addr("GB"));
    assert_eq!(p.expires_at, t.now + 600);
    assert_eq!(p.status, PackageStatus::Created);
    assert_eq!(t.escrow.get_recipient_package_count(b"GC"), 1);
}

#[test]
fn batch_is_all_or_nothing() {
    let mut t = TestSetup::new();
    t.fund_contract(ONE_TOKEN);
    let r = t.batch(vec![addr("GA"), addr("GB")], vec![ONE_TOKEN, ONE_TOKEN], 600, vec![Metadata::new(), Metadata::new()]);
    assert_eq!(r, Err(Error::InsufficientFunds));
    assert_eq!(t.escrow.get_total_locked(&t.token), 0);
    assert_eq!(t.escrow.get_package(0).err(), Some(Error::PackageNotFound));
    let r2 = t.batch(vec![addr("GA"), addr("GB")], vec![ONE_TOKEN], 600, vec![Metadata::new(), Metadata::new()]);
    assert_eq!(r2, Err(Error::MismatchedArrays));
    let late = metadata_with("claim_starts_at", &(t.now + 601).to_string());
    let r3 = t.batch(vec![addr("GA")], vec![ONE_TOKEN], 600, vec![late]);
    assert_eq!(r3, Err(Error::InvalidState));
    let r4 = t.batch(vec![addr("GA")], vec![ONE_TOKEN], 600, vec![Metadata::new()]);
    assert_eq!(r4, Ok(vec![0]));
}

#[test]
fn aggregates_group_amounts_by_status() {
    let mut t = TestSetup::new();
    t.fund_contract(6 * ONE_TOKEN);
    let ids = t
        .batch(
            vec![addr("GA"), addr("GB"), addr("GC"), addr("GD")],
            vec![ONE_TOKEN, TWO_TOKENS, ONE_TOKEN, TWO_TOKENS],
            600,
            vec![Metadata::new(), Metadata::new(), Metadata::new(), Metadata::new()],
        )
        .unwrap();
    t.claim(ids[0]).unwrap();
    t.escrow.revoke(ids[1]).unwrap();
    let token = t.token.clone();
    let a = t.escrow.get_aggregates(&token);
    assert_eq!(a.total_committed, 3 * ONE_TOKEN);
    assert_eq!(a.total_claimed, ONE_TOKEN);
    assert_eq!(a.total_expired_cancelled, TWO_TOKENS);
    assert_eq!(a.total_committed, t.escrow.get_total_locked(&token));
    let other = t.escrow.get_aggregates(b"COTHERTOKEN");
    assert_eq!((other.total_committed, other.total_claimed, other.total_expired_cancelled), (0, 0, 0));
}

#[test]
fn recipient_listing_pages_through_ids() {
    let mut t = TestSetup::new();
    t.fund_contract(10 * ONE_TOKEN);
    let (admin, token, now) = (t.admin.clone(), t.token.clone(), t.now);
    for id in [0u64, 2, 3, 7] {
        t.create_package(&admin, id, b"GME", ONE_TOKEN, &token, now + 10, Metadata::new()).unwrap();
    }
    t.create_package(&admin, 5, b"GYOU", ONE_TOKEN, &token, now + 10, Metadata::new()).unwrap();
    assert_eq!(t.escrow.get_recipient_package_count(b"GME"), 4);
    assert_eq!(t.escrow.list_recipient_packages(b"GME", 0, 100), vec![0, 2, 3, 7]);
    assert_eq!(t.escrow.list_recipient_packages(b"GME", 1, 3), vec![2, 3]);
    assert_eq!(t.escrow.list_recipient_packages(b"GME", 4, u32::MAX), vec![7]);
    assert_eq!(t.escrow.list_recipient_packages(b"GME", u64::MAX, u32::MAX), Vec::<u64>::new());
    assert_eq!(t.escrow.list_recipient_packages(b"GYOU", 0, 100), vec![5]);
}

#[test]
fn token_units_and_validation() {
    assert_eq!(AidEscrow::unit_of(0), 1);
    assert_eq!(AidEscrow::unit_of(7), 10_000_000);
    assert_eq!(AidEscrow::unit_of(38), 10i128.pow(38));
    assert_eq!(AidEscrow::validate_token(Some(38)), Ok(38));
    assert_eq!(AidEscrow::validate_token(Some(39)), Err(Error::InvalidToken));
    assert_eq!(AidEscrow::validate_token(None), Err(Error::InvalidToken));
    assert_eq!(AidEscrow::token_balance(Some(-3)), Ok(-3));
    assert_eq!(AidEscrow::transfer_token(false), Err(Error::TokenTransferFailed));
    assert_eq!(AidEscrow::get_pause_key(b"claim").is_ok(), true);
}

#[test]
fn parse_u64_reads_back_any_rendering() {
    for n in [0u64, 7, 10, 99, 100, 12_345, 1_000_000_007, u64::MAX / 3, u64::MAX - 1, u64::MAX] {
        assert_eq!(AidEscrow::parse_u64(n.to_string().as_bytes()), Some(n));
    }
}

#[test]
fn full_page_lists_as_many_as_counted() {
    let mut t = TestSetup::new();
    t.fund_contract(10 * ONE_TOKEN);
    let (admin, token, now) = (t.admin.clone(), t.token.clone(), t.now);
    for (id, who) in [(0u64, "GA"), (1, "GB"), (4, "GA"), (9, "GA")] {
        t.create_package(&admin, id, who.as_bytes(), ONE_TOKEN, &token, now + 10, Metadata::new()).unwrap();
    }
    let listed = t.escrow.list_recipient_packages(b"GA", 0, u32::MAX);
    assert_eq!(listed.len() as u64, t.escrow.get_recipient_package_count(b"GA"));
    assert_eq!(listed, vec![0, 4, 9]);
}

#[test]
fn batch_at_the_balance_limit_goes_through() {
    let mut t = TestSetup::new();
    t.fund_contract(i128::MAX);
    let (admin, token, now) = (t.admin.clone(), t.token.clone(), t.now);
    let balance = t.balance_of(&token, &t.contract);
    let recipients = vec![addr("GA")];
    let amounts = vec![ONE_TOKEN];
    let metadatas = vec![Metadata::new()];
    assert!(!t.escrow.batch_would_overflow(&admin, &recipients, &amounts, &token, 600, &metadatas, now, Some(7), balance));
    assert_eq!(t.batch(recipients, amounts, 600, metadatas), Ok(vec![0]));
}

#[test]
fn overflow_tests_name_the_inputs_that_leave_range() {
    let mut t = TestSetup::new();
    t.fund_contract(i128::MAX);
    let (admin, token, now) = (t.admin.clone(), t.token.clone(), t.now);
    let most = (i128::MAX / ONE_TOKEN) * ONE_TOKEN;
    t.create_package(&admin, 0, b"GA", most, &token, now + 10, Metadata::new()).unwrap();
    let balance = t.balance_of(&token, &t.contract);
    let recipients = vec![addr("GB")];
    let amounts = vec![ONE_TOKEN];
    let metadatas = vec![Metadata::new()];
    assert!(t.escrow.batch_would_overflow(&admin, &recipients, &amounts, &token, 600, &metadatas, now, Some(7), balance));
    // a refusal before the locked total is touched comes first
    assert!(!t.escrow.batch_would_overflow(&admin, &recipients, &vec![0], &token, 600, &metadatas, now, Some(7), balance));
    assert!(!t.escrow.batch_would_overflow(b"GSTRANGER", &recipients, &amounts, &token, 600, &metadatas, now, Some(7), balance));
    assert!(t.escrow.batch_would_overflow(&admin, &recipients, &amounts, &token, u64::MAX, &metadatas, now, Some(7), balance));
    assert!(t.escrow.create_package_would_overflow(&admin, 1, ONE_TOKEN, &token, now + 10, &Metadata::new(), now, Some(7), balance));
    assert!(!t.escrow.create_package_would_overflow(&admin, 0, ONE_TOKEN, &token, now + 10, &Metadata::new(), now, Some(7), balance));
    assert!(!t.escrow.create_package_would_overflow(&admin, 1, ONE_TOKEN, &token, now + 10, &Metadata::new(), now, Some(7), None));
    assert!(t.escrow.withdraw_surplus_would_overflow(ONE_TOKEN, &token, Some(7), Some(i128::MIN)));
    assert!(!t.escrow.withdraw_surplus_would_overflow(ONE_TOKEN, &token, Some(7), Some(0)));
    assert!(!t.escrow.withdraw_surplus_would_overflow(-1, &token, Some(7), Some(i128::MIN)));
    assert!(!t.escrow.claimed_total_would_overflow(0));
    assert!(!t.escrow.claimed_total_would_overflow(9));
    assert!(t.escrow.aggregates_fit(&token));
}

#[test]
fn create_package_at_the_top_id_would_overflow_the_counter() {
    let mut t = TestSetup::new();
    t.fund_contract(ONE_TOKEN);
    let (admin, token, now) = (t.admin.clone(), t.token.clone(), t.now);
    let balance = t.balance_of(&token, &t.contract);
    assert!(t.escrow.create_package_would_overflow(&admin, u64::MAX, ONE_TOKEN, &token, now + 10, &Metadata::new(), now, Some(7), balance));
    assert!(!t.escrow.create_package_would_overflow(&admin, u64::MAX - 1, ONE_TOKEN, &token, now + 10, &Metadata::new(), now, Some(7), balance));
    // refused for want of funds before the counter is reached
    assert!(!t.escrow.create_package_would_overflow(&admin, u64::MAX, TWO_TOKENS, &token, now + 10, &Metadata::new(), now, Some(7), balance));
}

#[test]
fn withdraw_and_fund_name_their_transfers() {
    let mut t = TestSetup::new();
    t.fund_contract(3 * ONE_TOKEN);
    let token = t.token.clone();
    t.create_default_package(&addr("GR"), ONE_TOKEN);
    let balance = t.balance_of(&token, &t.contract);
    let to = addr("GTREASURY");
    let payout = t.escrow.withdraw_surplus_payout(&to, TWO_TOKENS + ONE_TOKEN, &token, Some(7), balance).unwrap();
    assert_eq!((payout.token, payout.to, payout.amount), (token.clone(), to.clone(), TWO_TOKENS + ONE_TOKEN));
    assert_eq!(
        t.escrow.withdraw_surplus_payout(&to, TWO_TOKENS + TWO_TOKENS, &token, Some(7), balance).err(),
        Some(Error::InsufficientSurplus)
    );
    t.withdraw_surplus(&to, TWO_TOKENS, &token).unwrap();
    assert_eq!(t.ledger.balance(&to), TWO_TOKENS);
    let from = addr("GDONOR");
    let deposit = AidEscrow::fund_deposit(&token, &from, ONE_TOKEN, Some(7)).unwrap();
    assert_eq!((deposit.token, deposit.from, deposit.amount), (token.clone(), from.clone(), ONE_TOKEN));
    assert_eq!(AidEscrow::fund_deposit(&token, &from, ONE_TOKEN + 1, Some(7)).err(), Some(Error::InvalidAmount));
    t.ledger.mint(&from, ONE_TOKEN);
    t.fund(&token, &from, ONE_TOKEN).unwrap();
    assert_eq!(t.ledger.balance(&from), 0);
}

#[test]
fn recipient_count_is_the_number_of_stored_packages() {
    let mut t = TestSetup::new();
    t.fund_contract(10 * ONE_TOKEN);
    let (admin, token, now) = (t.admin.clone(), t.token.clone(), t.now);
    for (id, who) in [(3u64, "GA"), (1, "GB"), (8, "GA"), (2, "GA")] {
        t.create_package(&admin, id, who.as_bytes(), ONE_TOKEN, &token, now + 10, Metadata::new()).unwrap();
    }
    assert_eq!(t.escrow.package_counter, 9);
    let stored_for_a = t.escrow.packages.values().filter(|p| p.recipient == addr("GA")).count() as u64;
    assert_eq!(t.escrow.get_recipient_package_count(b"GA"), stored_for_a);
    assert_eq!(stored_for_a, 3);
}

#[test]
fn admin_only_settings_refuse_anyone_else() {
    let mut e = AidEscrow::new();
    e.init(addr("GADMIN")).unwrap();
    assert!(!e.is_paused());
    assert!(!e.is_action_paused(b"claim"));
    let stranger = addr("GSTRANGER");
    assert_eq!(e.migrate(&stranger, 7), Err(Error::NotAuthorized));
    assert_eq!(e.get_version(), 1);
    assert_eq!(e.pause(&stranger), Err(Error::NotAuthorized));
    assert!(!e.is_paused());
    assert_eq!(e.unpause(&stranger), Err(Error::NotAuthorized));
    assert_eq!(e.pause_action(&stranger, b"claim"), Err(Error::NotAuthorized));
    assert_eq!(e.unpause_action(&stranger, b"claim"), Err(Error::NotAuthorized));
    assert_eq!(e.add_distributor(&stranger, stranger.clone()), Err(Error::NotAuthorized));
    assert_eq!(e.remove_distributor(&stranger, &stranger), Err(Error::NotAuthorized));
    let config = Config { min_amount: 0, max_expires_in: 0, allowed_tokens: Vec::new() };
    assert_eq!(e.set_config(&stranger, config, &Vec::new()), Err(Error::NotAuthorized));
    assert_eq!(e.get_config().min_amount, 1);
    assert_eq!(e.check_admin(b"GADMIN"), Ok(()));
    assert_eq!(AidEscrow::new().check_admin(b"GADMIN"), Err(Error::NotInitialized));
}
