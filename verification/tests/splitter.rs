use std::collections::HashMap;

use simple_splitter::{
    Distribution, DistributionConfig, SimpleSplitter, SplitterError, Transfer, ONE_YEAR_LEDGERS,
};

type Address = &'static str;

const CONTRACT: Address = "splitter";
const TOKEN: Address = "token";

/// A stand-in for the asset ledger: balances by holder, and a count of the
/// transfer calls it has served.
struct Ledger {
    balances: HashMap<Address, i128>,
    transfer_calls: Vec<(Address, Address, i128)>,
}

impl Ledger {
    fn new() -> Self {
        Ledger { balances: HashMap::new(), transfer_calls: Vec::new() }
    }

    fn balance(&self, holder: Address) -> i128 {
        *self.balances.get(holder).unwrap_or(&0)
    }

    fn mint(&mut self, holder: Address, amount: i128) {
        *self.balances.entry(holder).or_insert(0) += amount;
    }

    fn transfer(&mut self, from: Address, to: Address, amount: i128) {
        assert!(amount > 0, "zero-value transfer requested");
        assert!(self.balance(from) >= amount, "insufficient funds");
        *self.balances.entry(from).or_insert(0) -= amount;
        *self.balances.entry(to).or_insert(0) += amount;
        self.transfer_calls.push((from, to, amount));
    }
}

fn create_contract() -> (Address, SimpleSplitter<Address>) {
    (CONTRACT, SimpleSplitter::new())
}

fn mint_tokens(ledger: &mut Ledger, contract_id: Address, amount: i128) {
    ledger.mint(contract_id, amount);
}

/// Plays the host for one `init`: aborts with the library's diagnostic.
fn init(
    splitter: &mut SimpleSplitter<Address>,
    token: Address,
    recipients: Vec<Address>,
    shares: Vec<u32>,
) {
    if let Err(e) = splitter.init(token, recipients, shares) {
        panic!("{}", e.message());
    }
}

/// Plays the host for one `distribute`: reads the balance, asks the
/// instance, makes the payments, settles.
fn try_distribute(
    splitter: &mut SimpleSplitter<Address>,
    ledger: &mut Ledger,
) -> Result<Distribution, SplitterError> {
    let balance = ledger.balance(CONTRACT);
    let distribution = splitter.distribute(balance)?;
    let recipients: Vec<Address> = splitter.get_config()?.1.clone();
    for transfer in &distribution.transfers {
        ledger.transfer(CONTRACT, recipients[transfer.recipient], transfer.amount);
    }
    splitter.settle();
    Ok(distribution)
}

fn distribute(splitter: &mut SimpleSplitter<Address>, ledger: &mut Ledger) {
    if let Err(e) = try_distribute(splitter, ledger) {
        panic!("{}", e.message());
    }
}

#[test]
fn test_split() {
    let mut ledger = Ledger::new();
    let (contract_id, mut client) = create_contract();

    init(&mut client, TOKEN, vec!["alice", "bob"], vec![1, 1]);

    mint_tokens(&mut ledger, contract_id, 100);
    distribute(&mut client, &mut ledger);

    assert_eq!(ledger.balance("alice"), 50);
    assert_eq!(ledger.balance("bob"), 50);
}

#[test]
fn test_unequal_shares() {
    let mut ledger = Ledger::new();
    let (contract_id, mut client) = create_contract();

    init(&mut client, TOKEN, vec!["alice", "bob"], vec![2, 1]);

    mint_tokens(&mut ledger, contract_id, 99);
    distribute(&mut client, &mut ledger);

    assert_eq!(ledger.balance("alice"), 66);
    assert_eq!(ledger.balance("bob"), 33);
}

#[test]
fn test_multiple_recipients() {
    let mut ledger = Ledger::new();
    let (contract_id, mut client) = create_contract();

    init(&mut client, TOKEN, vec!["alice", "bob", "charlie"], vec![1, 1, 1]);

    mint_tokens(&mut ledger, contract_id, 120);
    distribute(&mut client, &mut ledger);

    assert_eq!(ledger.balance("alice"), 40);
    assert_eq!(ledger.balance("bob"), 40);
    assert_eq!(ledger.balance("charlie"), 40);
}

#[test]
#[should_panic(expected = "length mismatch")]
fn test_mismatched_lengths() {
    let (_contract_id, mut client) = create_contract();

    init(&mut client, TOKEN, vec!["alice", "bob"], vec![1, 2, 3]);
}

#[test]
fn test_zero_balance_distribution() {
    let mut ledger = Ledger::new();
    let (_contract_id, mut client) = create_contract();

    init(&mut client, TOKEN, vec!["alice", "bob"], vec![1, 1]);

    distribute(&mut client, &mut ledger);

    assert_eq!(ledger.balance("alice"), 0);
    assert_eq!(ledger.balance("bob"), 0);
}

#[test]
fn test_rounding_remainder() {
    let mut ledger = Ledger::new();
    let (contract_id, mut client) = create_contract();

    init(&mut client, TOKEN, vec!["alice", "bob", "charlie"], vec![1, 1, 1]);

    mint_tokens(&mut ledger, contract_id, 100);
    distribute(&mut client, &mut ledger);

    assert_eq!(ledger.balance("alice"), 33);
    assert_eq!(ledger.balance("bob"), 33);
    assert_eq!(ledger.balance("charlie"), 33);

    assert_eq!(ledger.balance(contract_id), 1);
}

#[test]
fn test_empty_recipients() {
    let mut ledger = Ledger::new();
    let (contract_id, mut client) = create_contract();

    // Empty lists have a total weight of zero: no share could be computed,
    // so the configuration is refused and the instance stays uninitialized.
    assert_eq!(client.init(TOKEN, vec![], vec![]), Err(SplitterError::ZeroTotalWeight));
    assert!(!client.is_initialized());
    assert_eq!(try_distribute(&mut client, &mut ledger), Err(SplitterError::NotInitialized));

    assert_eq!(ledger.balance(contract_id), 0);
}

#[test]
fn test_zero_shares() {
    let mut ledger = Ledger::new();
    let (contract_id, mut client) = create_contract();

    init(&mut client, TOKEN, vec!["alice", "bob", "charlie"], vec![2, 0, 1]);

    mint_tokens(&mut ledger, contract_id, 90);
    distribute(&mut client, &mut ledger);

    assert_eq!(ledger.balance("alice"), 60);
    assert_eq!(ledger.balance("bob"), 0);
    assert_eq!(ledger.balance("charlie"), 30);
}

#[test]
#[should_panic]
fn test_distribute_before_init() {
    let mut ledger = Ledger::new();
    let (_contract_id, mut client) = create_contract();
    distribute(&mut client, &mut ledger);
}

fn initialized(recipients: Vec<Address>, shares: Vec<u32>) -> SimpleSplitter<Address> {
    let mut splitter = SimpleSplitter::new();
    assert_eq!(splitter.init(TOKEN, recipients, shares), Ok(()));
    splitter
}

fn transfer(recipient: usize, amount: i128) -> Transfer {
    Transfer { recipient, amount }
}

#[test]
fn equal_weights_split_evenly_and_retain_nothing() {
    let mut splitter = initialized(vec!["x", "y"], vec![1, 1]);
    assert_eq!(
        splitter.distribute(100),
        Ok(Distribution { transfers: vec![transfer(0, 50), transfer(1, 50)], retained: 0 })
    );
}

#[test]
fn three_equal_weights_retain_the_remainder() {
    let mut splitter = initialized(vec!["x", "y", "z"], vec![1, 1, 1]);
    assert_eq!(
        splitter.distribute(100),
        Ok(Distribution {
            transfers: vec![transfer(0, 33), transfer(1, 33), transfer(2, 33)],
            retained: 1
        })
    );
}

#[test]
fn zero_weight_recipient_gets_no_transfer_call() {
    let mut ledger = Ledger::new();
    let mut splitter = initialized(vec!["x", "y", "z"], vec![2, 0, 1]);
    ledger.mint(CONTRACT, 90);
    let distribution = try_distribute(&mut splitter, &mut ledger).unwrap();
    assert_eq!(distribution.transfers, vec![transfer(0, 60), transfer(2, 30)]);
    assert_eq!(distribution.retained, 0);
    assert_eq!(ledger.transfer_calls, vec![(CONTRACT, "x", 60), (CONTRACT, "z", 30)]);
    assert_eq!(ledger.balance("y"), 0);
    assert_eq!(ledger.balance(CONTRACT), 0);
}

#[test]
fn two_to_one_split_of_ninety_nine() {
    let mut splitter = initialized(vec!["x", "y"], vec![2, 1]);
    assert_eq!(
        splitter.distribute(99),
        Ok(Distribution { transfers: vec![transfer(0, 66), transfer(1, 33)], retained: 0 })
    );
}

#[test]
fn shares_are_floors_and_the_rest_is_retained() {
    let mut splitter = initialized(vec!["a", "b", "c", "d"], vec![3, 5, 7, 11]);
    // total 26; floor(1000 * w / 26) = 115, 192, 269, 423
    let distribution = splitter.distribute(1000).unwrap();
    assert_eq!(
        distribution.transfers,
        vec![transfer(0, 115), transfer(1, 192), transfer(2, 269), transfer(3, 423)]
    );
    assert_eq!(distribution.retained, 1);
    let paid: i128 = distribution.transfers.iter().map(|t| t.amount).sum();
    assert_eq!(paid + distribution.retained, 1000);
}

#[test]
fn small_balance_pays_only_positive_shares() {
    let mut splitter = initialized(vec!["a", "b", "c"], vec![1, 10, 1]);
    // floor(5 * 1 / 12) = 0, floor(5 * 10 / 12) = 4
    assert_eq!(
        splitter.distribute(5),
        Ok(Distribution { transfers: vec![transfer(1, 4)], retained: 1 })
    );
}

#[test]
fn zero_balance_pays_nothing() {
    let mut splitter = initialized(vec!["a", "b"], vec![1, 1]);
    assert_eq!(splitter.distribute(0), Ok(Distribution { transfers: vec![], retained: 0 }));
    assert!(splitter.is_locked());
}

#[test]
fn largest_balance_with_unit_weights_does_not_overflow() {
    let mut splitter = initialized(vec!["a", "b"], vec![1, 1]);
    let half = i128::MAX / 2;
    assert_eq!(
        splitter.distribute(i128::MAX),
        Ok(Distribution { transfers: vec![transfer(0, half), transfer(1, half)], retained: 1 })
    );
}

#[test]
fn product_beyond_128_bits_is_an_overflow() {
    let mut splitter = initialized(vec!["a", "b"], vec![1, 4]);
    // i128::MAX * 4 > u128::MAX
    assert_eq!(splitter.distribute(i128::MAX), Err(SplitterError::ArithmeticOverflow));
    assert!(!splitter.is_locked());
    // i128::MAX * 2 = u128::MAX - 1 still fits
    let mut fits = initialized(vec!["a", "b"], vec![2, 2]);
    let half = i128::MAX / 2;
    assert_eq!(
        fits.distribute(i128::MAX),
        Ok(Distribution { transfers: vec![transfer(0, half), transfer(1, half)], retained: 1 })
    );
}

#[test]
fn negative_balance_is_refused() {
    let mut splitter = initialized(vec!["a", "b"], vec![1, 1]);
    assert_eq!(splitter.distribute(-1), Err(SplitterError::InvalidBalance));
    assert_eq!(splitter.distribute(i128::MIN), Err(SplitterError::InvalidBalance));
    assert!(!splitter.is_locked());
    assert!(splitter.distribute(1).is_ok());
}

#[test]
fn distribute_before_init_is_not_initialized() {
    let mut splitter: SimpleSplitter<Address> = SimpleSplitter::new();
    assert_eq!(splitter.distribute(100), Err(SplitterError::NotInitialized));
    assert!(!splitter.is_locked());
    assert!(!splitter.is_initialized());
}

#[test]
fn reentrant_distribute_is_refused_and_pays_nothing_more() {
    let mut ledger = Ledger::new();
    ledger.mint(CONTRACT, 100);
    let mut splitter = initialized(vec!["alice", "bob"], vec![1, 1]);

    let distribution = splitter.distribute(ledger.balance(CONTRACT)).unwrap();
    assert!(splitter.is_locked());
    // The first payment calls back into the instance before it returns.
    ledger.transfer(CONTRACT, "alice", distribution.transfers[0].amount);
    assert_eq!(
        splitter.distribute(ledger.balance(CONTRACT)),
        Err(SplitterError::ReentrancyDetected)
    );
    assert!(splitter.is_locked());
    ledger.transfer(CONTRACT, "bob", distribution.transfers[1].amount);
    splitter.settle();

    assert_eq!(ledger.transfer_calls.len(), 2);
    assert_eq!(ledger.balance("alice"), 50);
    assert_eq!(ledger.balance("bob"), 50);
    assert!(!splitter.is_locked());
    assert_eq!(splitter.distribute(0), Ok(Distribution { transfers: vec![], retained: 0 }));
}

#[test]
fn mismatched_lengths_leave_no_config() {
    let mut splitter: SimpleSplitter<Address> = SimpleSplitter::new();
    assert_eq!(
        splitter.init(TOKEN, vec!["alice", "bob"], vec![1, 2, 3]),
        Err(SplitterError::LengthMismatch)
    );
    assert_eq!(splitter.get_config(), Err(SplitterError::NotInitialized));
    assert!(!splitter.is_initialized());
    // Length is checked before the weights are looked at.
    assert_eq!(splitter.init(TOKEN, vec!["alice"], vec![0, 0]), Err(SplitterError::LengthMismatch));
    // The refusal changed nothing: a proper init still succeeds.
    assert_eq!(splitter.init(TOKEN, vec!["alice", "bob"], vec![1, 2]), Ok(()));
}

#[test]
fn all_zero_weights_are_refused() {
    let mut splitter: SimpleSplitter<Address> = SimpleSplitter::new();
    assert_eq!(
        splitter.init(TOKEN, vec!["alice", "bob", "charlie"], vec![0, 0, 0]),
        Err(SplitterError::ZeroTotalWeight)
    );
    assert_eq!(splitter.get_config(), Err(SplitterError::NotInitialized));
}

#[test]
fn second_init_is_refused_and_keeps_the_first_config() {
    let mut splitter = initialized(vec!["alice", "bob"], vec![1, 1]);
    assert_eq!(
        splitter.init("other", vec!["carol"], vec![5]),
        Err(SplitterError::AlreadyInitialized)
    );
    // Already initialized wins over every other refusal.
    assert_eq!(
        splitter.init("other", vec!["carol"], vec![]),
        Err(SplitterError::AlreadyInitialized)
    );
    let (token, recipients, shares) = splitter.get_config().unwrap();
    assert_eq!(*token, TOKEN);
    assert_eq!(*recipients, vec!["alice", "bob"]);
    assert_eq!(*shares, vec![1, 1]);
}

#[test]
fn get_config_returns_what_init_was_given() {
    let splitter = initialized(vec!["alice", "bob", "charlie"], vec![2, 0, 1]);
    let (token, recipients, shares) = splitter.get_config().unwrap();
    assert_eq!(*token, TOKEN);
    assert_eq!(*recipients, vec!["alice", "bob", "charlie"]);
    assert_eq!(*shares, vec![2, 0, 1]);
    assert!(splitter.is_initialized());
    assert!(!splitter.is_locked());
}

#[test]
fn settle_reopens_the_instance() {
    let mut splitter = initialized(vec!["alice", "bob"], vec![1, 3]);
    let first = splitter.distribute(8).unwrap();
    splitter.settle();
    assert!(!splitter.is_locked());
    let second = splitter.distribute(8).unwrap();
    assert_eq!(first, second);
    assert_eq!(first.transfers, vec![transfer(0, 2), transfer(1, 6)]);
    // Settling an instance that is not locked changes nothing.
    splitter.settle();
    splitter.settle();
    assert!(!splitter.is_locked());
    assert!(splitter.is_initialized());
}

#[test]
fn restore_rebuilds_what_was_stored() {
    let config = DistributionConfig::new(TOKEN, vec!["alice", "bob"], vec![1, 1]).unwrap();
    let mut in_flight = SimpleSplitter::restore(Some(config), true).unwrap();
    assert!(in_flight.is_initialized());
    assert!(in_flight.is_locked());
    assert_eq!(in_flight.distribute(10), Err(SplitterError::ReentrancyDetected));

    let config = DistributionConfig::new(TOKEN, vec!["alice", "bob"], vec![1, 1]).unwrap();
    let mut idle = SimpleSplitter::restore(Some(config), false).unwrap();
    assert_eq!(
        idle.distribute(10),
        Ok(Distribution { transfers: vec![transfer(0, 5), transfer(1, 5)], retained: 0 })
    );

    let blank: SimpleSplitter<Address> = SimpleSplitter::restore(None, false).unwrap();
    assert!(!blank.is_initialized());
    assert!(SimpleSplitter::<Address>::restore(None, true).is_none());
}

#[test]
fn config_is_validated_on_its_own() {
    assert_eq!(
        DistributionConfig::new(TOKEN, vec!["a"], vec![1, 2]).err(),
        Some(SplitterError::LengthMismatch)
    );
    assert_eq!(
        DistributionConfig::new(TOKEN, vec!["a", "b"], vec![0, 0]).err(),
        Some(SplitterError::ZeroTotalWeight)
    );
    let config = DistributionConfig::new(TOKEN, vec!["a", "b"], vec![0, 7]).unwrap();
    assert_eq!(*config.token(), TOKEN);
    assert_eq!(*config.recipients(), vec!["a", "b"]);
    assert_eq!(*config.weights(), vec![0, 7]);
    assert_eq!(
        config.plan(15),
        Ok(Distribution { transfers: vec![transfer(1, 15)], retained: 0 })
    );
    assert_eq!(config.plan(-15), Err(SplitterError::InvalidBalance));
}

#[test]
fn diagnostics_name_the_refusal() {
    assert_eq!(SplitterError::AlreadyInitialized.message(), "already initialized");
    assert_eq!(SplitterError::LengthMismatch.message(), "length mismatch");
    assert_eq!(
        SplitterError::ZeroTotalWeight.message(),
        "total shares must be greater than zero"
    );
    assert_eq!(SplitterError::NotInitialized.message(), "not initialized");
    assert_eq!(SplitterError::ReentrancyDetected.message(), "reentrancy detected");
    assert_eq!(SplitterError::InvalidBalance.message(), "negative balance");
    assert_eq!(SplitterError::ArithmeticOverflow.message(), "overflow in share calculation");
}

#[test]
fn lifetime_horizon_is_one_year_of_ledgers() {
    assert_eq!(ONE_YEAR_LEDGERS, 5_184_000);
}
