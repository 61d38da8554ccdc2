use dao_core::address::Address;
use dao_core::treasury::Error;
use dao_core::treasury::TreasuryContract;
use dao_core::treasury::TreasuryEvent;

fn setup() -> (Address, TreasuryContract) {
    let admin = Address::new(100);
    let contract = TreasuryContract::new();
    (admin, contract)
}

#[test]
fn test_initialize_treasury() {
    let (admin, mut client) = setup();

    let signer1 = Address::new(1);
    let signer2 = Address::new(2);
    let signer3 = Address::new(3);

    let signers = vec![signer1, signer2, signer3];

    client.initialize(admin, 2, signers).unwrap();

    let config = client.get_config().unwrap();
    assert_eq!(config.admin, admin);
    assert_eq!(config.threshold, 2);
    assert_eq!(config.signer_count, 3);
    assert_eq!(config.balance, 0);
}

#[test]
fn test_deposit() {
    let (admin, mut client) = setup();

    let signer1 = Address::new(1);
    let signers = vec![signer1];
    client.initialize(admin, 1, signers).unwrap();

    let depositor = Address::new(9);
    client.deposit(depositor, 1_000_000).unwrap();

    assert_eq!(client.get_balance(), 1_000_000);
}

#[test]
fn test_propose_and_approve() {
    let (admin, mut client) = setup();

    let signer1 = Address::new(1);
    let signer2 = Address::new(2);
    let signers = vec![signer1, signer2];
    client.initialize(admin, 2, signers).unwrap();

    // Deposit some funds
    client.deposit(signer1, 5_000_000).unwrap();

    // Propose withdrawal
    let recipient = Address::new(9);
    let tx_id = client
        .propose_withdrawal(signer1, recipient, 1_000_000, "rent".to_string(), 0)
        .unwrap();
    assert_eq!(tx_id, 1);

    // Second signer approves
    let approval_count = client.approve(signer2, tx_id).unwrap();
    assert_eq!(approval_count, 2);

    // Execute
    client.execute(signer1, tx_id).unwrap();

    // Check balance deducted
    assert_eq!(client.get_balance(), 4_000_000);

    // Check transaction marked as executed
    let tx = client.get_transaction(tx_id).unwrap();
    assert_eq!(tx.executed, true);
}

#[test]
fn test_multisig_happy_path() {
    let (admin, mut client) = setup();

    let s1 = Address::new(1);
    let s2 = Address::new(2);
    let s3 = Address::new(3);
    client.initialize(admin, 2, vec![s1, s2, s3]).unwrap();

    let depositor = Address::new(9);
    client.deposit(depositor, 5_000_000).unwrap();

    let recipient = Address::new(10);
    let tx_id = client
        .propose_withdrawal(s1, recipient, 1_000_000, "rent".to_string(), 7)
        .unwrap();
    assert_eq!(tx_id, 1);

    // The proposer's approval is already on file.
    assert_eq!(client.get_transaction(tx_id).unwrap().approvals, vec![s1]);

    assert_eq!(client.approve(s2, tx_id).unwrap(), 2);
    client.execute(s1, tx_id).unwrap();

    assert_eq!(client.get_balance(), 4_000_000);
    assert_eq!(client.get_transaction(tx_id).unwrap().executed, true);
}

#[test]
fn test_threshold_breach_on_removal() {
    let (admin, mut client) = setup();

    let s1 = Address::new(1);
    let s2 = Address::new(2);
    let s3 = Address::new(3);
    client.initialize(admin, 2, vec![s1, s2, s3]).unwrap();

    // Three signers against a threshold of two: one removal fits.
    client.remove_signer(admin, s1).unwrap();
    assert_eq!(client.get_signers().len(), 2);

    // A second removal would leave fewer signers than the threshold.
    assert_eq!(client.remove_signer(admin, s2), Err(Error::ThresholdBreach));
    assert_eq!(client.get_signers().len(), 2);
}

#[test]
fn test_initialize_invalid_threshold() {
    let (admin, mut client) = setup();

    let signers = vec![Address::new(1), Address::new(2), Address::new(3)];
    assert_eq!(client.initialize(admin, 0, signers.clone()), Err(Error::InvalidThreshold));
    assert_eq!(client.initialize(admin, 4, signers), Err(Error::InvalidThreshold));
}

#[test]
fn test_deposit_invalid_amount() {
    let (admin, mut client) = setup();

    client.initialize(admin, 1, vec![Address::new(1)]).unwrap();
    assert_eq!(client.deposit(Address::new(9), 0), Err(Error::InvalidAmount));
    assert_eq!(client.deposit(Address::new(9), -5), Err(Error::InvalidAmount));
    assert_eq!(client.get_balance(), 0);
}

#[test]
fn test_propose_validation() {
    let (admin, mut client) = setup();

    let s1 = Address::new(1);
    client.initialize(admin, 1, vec![s1]).unwrap();
    client.deposit(s1, 100).unwrap();

    let outsider = Address::new(9);
    assert_eq!(
        client.propose_withdrawal(outsider, s1, 50, "x".to_string(), 0),
        Err(Error::NotASigner)
    );
    assert_eq!(
        client.propose_withdrawal(s1, outsider, 0, "x".to_string(), 0),
        Err(Error::InvalidAmount)
    );
    assert_eq!(
        client.propose_withdrawal(s1, outsider, 101, "x".to_string(), 0),
        Err(Error::InsufficientFunds)
    );
}

#[test]
fn test_double_approve_fails() {
    let (admin, mut client) = setup();

    let s1 = Address::new(1);
    let s2 = Address::new(2);
    client.initialize(admin, 2, vec![s1, s2]).unwrap();
    client.deposit(s1, 1_000).unwrap();
    let tx_id = client.propose_withdrawal(s1, s2, 500, "x".to_string(), 0).unwrap();

    // The proposer has already approved by proposing.
    assert_eq!(client.approve(s1, tx_id), Err(Error::AlreadyApproved));
    assert_eq!(client.approve(s2, tx_id).unwrap(), 2);
    assert_eq!(client.approve(s2, tx_id), Err(Error::AlreadyApproved));
}

#[test]
fn test_execute_below_threshold() {
    let (admin, mut client) = setup();

    let s1 = Address::new(1);
    let s2 = Address::new(2);
    client.initialize(admin, 2, vec![s1, s2]).unwrap();
    client.deposit(s1, 1_000).unwrap();
    let tx_id = client.propose_withdrawal(s1, s2, 500, "x".to_string(), 0).unwrap();

    // One approval against a threshold of two.
    assert_eq!(client.execute(s1, tx_id), Err(Error::Unauthorized));
    assert_eq!(client.get_balance(), 1_000);
}

#[test]
fn test_execute_twice_fails() {
    let (admin, mut client) = setup();

    let s1 = Address::new(1);
    client.initialize(admin, 1, vec![s1]).unwrap();
    client.deposit(s1, 1_000).unwrap();
    let tx_id = client.propose_withdrawal(s1, s1, 500, "x".to_string(), 0).unwrap();

    client.execute(s1, tx_id).unwrap();
    assert_eq!(client.execute(s1, tx_id), Err(Error::AlreadyExecuted));
    assert_eq!(client.approve(s1, tx_id), Err(Error::AlreadyExecuted));
    assert_eq!(client.get_balance(), 500);
}

#[test]
fn test_balance_rechecked_at_execution() {
    let (admin, mut client) = setup();

    let s1 = Address::new(1);
    client.initialize(admin, 1, vec![s1]).unwrap();
    client.deposit(s1, 1_000).unwrap();

    // Both proposals pass the balance check at proposal time.
    let tx1 = client.propose_withdrawal(s1, s1, 800, "a".to_string(), 0).unwrap();
    let tx2 = client.propose_withdrawal(s1, s1, 800, "b".to_string(), 0).unwrap();

    client.execute(s1, tx1).unwrap();
    // The balance is checked again at execution.
    assert_eq!(client.execute(s1, tx2), Err(Error::InsufficientFunds));
    assert_eq!(client.get_balance(), 200);
}

#[test]
fn test_add_signer_rules() {
    let (admin, mut client) = setup();

    let s1 = Address::new(1);
    let s2 = Address::new(2);
    client.initialize(admin, 1, vec![s1]).unwrap();

    assert_eq!(client.add_signer(s1, s2), Err(Error::Unauthorized));
    client.add_signer(admin, s2).unwrap();
    assert_eq!(client.add_signer(admin, s2), Err(Error::AlreadySigner));
    assert_eq!(client.get_signers().len(), 2);
}

#[test]
fn test_remove_signer_not_a_signer() {
    let (admin, mut client) = setup();

    let s1 = Address::new(1);
    let s2 = Address::new(2);
    client.initialize(admin, 1, vec![s1, s2]).unwrap();

    assert_eq!(client.remove_signer(admin, Address::new(9)), Err(Error::NotASigner));
    client.remove_signer(admin, s2).unwrap();
    assert_eq!(client.get_signers().len(), 1);
}

#[test]
fn test_set_threshold_validation() {
    let (admin, mut client) = setup();

    let s1 = Address::new(1);
    let s2 = Address::new(2);
    client.initialize(admin, 1, vec![s1, s2]).unwrap();

    assert_eq!(client.set_threshold(admin, 0), Err(Error::InvalidThreshold));
    assert_eq!(client.set_threshold(admin, 3), Err(Error::InvalidThreshold));
    assert_eq!(client.set_threshold(s1, 2), Err(Error::Unauthorized));
    client.set_threshold(admin, 2).unwrap();
    assert_eq!(client.get_config().unwrap().threshold, 2);
}

#[test]
fn test_transfer_admin_treasury() {
    let (admin, mut client) = setup();

    let s1 = Address::new(1);
    let new_admin = Address::new(7);
    client.initialize(admin, 1, vec![s1]).unwrap();

    assert_eq!(client.transfer_admin(s1, new_admin), Err(Error::Unauthorized));
    client.transfer_admin(admin, new_admin).unwrap();
    assert_eq!(client.get_config().unwrap().admin, new_admin);
    assert_eq!(client.upgrade(admin), Err(Error::Unauthorized));
    assert_eq!(client.upgrade(new_admin), Ok(()));
}

#[test]
fn test_balance_accounting() {
    let (admin, mut client) = setup();

    let s1 = Address::new(1);
    client.initialize(admin, 1, vec![s1]).unwrap();

    client.deposit(Address::new(9), 300).unwrap();
    client.deposit(Address::new(10), 700).unwrap();
    let tx1 = client.propose_withdrawal(s1, s1, 250, "a".to_string(), 0).unwrap();
    client.execute(s1, tx1).unwrap();
    client.deposit(Address::new(9), 50).unwrap();

    // balance = 300 + 700 - 250 + 50
    assert_eq!(client.get_balance(), 800);
}

#[test]
fn test_treasury_events() {
    let (admin, mut client) = setup();

    let s1 = Address::new(1);
    client.initialize(admin, 1, vec![s1]).unwrap();
    client.deposit(Address::new(9), 300).unwrap();

    assert_eq!(client.events.len(), 2);
    assert_eq!(
        client.events[0],
        TreasuryEvent::Init { admin, threshold: 1, signer_count: 1 }
    );
    assert_eq!(
        client.events[1],
        TreasuryEvent::Deposit { from: Address::new(9), amount: 300, new_balance: 300 }
    );

    // A failed call emits nothing.
    let _ = client.deposit(Address::new(9), 0);
    assert_eq!(client.events.len(), 2);
}

#[test]
fn test_tx_not_found() {
    let (admin, mut client) = setup();

    let s1 = Address::new(1);
    client.initialize(admin, 1, vec![s1]).unwrap();

    assert_eq!(client.approve(s1, 9), Err(Error::TransactionNotFound));
    assert_eq!(client.execute(s1, 9), Err(Error::TransactionNotFound));
    assert!(client.get_transaction(9).is_err());
}

#[test]
fn test_treasury_not_initialized_errors() {
    let (admin, mut client) = setup();
    let s1 = Address::new(1);

    assert_eq!(client.deposit(s1, 100), Err(Error::NotInitialized));
    assert_eq!(
        client.propose_withdrawal(s1, s1, 100, "x".to_string(), 0),
        Err(Error::NotInitialized)
    );
    assert_eq!(client.approve(s1, 1), Err(Error::NotInitialized));
    assert_eq!(client.execute(s1, 1), Err(Error::NotInitialized));
    assert_eq!(client.add_signer(admin, s1), Err(Error::NotInitialized));
    assert_eq!(client.remove_signer(admin, s1), Err(Error::NotInitialized));
    assert_eq!(client.set_threshold(admin, 1), Err(Error::NotInitialized));
    assert_eq!(client.transfer_admin(admin, s1), Err(Error::NotInitialized));
    assert_eq!(client.get_config(), Err(Error::NotInitialized));
    assert_eq!(client.upgrade(admin), Err(Error::NotInitialized));
    assert_eq!(client.get_balance(), 0);
}

#[test]
fn test_treasury_double_initialize_fails() {
    let (admin, mut client) = setup();

    client.initialize(admin, 1, vec![Address::new(1)]).unwrap();
    assert_eq!(
        client.initialize(admin, 1, vec![Address::new(2)]),
        Err(Error::AlreadyInitialized)
    );
}

#[test]
fn test_deposit_overflow() {
    let (admin, mut client) = setup();

    let s1 = Address::new(1);
    client.initialize(admin, 1, vec![s1]).unwrap();
    client.deposit(s1, i128::MAX).unwrap();

    // The balance may not run past the largest representable amount.
    assert_eq!(client.deposit(s1, 1), Err(Error::Overflow));
    assert_eq!(client.get_balance(), i128::MAX);
}

#[test]
fn test_tx_ids_increment() {
    let (admin, mut client) = setup();

    let s1 = Address::new(1);
    client.initialize(admin, 1, vec![s1]).unwrap();
    client.deposit(s1, 1_000).unwrap();

    let tx1 = client.propose_withdrawal(s1, s1, 10, "a".to_string(), 0).unwrap();
    let tx2 = client.propose_withdrawal(s1, s1, 10, "b".to_string(), 0).unwrap();
    assert_eq!(tx1, 1);
    assert_eq!(tx2, 2);
    assert_eq!(client.get_config().unwrap().tx_count, 2);
}
