use transactions::cents::Cents;
use transactions::client::Client;
use transactions::err::TransactionError;
use transactions::transaction::Transaction;
use transactions::transaction::TransactionType;


fn run_transactions(
    client: &mut Client,
    txs: Vec<Transaction>,
    expected_avail: Cents,
    expected_held: Cents,
    expected_frozen: bool,
) {
    for tx in txs {
        let _ = client.handle_tx(tx);
    }
    assert_eq!(expected_avail, client.available());
    assert_eq!(expected_held, client.held());
    assert_eq!(expected_frozen, client.frozen());
}

#[test]
fn basic() {
    let mut client = Client::new();
    run_transactions(
        &mut client,
        vec![
            Transaction {
                transaction_type: TransactionType::Deposit,
                client: 0,
                tx: 0,
                amount: Some(Cents::new(8)),
            },
            Transaction {
                transaction_type: TransactionType::Withdrawal,
                client: 0,
                tx: 1,
                amount: Some(Cents::new(7)),
            },
        ],
        Cents::new(1),
        Cents::new(0),
        false,
    );
}

#[test]
fn resolve() {
    let mut client = Client::new();
    run_transactions(
        &mut client,
        vec![
            Transaction {
                transaction_type: TransactionType::Deposit,
                client: 0,
                tx: 1,
                amount: Some(Cents::new(72)),
            },
            Transaction {
                transaction_type: TransactionType::Dispute,
                client: 0,
                tx: 1,
                amount: None,
            },
            Transaction {
                transaction_type: TransactionType::Resolve,
                client: 0,
                tx: 1,
                amount: None,
            },
        ],
        Cents::new(72),
        Cents::new(0),
        false,
    );

    run_transactions(
        &mut client,
        vec![
            Transaction {
                transaction_type: TransactionType::Withdrawal,
                client: 0,
                tx: 2,
                amount: Some(Cents::new(70)),
            },
            Transaction {
                transaction_type: TransactionType::Dispute,
                client: 0,
                tx: 2,
                amount: None,
            },
            Transaction {
                transaction_type: TransactionType::Resolve,
                client: 0,
                tx: 2,
                amount: None,
            },
        ],
        Cents::new(2),
        Cents::new(0),
        false,
    );
}

#[test]
fn duplicate_tx_id() {
    let mut client = Client::new();
    run_transactions(
        &mut client,
        vec![
            Transaction {
                transaction_type: TransactionType::Deposit,
                client: 0,
                tx: 0,
                amount: Some(Cents::new(34)),
            },
            Transaction {
                transaction_type: TransactionType::Withdrawal,
                client: 0,
                tx: 0,
                amount: Some(Cents::new(33)),
            },
        ],
        Cents::new(34),
        Cents::new(0),
        false,
    );
}

#[test]
fn overdraft() {
    let mut client = Client::new();
    run_transactions(
        &mut client,
        vec![
            Transaction {
                transaction_type: TransactionType::Deposit,
                client: 0,
                tx: 0,
                amount: Some(Cents::new(3536)),
            },
            Transaction {
                transaction_type: TransactionType::Withdrawal,
                client: 0,
                tx: 1,
                amount: Some(Cents::new(3537)),
            },
        ],
        Cents::new(3536),
        Cents::new(0),
        false,
    );
}

#[test]
fn no_withdrawal_after_frozen() {
    let mut client = Client::new();
    run_transactions(
        &mut client,
        vec![
            Transaction {
                transaction_type: TransactionType::Deposit,
                client: 0,
                tx: 1,
                amount: Some(Cents::new(3242)),
            },
            Transaction {
                transaction_type: TransactionType::Dispute,
                client: 0,
                tx: 1,
                amount: None,
            },
            Transaction {
                transaction_type: TransactionType::Chargeback,
                client: 0,
                tx: 1,
                amount: None,
            },
            Transaction {
                transaction_type: TransactionType::Withdrawal,
                client: 0,
                tx: 2,
                amount: Some(Cents::new(1)),
            },
            // try to withdraw money via deposit dispute chargeback
            Transaction {
                transaction_type: TransactionType::Deposit,
                client: 0,
                tx: 3,
                amount: Some(Cents::new(169)),
            },
            Transaction {
                transaction_type: TransactionType::Dispute,
                client: 0,
                tx: 3,
                amount: None,
            },
            Transaction {
                transaction_type: TransactionType::Chargeback,
                client: 0,
                tx: 3,
                amount: None,
            },
        ],
        Cents::new(0),
        Cents::new(169),
        true,
    );
}

#[test]
fn no_chargeback_twice() {
    let mut client = Client::new();
    run_transactions(
        &mut client,
        vec![
            Transaction {
                transaction_type: TransactionType::Deposit,
                client: 0,
                tx: 435,
                amount: Some(Cents::new(100)),
            },
            Transaction {
                transaction_type: TransactionType::Withdrawal,
                client: 0,
                tx: 1,
                amount: Some(Cents::new(99)),
            },
            Transaction {
                transaction_type: TransactionType::Dispute,
                client: 0,
                tx: 1,
                amount: None,
            },
            Transaction {
                transaction_type: TransactionType::Chargeback,
                client: 0,
                tx: 1,
                amount: None,
            },
            Transaction {
                transaction_type: TransactionType::Dispute,
                client: 0,
                tx: 1,
                amount: None,
            },
            Transaction {
                transaction_type: TransactionType::Chargeback,
                client: 0,
                tx: 1,
                amount: None,
            },
        ],
        Cents::new(100),
        Cents::new(0),
        true,
    );
}

#[test]
fn no_dispute_twice() {
    let mut client = Client::new();
    run_transactions(
        &mut client,
        vec![
            Transaction {
                transaction_type: TransactionType::Deposit,
                client: 0,
                tx: 1,
                amount: Some(Cents::new(69)),
            },
            Transaction {
                transaction_type: TransactionType::Dispute,
                client: 0,
                tx: 1,
                amount: None,
            },
            Transaction {
                transaction_type: TransactionType::Dispute,
                client: 0,
                tx: 1,
                amount: None,
            },
        ],
        Cents::new(0),
        Cents::new(69),
        false,
    );
}

#[test]
fn not_enough_to_dispute_deposit() {
    let mut client = Client::new();
    run_transactions(
        &mut client,
        vec![
            Transaction {
                transaction_type: TransactionType::Deposit,
                client: 0,
                tx: 1,
                amount: Some(Cents::new(69)),
            },
            Transaction {
                transaction_type: TransactionType::Withdrawal,
                client: 0,
                tx: 2,
                amount: Some(Cents::new(1)),
            },
            Transaction {
                transaction_type: TransactionType::Dispute,
                client: 0,
                tx: 1,
                amount: None,
            },
        ],
        Cents::new(68),
        Cents::new(0),
        false,
    );
}

fn deposit(tx: u32, amount: u64) -> Transaction {
    Transaction {
        transaction_type: TransactionType::Deposit,
        client: 0,
        tx,
        amount: Some(Cents::new(amount)),
    }
}

fn withdrawal(tx: u32, amount: u64) -> Transaction {
    Transaction {
        transaction_type: TransactionType::Withdrawal,
        client: 0,
        tx,
        amount: Some(Cents::new(amount)),
    }
}

fn without_amount(transaction_type: TransactionType, tx: u32) -> Transaction {
    Transaction {
        transaction_type,
        client: 0,
        tx,
        amount: None,
    }
}

fn dispute(tx: u32) -> Transaction {
    without_amount(TransactionType::Dispute, tx)
}

fn resolve_of(tx: u32) -> Transaction {
    without_amount(TransactionType::Resolve, tx)
}

fn chargeback(tx: u32) -> Transaction {
    without_amount(TransactionType::Chargeback, tx)
}

fn balances(client: &Client) -> (u64, u64, u64, bool) {
    (
        client.available().value(),
        client.held().value(),
        client.total().value(),
        client.frozen(),
    )
}

#[test]
fn a_new_client_is_empty() {
    let client = Client::new();
    assert_eq!((0, 0, 0, false), balances(&client));
}

#[test]
fn deposit_adds_exactly_its_amount() {
    let mut client = Client::new();
    assert_eq!(Ok(()), client.handle_tx(deposit(1, 5)));
    assert_eq!((5, 0, 5, false), balances(&client));
    assert_eq!(Ok(()), client.handle_tx(deposit(2, 12345)));
    assert_eq!((12350, 0, 12350, false), balances(&client));
    assert_eq!(Ok(()), client.handle_tx(deposit(3, 0)));
    assert_eq!((12350, 0, 12350, false), balances(&client));
}

#[test]
fn duplicate_deposit_changes_nothing() {
    let mut client = Client::new();
    assert_eq!(Ok(()), client.handle_tx(deposit(1, 5)));
    assert_eq!(
        Err(TransactionError::DuplicateTransaction(1)),
        client.handle_tx(deposit(1, 5))
    );
    assert_eq!(
        Err(TransactionError::DuplicateTransaction(1)),
        client.handle_tx(deposit(1, 77))
    );
    assert_eq!((5, 0, 5, false), balances(&client));
}

#[test]
fn deposit_and_withdrawal_need_an_amount() {
    let mut client = Client::new();
    assert_eq!(
        Err(TransactionError::NoAmount),
        client.handle_tx(without_amount(TransactionType::Deposit, 1))
    );
    assert_eq!(
        Err(TransactionError::NoAmount),
        client.handle_tx(without_amount(TransactionType::Withdrawal, 1))
    );
    assert_eq!((0, 0, 0, false), balances(&client));
    // the id was not used up
    assert_eq!(Ok(()), client.handle_tx(deposit(1, 5)));
}

#[test]
fn withdrawal_takes_exactly_its_amount() {
    let mut client = Client::new();
    assert_eq!(Ok(()), client.handle_tx(deposit(1, 10)));
    assert_eq!(Ok(()), client.handle_tx(withdrawal(2, 4)));
    assert_eq!((6, 0, 6, false), balances(&client));
    assert_eq!(Ok(()), client.handle_tx(withdrawal(3, 6)));
    assert_eq!((0, 0, 0, false), balances(&client));
}

#[test]
fn overdraft_reports_the_shortfall() {
    let mut client = Client::new();
    assert_eq!(Ok(()), client.handle_tx(deposit(0, 3536)));
    assert_eq!(
        Err(TransactionError::InsufficientBalance {
            available: Cents::new(3536),
            requested: Cents::new(3537),
        }),
        client.handle_tx(withdrawal(1, 3537))
    );
    assert_eq!((3536, 0, 3536, false), balances(&client));
    // the rejected withdrawal was not recorded
    assert_eq!(
        Err(TransactionError::TransactionDoesNotExist(1)),
        client.handle_tx(dispute(1))
    );
}

#[test]
fn overdraft_is_found_before_a_reused_id() {
    let mut client = Client::new();
    assert_eq!(Ok(()), client.handle_tx(deposit(0, 34)));
    assert_eq!(
        Err(TransactionError::InsufficientBalance {
            available: Cents::new(34),
            requested: Cents::new(35),
        }),
        client.handle_tx(withdrawal(0, 35))
    );
    assert_eq!(
        Err(TransactionError::DuplicateTransaction(0)),
        client.handle_tx(withdrawal(0, 33))
    );
    assert_eq!((34, 0, 34, false), balances(&client));
}

#[test]
fn dispute_of_a_deposit_holds_its_amount() {
    let mut client = Client::new();
    assert_eq!(Ok(()), client.handle_tx(deposit(1, 100)));
    assert_eq!(Ok(()), client.handle_tx(deposit(2, 50)));
    assert_eq!(Ok(()), client.handle_tx(dispute(1)));
    assert_eq!((50, 100, 150, false), balances(&client));
}

#[test]
fn dispute_of_a_withdrawal_claims_its_amount() {
    let mut client = Client::new();
    assert_eq!(Ok(()), client.handle_tx(deposit(1, 100)));
    assert_eq!(Ok(()), client.handle_tx(withdrawal(2, 99)));
    assert_eq!(Ok(()), client.handle_tx(dispute(2)));
    assert_eq!((1, 99, 100, false), balances(&client));
}

#[test]
fn dispute_of_an_unknown_transaction() {
    let mut client = Client::new();
    assert_eq!(Ok(()), client.handle_tx(deposit(1, 100)));
    assert_eq!(
        Err(TransactionError::TransactionDoesNotExist(7)),
        client.handle_tx(dispute(7))
    );
    assert_eq!(
        Err(TransactionError::TransactionDoesNotExist(7)),
        client.handle_tx(resolve_of(7))
    );
    assert_eq!(
        Err(TransactionError::TransactionDoesNotExist(7)),
        client.handle_tx(chargeback(7))
    );
    assert_eq!((100, 0, 100, false), balances(&client));
}

#[test]
fn dispute_of_a_spent_deposit() {
    let mut client = Client::new();
    assert_eq!(Ok(()), client.handle_tx(deposit(1, 69)));
    assert_eq!(Ok(()), client.handle_tx(withdrawal(2, 1)));
    assert_eq!(
        Err(TransactionError::InsufficientBalance {
            available: Cents::new(68),
            requested: Cents::new(69),
        }),
        client.handle_tx(dispute(1))
    );
    assert_eq!((68, 0, 68, false), balances(&client));
    // the deposit is not under dispute
    assert_eq!(
        Err(TransactionError::TransactionNotUnderDispute(1)),
        client.handle_tx(resolve_of(1))
    );
}

#[test]
fn second_dispute_is_rejected() {
    let mut client = Client::new();
    assert_eq!(Ok(()), client.handle_tx(deposit(1, 69)));
    assert_eq!(Ok(()), client.handle_tx(deposit(2, 100)));
    assert_eq!(Ok(()), client.handle_tx(dispute(1)));
    assert_eq!(
        Err(TransactionError::DuplicateTransaction(1)),
        client.handle_tx(dispute(1))
    );
    assert_eq!((100, 69, 169, false), balances(&client));
    assert_eq!(Ok(()), client.handle_tx(withdrawal(3, 99)));
    assert_eq!(Ok(()), client.handle_tx(dispute(3)));
    assert_eq!(
        Err(TransactionError::DuplicateTransaction(3)),
        client.handle_tx(dispute(3))
    );
    assert_eq!((1, 168, 169, false), balances(&client));
}

#[test]
fn second_dispute_of_a_deposit_without_funds_is_a_duplicate() {
    let mut client = Client::new();
    assert_eq!(Ok(()), client.handle_tx(deposit(1, 69)));
    assert_eq!(Ok(()), client.handle_tx(dispute(1)));
    assert_eq!(
        Err(TransactionError::DuplicateTransaction(1)),
        client.handle_tx(dispute(1))
    );
    assert_eq!((0, 69, 69, false), balances(&client));
    // the one open dispute can still be resolved, once
    assert_eq!(Ok(()), client.handle_tx(resolve_of(1)));
    assert_eq!((69, 0, 69, false), balances(&client));
    assert_eq!(
        Err(TransactionError::TransactionNotUnderDispute(1)),
        client.handle_tx(resolve_of(1))
    );
}

#[test]
fn dispute_of_a_charged_back_deposit_without_funds_is_charged_back() {
    let mut client = Client::new();
    assert_eq!(Ok(()), client.handle_tx(deposit(1, 100)));
    assert_eq!(Ok(()), client.handle_tx(dispute(1)));
    assert_eq!(Ok(()), client.handle_tx(chargeback(1)));
    assert_eq!((0, 0, 0, true), balances(&client));
    assert_eq!(
        Err(TransactionError::AlreadyChargedBack(1)),
        client.handle_tx(dispute(1))
    );
    assert_eq!((0, 0, 0, true), balances(&client));
}

#[test]
fn dispute_checks_come_in_order() {
    let mut client = Client::new();
    // unknown before anything else
    assert_eq!(
        Err(TransactionError::TransactionDoesNotExist(1)),
        client.handle_tx(dispute(1))
    );
    assert_eq!(Ok(()), client.handle_tx(deposit(1, 50)));
    assert_eq!(Ok(()), client.handle_tx(withdrawal(2, 20)));
    // a deposit that is free for a dispute is held against the funds
    assert_eq!(
        Err(TransactionError::InsufficientBalance {
            available: Cents::new(30),
            requested: Cents::new(50),
        }),
        client.handle_tx(dispute(1))
    );
    assert_eq!(Ok(()), client.handle_tx(deposit(3, 20)));
    assert_eq!(Ok(()), client.handle_tx(dispute(1)));
    assert_eq!((0, 50, 50, false), balances(&client));
    // an open dispute before the funds
    assert_eq!(
        Err(TransactionError::DuplicateTransaction(1)),
        client.handle_tx(dispute(1))
    );
    assert_eq!(Ok(()), client.handle_tx(chargeback(1)));
    // a chargeback before the funds
    assert_eq!(
        Err(TransactionError::AlreadyChargedBack(1)),
        client.handle_tx(dispute(1))
    );
    assert_eq!((0, 0, 0, true), balances(&client));
}

#[test]
fn resolve_and_chargeback_need_a_dispute() {
    let mut client = Client::new();
    assert_eq!(Ok(()), client.handle_tx(deposit(1, 72)));
    assert_eq!(
        Err(TransactionError::TransactionNotUnderDispute(1)),
        client.handle_tx(resolve_of(1))
    );
    assert_eq!(
        Err(TransactionError::TransactionNotUnderDispute(1)),
        client.handle_tx(chargeback(1))
    );
    assert_eq!((72, 0, 72, false), balances(&client));
    assert_eq!(Ok(()), client.handle_tx(dispute(1)));
    assert_eq!(Ok(()), client.handle_tx(resolve_of(1)));
    assert_eq!(
        Err(TransactionError::TransactionNotUnderDispute(1)),
        client.handle_tx(resolve_of(1))
    );
    assert_eq!(
        Err(TransactionError::TransactionNotUnderDispute(1)),
        client.handle_tx(chargeback(1))
    );
    assert_eq!((72, 0, 72, false), balances(&client));
}

#[test]
fn a_resolved_transaction_can_be_disputed_again() {
    let mut client = Client::new();
    assert_eq!(Ok(()), client.handle_tx(deposit(1, 72)));
    assert_eq!(Ok(()), client.handle_tx(dispute(1)));
    assert_eq!(Ok(()), client.handle_tx(resolve_of(1)));
    assert_eq!(Ok(()), client.handle_tx(dispute(1)));
    assert_eq!((0, 72, 72, false), balances(&client));
}

#[test]
fn chargeback_of_a_deposit_removes_the_funds_and_freezes() {
    let mut client = Client::new();
    assert_eq!(Ok(()), client.handle_tx(deposit(1, 126929)));
    assert_eq!(Ok(()), client.handle_tx(deposit(2, 10)));
    assert_eq!(Ok(()), client.handle_tx(dispute(1)));
    assert_eq!(Ok(()), client.handle_tx(chargeback(1)));
    assert_eq!((10, 0, 10, true), balances(&client));
}

#[test]
fn chargeback_of_a_withdrawal_returns_the_funds_and_freezes() {
    let mut client = Client::new();
    assert_eq!(Ok(()), client.handle_tx(deposit(435, 100)));
    assert_eq!(Ok(()), client.handle_tx(withdrawal(1, 99)));
    assert_eq!(Ok(()), client.handle_tx(dispute(1)));
    assert_eq!(Ok(()), client.handle_tx(chargeback(1)));
    assert_eq!((100, 0, 100, true), balances(&client));
}

#[test]
fn a_charged_back_transaction_cannot_be_disputed() {
    let mut client = Client::new();
    assert_eq!(Ok(()), client.handle_tx(deposit(435, 100)));
    assert_eq!(Ok(()), client.handle_tx(withdrawal(1, 99)));
    assert_eq!(Ok(()), client.handle_tx(dispute(1)));
    assert_eq!(Ok(()), client.handle_tx(chargeback(1)));
    assert_eq!(
        Err(TransactionError::AlreadyChargedBack(1)),
        client.handle_tx(dispute(1))
    );
    assert_eq!(
        Err(TransactionError::TransactionNotUnderDispute(1)),
        client.handle_tx(chargeback(1))
    );
    assert_eq!((100, 0, 100, true), balances(&client));
}

#[test]
fn a_frozen_account_rejects_every_withdrawal() {
    let mut client = Client::new();
    assert_eq!(Ok(()), client.handle_tx(deposit(1, 10)));
    assert_eq!(Ok(()), client.handle_tx(deposit(2, 10)));
    assert_eq!(Ok(()), client.handle_tx(dispute(1)));
    assert_eq!(Ok(()), client.handle_tx(chargeback(1)));
    assert_eq!(
        Err(TransactionError::AccountFrozen),
        client.handle_tx(withdrawal(3, 1))
    );
    assert_eq!(
        Err(TransactionError::AccountFrozen),
        client.handle_tx(withdrawal(4, 1000))
    );
    assert_eq!(
        Err(TransactionError::AccountFrozen),
        client.handle_tx(without_amount(TransactionType::Withdrawal, 5))
    );
    // deposits, disputes and resolves go on, and do not thaw the account
    assert_eq!(Ok(()), client.handle_tx(deposit(6, 5)));
    assert_eq!(Ok(()), client.handle_tx(dispute(2)));
    assert_eq!(Ok(()), client.handle_tx(resolve_of(2)));
    assert_eq!(
        Err(TransactionError::AccountFrozen),
        client.handle_tx(withdrawal(7, 1))
    );
    assert_eq!((15, 0, 15, true), balances(&client));
}

#[test]
fn chargeback_of_a_deposit_on_a_frozen_account_leaves_the_balances() {
    let mut client = Client::new();
    assert_eq!(Ok(()), client.handle_tx(deposit(1, 3242)));
    assert_eq!(Ok(()), client.handle_tx(dispute(1)));
    assert_eq!(Ok(()), client.handle_tx(chargeback(1)));
    assert_eq!(Ok(()), client.handle_tx(deposit(3, 169)));
    assert_eq!(Ok(()), client.handle_tx(dispute(3)));
    assert_eq!(Ok(()), client.handle_tx(chargeback(3)));
    assert_eq!((0, 169, 169, true), balances(&client));
    // the dispute is closed and the deposit counts as charged back
    assert_eq!(
        Err(TransactionError::TransactionNotUnderDispute(3)),
        client.handle_tx(resolve_of(3))
    );
    assert_eq!(
        Err(TransactionError::TransactionNotUnderDispute(3)),
        client.handle_tx(chargeback(3))
    );
    assert_eq!(
        Err(TransactionError::AlreadyChargedBack(3)),
        client.handle_tx(dispute(3))
    );
    assert_eq!((0, 169, 169, true), balances(&client));
}

#[test]
fn chargeback_of_a_withdrawal_on_a_frozen_account_moves_the_funds() {
    let mut client = Client::new();
    assert_eq!(Ok(()), client.handle_tx(deposit(1, 100)));
    assert_eq!(Ok(()), client.handle_tx(withdrawal(2, 30)));
    assert_eq!(Ok(()), client.handle_tx(withdrawal(3, 20)));
    assert_eq!(Ok(()), client.handle_tx(dispute(2)));
    assert_eq!(Ok(()), client.handle_tx(chargeback(2)));
    assert_eq!((80, 0, 80, true), balances(&client));
    assert_eq!(Ok(()), client.handle_tx(dispute(3)));
    assert_eq!((80, 20, 100, true), balances(&client));
    assert_eq!(Ok(()), client.handle_tx(chargeback(3)));
    assert_eq!((100, 0, 100, true), balances(&client));
}

#[test]
fn resolve_of_a_withdrawal_drops_the_claim() {
    let mut client = Client::new();
    assert_eq!(Ok(()), client.handle_tx(deposit(1, 72)));
    assert_eq!(Ok(()), client.handle_tx(withdrawal(2, 70)));
    assert_eq!(Ok(()), client.handle_tx(dispute(2)));
    assert_eq!((2, 70, 72, false), balances(&client));
    assert_eq!(Ok(()), client.handle_tx(resolve_of(2)));
    assert_eq!((2, 0, 2, false), balances(&client));
}

#[test]
fn overflows_tells_when_the_total_would_not_fit() {
    let mut client = Client::new();
    assert!(!client.overflows(&deposit(1, u64::MAX)));
    assert_eq!(Ok(()), client.handle_tx(deposit(1, u64::MAX - 10)));
    assert!(!client.overflows(&deposit(2, 10)));
    assert!(client.overflows(&deposit(2, 11)));
    // a deposit that is rejected anyway does not overflow
    assert!(!client.overflows(&deposit(1, 11)));
    assert!(!client.overflows(&without_amount(TransactionType::Deposit, 2)));
    assert_eq!(Ok(()), client.handle_tx(withdrawal(3, 100)));
    assert_eq!(Ok(()), client.handle_tx(deposit(4, 50)));
    // claiming the withdrawal back would take the total over the limit
    assert!(client.overflows(&dispute(3)));
    assert!(!client.overflows(&dispute(1)));
    assert!(!client.overflows(&dispute(9)));
    assert!(!client.overflows(&withdrawal(5, 1)));
    assert!(!client.overflows(&resolve_of(1)));
    assert!(!client.overflows(&chargeback(1)));
    assert_eq!(Ok(()), client.handle_tx(withdrawal(6, 40)));
    assert!(!client.overflows(&dispute(3)));
    assert_eq!(Ok(()), client.handle_tx(dispute(3)));
    assert_eq!(
        (u64::MAX - 100, 100, u64::MAX, false),
        balances(&client)
    );
    assert!(!client.overflows(&dispute(3)));
}
