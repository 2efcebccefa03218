use rollup::stf::{apply_deposit, apply_forced_tx, apply_transaction, StfError, TransactionResult};
use rollup::types::{Account, Deposit, ForcedTx, Transaction};

/// A small generator of numbers, so that the cases are the same in every run.
struct Numbers {
    state: u64,
}

impl Numbers {
    fn next(&mut self) -> u64 {
        self.state = self
            .state
            .wrapping_mul(6364136223846793005)
            .wrapping_add(1442695040888963407);
        let x = self.state;
        let mixed = (x ^ (x >> 33)).wrapping_mul(0xff51afd7ed558ccd);
        match (mixed >> 59) % 4 {
            0 => mixed ^ (mixed >> 29),
            1 => (mixed >> 20) % 1000,
            2 => u64::MAX - (mixed >> 30) % 1000,
            _ => mixed >> 3,
        }
    }

    fn account(&mut self) -> Account {
        let mut id = [0u8; 32];
        for byte in id.iter_mut() {
            *byte = (self.next() >> 7) as u8;
        }
        let nonce = self.next();
        Account {
            id,
            balance: self.next(),
            nonce: if nonce == u64::MAX { 0 } else { nonce },
        }
    }
}

fn check_transaction(mut from: Account, to: Account, amount: u64, fee: u64) {
    if from.id == to.id {
        from.id[0] = from.id[0].wrapping_add(1);
    }

    let tx = Transaction {
        from: from.id,
        to: to.id,
        nonce: from.nonce,
        amount,
        fee,
    };

    let initial_from_balance = from.balance;
    let initial_to_balance = to.balance;

    let total_debit = match tx.amount.checked_add(tx.fee) {
        Some(val) => val,
        None => {
            let result = apply_transaction(from, to, &tx);
            assert!(matches!(result, Err(StfError::BalanceOverflow)));
            return;
        }
    };

    if initial_from_balance >= total_debit {
        if initial_to_balance.checked_add(tx.amount).is_none() {
            let result = apply_transaction(from, to, &tx);
            assert!(result.is_err(), "expected balance overflow for recipient");
            return;
        }

        let tx_result = apply_transaction(from.clone(), to, &tx).unwrap();

        if let TransactionResult::Success(updated_from, updated_to) = tx_result {
            assert_eq!(
                updated_from.balance,
                initial_from_balance - total_debit,
                "from balance mismatch on success"
            );
            assert_eq!(updated_from.nonce, from.nonce + 1, "from nonce mismatch on success");
            assert_eq!(
                updated_to.balance,
                initial_to_balance + tx.amount,
                "to balance mismatch on success"
            );
        } else {
            panic!("expected success, got failure");
        }
    } else {
        let tx_result = apply_transaction(from.clone(), to, &tx).unwrap();
        if let TransactionResult::Failure(updated_from) = tx_result {
            let expected_balance = initial_from_balance.saturating_sub(tx.fee);
            assert_eq!(
                updated_from.balance, expected_balance,
                "from balance mismatch on failure"
            );
            assert_eq!(updated_from.nonce, from.nonce + 1, "from nonce mismatch on failure");
        } else {
            panic!("expected failure, got success");
        }
    }
}

fn check_deposit(account: Account, amount: u64) {
    let deposit = Deposit {
        to: account.id,
        amount,
        timestamp: 0,
    };

    let initial_nonce = account.nonce;

    let result = apply_deposit(account.clone(), &deposit);

    match account.balance.checked_add(amount) {
        Some(expected_balance) => {
            let updated_account = result.unwrap();
            assert_eq!(
                updated_account.balance, expected_balance,
                "balance mismatch on deposit success"
            );
            assert_eq!(
                updated_account.nonce, initial_nonce,
                "nonce should not change on deposit"
            );
        }
        None => {
            assert!(result.is_err(), "expected overflow error, got success");
        }
    }
}

#[test]
fn transaction_should_be_consistent() {
    let mut numbers = Numbers { state: 1 };
    for _ in 0..1000 {
        let from = numbers.account();
        let to = numbers.account();
        let amount = numbers.next();
        let fee = numbers.next();
        check_transaction(from, to, amount, fee);
    }
    let edges = [0, 1, 10, u64::MAX / 2, u64::MAX - 1, u64::MAX];
    for balance in edges {
        for to_balance in edges {
            for amount in edges {
                for fee in edges {
                    let from = Account { id: [1; 32], balance, nonce: 3 };
                    let to = Account { id: [2; 32], balance: to_balance, nonce: 8 };
                    check_transaction(from, to, amount, fee);
                    check_transaction(from, from, amount, fee);
                }
            }
        }
    }
}

#[test]
fn deposit_should_be_consistent() {
    let mut numbers = Numbers { state: 2 };
    for _ in 0..1000 {
        let account = numbers.account();
        let amount = numbers.next();
        check_deposit(account, amount);
    }
    for balance in [0, 1, u64::MAX - 1, u64::MAX] {
        for amount in [0, 1, u64::MAX - 1, u64::MAX] {
            check_deposit(Account { id: [1; 32], balance, nonce: u64::MAX }, amount);
        }
    }
}

fn alice(balance: u64, nonce: u64) -> Account {
    Account { id: [0xa; 32], balance, nonce }
}

fn bob(balance: u64, nonce: u64) -> Account {
    Account { id: [0xb; 32], balance, nonce }
}

fn transfer(nonce: u64, amount: u64, fee: u64) -> Transaction {
    Transaction { from: [0xa; 32], to: [0xb; 32], nonce, fee, amount }
}

fn forced(nonce: u64, amount: u64, fee: u64) -> ForcedTx {
    ForcedTx {
        from: [0xa; 32],
        to: [0xb; 32],
        nonce,
        fee,
        amount,
        timestamp: 77,
        l2_calldata: vec![1, 2, 3],
    }
}

#[test]
fn covered_transfer_moves_the_amount_and_burns_the_fee() {
    let result = apply_transaction(alice(100, 4), bob(10, 9), &transfer(4, 30, 5));
    assert_eq!(result, Ok(TransactionResult::Success(alice(65, 5), bob(40, 9))));
}

#[test]
fn transfer_of_all_there_is_goes_through() {
    let result = apply_transaction(alice(35, 0), bob(0, 0), &transfer(0, 30, 5));
    assert_eq!(result, Ok(TransactionResult::Success(alice(0, 1), bob(30, 0))));
}

#[test]
fn uncovered_transfer_costs_the_fee() {
    let result = apply_transaction(alice(34, 0), bob(0, 0), &transfer(0, 30, 5));
    assert_eq!(result, Ok(TransactionResult::Failure(alice(29, 1))));
}

#[test]
fn uncovered_fee_takes_what_is_left() {
    let result = apply_transaction(alice(3, 0), bob(0, 0), &transfer(0, 30, 5));
    assert_eq!(result, Ok(TransactionResult::Failure(alice(0, 1))));
}

#[test]
fn wrong_nonce_is_refused_before_anything_else() {
    let result = apply_transaction(alice(3, 7), bob(0, 0), &transfer(6, u64::MAX, u64::MAX));
    assert_eq!(result, Err(StfError::InvalidNonce { expected: 7, got: 6 }));
}

#[test]
fn amount_and_fee_beyond_64_bits_are_refused() {
    let result = apply_transaction(alice(3, 0), bob(0, 0), &transfer(0, u64::MAX, 1));
    assert_eq!(result, Err(StfError::BalanceOverflow));
}

#[test]
fn recipient_beyond_64_bits_is_refused() {
    let result = apply_transaction(alice(10, 0), bob(u64::MAX, 0), &transfer(0, 1, 0));
    assert_eq!(result, Err(StfError::BalanceOverflow));
}

#[test]
fn last_nonce_but_one_counts_up() {
    let result = apply_transaction(alice(1, u64::MAX - 1), bob(0, 0), &transfer(u64::MAX - 1, 1, 0));
    assert_eq!(
        result,
        Ok(TransactionResult::Success(alice(0, u64::MAX), bob(1, 0)))
    );
}

#[test]
fn exhausted_nonce_refuses_other_nonces() {
    let result = apply_transaction(alice(1, u64::MAX), bob(0, 0), &transfer(0, 1, 0));
    assert_eq!(
        result,
        Err(StfError::InvalidNonce { expected: u64::MAX, got: 0 })
    );
}

#[test]
fn transfer_that_was_carried_out_is_refused_when_it_comes_again() {
    for balance in [100, 3] {
        let tx = transfer(0, 30, 5);
        let sender = match apply_transaction(alice(balance, 0), bob(0, 0), &tx) {
            Ok(TransactionResult::Success(sender, _)) => sender,
            Ok(TransactionResult::Failure(sender)) => sender,
            Err(e) => panic!("{:?}", e),
        };
        assert_eq!(
            apply_transaction(sender, bob(0, 0), &tx),
            Err(StfError::InvalidNonce { expected: 1, got: 0 })
        );
    }
}

#[test]
fn forced_transfer_does_what_a_transfer_does() {
    for (balance, nonce, amount, fee) in [
        (100, 0, 30, 5),
        (34, 0, 30, 5),
        (3, 0, 30, 5),
        (3, 1, 30, 5),
        (3, 0, u64::MAX, 1),
    ] {
        assert_eq!(
            apply_forced_tx(alice(balance, 0), bob(1, 0), &forced(nonce, amount, fee)),
            apply_transaction(alice(balance, 0), bob(1, 0), &transfer(nonce, amount, fee)),
        );
    }
    assert_eq!(
        apply_forced_tx(alice(100, 0), bob(1, 0), &forced(0, 30, 5)),
        Ok(TransactionResult::Success(alice(65, 1), bob(31, 0)))
    );
}

#[test]
fn deposit_changes_the_balance_only() {
    let deposit = Deposit { to: [0xb; 32], amount: 5, timestamp: 1 };
    assert_eq!(apply_deposit(bob(7, 3), &deposit), Ok(bob(12, 3)));
    assert_eq!(
        apply_deposit(bob(u64::MAX - 4, 3), &deposit),
        Err(StfError::BalanceOverflow)
    );
    assert_eq!(apply_deposit(bob(u64::MAX - 5, 3), &deposit), Ok(bob(u64::MAX, 3)));
}

#[test]
fn new_and_default_accounts_are_empty() {
    assert_eq!(Account::new([4; 32]), Account { id: [4; 32], balance: 0, nonce: 0 });
    assert_eq!(Account::default(), Account { id: [0; 32], balance: 0, nonce: 0 });
}
