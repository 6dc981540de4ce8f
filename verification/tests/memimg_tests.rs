use rmemimg::bank::{Amount, Bank, BankCommand, BankError, GetAccount, GetBalance};
use rmemimg::{MemImgProcessor, MemoryEventStorage};

type Storage = MemoryEventStorage<BankCommand, BankError>;
type Processor = MemImgProcessor<Bank, BankCommand, Storage>;

fn fresh_processor() -> Processor {
    MemImgProcessor::new(Bank::new(), Box::new(Storage::new())).unwrap()
}

#[test]
fn executes_and_serializes_successful_command() {
    let mut processor = fresh_processor();

    let cmd1 = BankCommand::CreateAccount {
        id: "acc1".to_string(),
        name: "Alice".to_string(),
    };
    let cmd2 = BankCommand::CreateAccount {
        id: "acc2".to_string(),
        name: "Bob".to_string(),
    };

    processor.execute_command(cmd1).unwrap();
    processor.execute_command(cmd2).unwrap();

    assert_eq!(processor.system().accounts.len(), 2);
}

#[test]
fn initializes_from_previous_commands() {
    let mut processor1 = fresh_processor();

    processor1
        .execute_command(BankCommand::CreateAccount {
            id: "acc1".to_string(),
            name: "Alice".to_string(),
        })
        .unwrap();

    processor1
        .execute_command(BankCommand::Deposit {
            account_id: "acc1".to_string(),
            amount: Amount::new(100),
        })
        .unwrap();

    // Extract storage to reuse
    let storage = std::mem::replace(&mut processor1.event_storage, Box::new(Storage::new()));

    // Create new processor with same storage
    let processor2 = MemImgProcessor::new(Bank::new(), storage).unwrap();

    assert_eq!(processor2.system().accounts.len(), 1);
    assert_eq!(
        processor2
            .system()
            .account(&"acc1".to_string())
            .unwrap()
            .balance,
        Amount::new(100)
    );
}

#[test]
fn executes_query() {
    let mut processor = fresh_processor();

    processor
        .execute_command(BankCommand::CreateAccount {
            id: "acc1".to_string(),
            name: "Alice".to_string(),
        })
        .unwrap();

    processor
        .execute_command(BankCommand::Deposit {
            account_id: "acc1".to_string(),
            amount: Amount::new(100),
        })
        .unwrap();

    let query = GetAccount {
        account_id: "acc1".to_string(),
    };
    let result = processor.execute_query(&query).unwrap();

    assert!(result.is_some());
    assert_eq!(result.unwrap().balance, Amount::new(100));
}

#[test]
fn signals_failure_on_failed_query() {
    let processor = fresh_processor();

    let query = GetBalance {
        account_id: "nonexistent".to_string(),
    };
    let result = processor.execute_query(&query);

    assert!(result.is_err());
}

#[test]
fn rolls_back_partial_updates_on_failed_command() {
    let mut processor = fresh_processor();

    processor
        .execute_command(BankCommand::CreateAccount {
            id: "acc1".to_string(),
            name: "Alice".to_string(),
        })
        .unwrap();

    processor
        .execute_command(BankCommand::Deposit {
            account_id: "acc1".to_string(),
            amount: Amount::new(100),
        })
        .unwrap();

    // Try to withdraw more than balance - should fail
    let result = processor.execute_command(BankCommand::Withdrawal {
        account_id: "acc1".to_string(),
        amount: Amount::new(200),
    });

    assert!(result.is_err());
    // Balance should remain 100
    assert_eq!(
        processor
            .system()
            .account(&"acc1".to_string())
            .unwrap()
            .balance,
        Amount::new(100)
    );
}

#[test]
fn transfer_rolls_back_on_insufficient_funds() {
    let mut processor = fresh_processor();

    processor
        .execute_command(BankCommand::CreateAccount {
            id: "acc1".to_string(),
            name: "Alice".to_string(),
        })
        .unwrap();

    processor
        .execute_command(BankCommand::CreateAccount {
            id: "acc2".to_string(),
            name: "Bob".to_string(),
        })
        .unwrap();

    processor
        .execute_command(BankCommand::Deposit {
            account_id: "acc1".to_string(),
            amount: Amount::new(50),
        })
        .unwrap();

    // Try transfer more than available - should fail and rollback
    let result = processor.execute_command(BankCommand::Transfer {
        from_account_id: "acc1".to_string(),
        to_account_id: "acc2".to_string(),
        amount: Amount::new(100),
    });

    assert!(result.is_err());
    // Both balances should remain as before
    assert_eq!(
        processor
            .system()
            .account(&"acc1".to_string())
            .unwrap()
            .balance,
        Amount::new(50)
    );
    assert_eq!(
        processor
            .system()
            .account(&"acc2".to_string())
            .unwrap()
            .balance,
        Amount::zero()
    );
}

#[test]
fn successful_transfer() {
    let mut processor = fresh_processor();

    processor
        .execute_command(BankCommand::CreateAccount {
            id: "acc1".to_string(),
            name: "Alice".to_string(),
        })
        .unwrap();

    processor
        .execute_command(BankCommand::CreateAccount {
            id: "acc2".to_string(),
            name: "Bob".to_string(),
        })
        .unwrap();

    processor
        .execute_command(BankCommand::Deposit {
            account_id: "acc1".to_string(),
            amount: Amount::new(100),
        })
        .unwrap();

    processor
        .execute_command(BankCommand::Transfer {
            from_account_id: "acc1".to_string(),
            to_account_id: "acc2".to_string(),
            amount: Amount::new(30),
        })
        .unwrap();

    assert_eq!(
        processor
            .system()
            .account(&"acc1".to_string())
            .unwrap()
            .balance,
        Amount::new(70)
    );
    assert_eq!(
        processor
            .system()
            .account(&"acc2".to_string())
            .unwrap()
            .balance,
        Amount::new(30)
    );
}

#[test]
fn failed_command_leaves_log_unchanged() {
    let mut processor = fresh_processor();

    processor
        .execute_command(BankCommand::CreateAccount {
            id: "acc1".to_string(),
            name: "Alice".to_string(),
        })
        .unwrap();
    assert_eq!(processor.event_storage.events.len(), 1);

    let before = processor.system().clone();
    let result = processor.execute_command(BankCommand::Deposit {
        account_id: "ghost".to_string(),
        amount: Amount::new(5),
    });

    assert!(result.is_err());
    assert_eq!(processor.event_storage.events.len(), 1);
    assert_eq!(*processor.system(), before);
}

#[test]
fn log_holds_one_entry_per_successful_command_in_order() {
    let mut processor = fresh_processor();

    let commands = vec![
        BankCommand::CreateAccount {
            id: "acc1".to_string(),
            name: "Alice".to_string(),
        },
        BankCommand::Deposit {
            account_id: "acc1".to_string(),
            amount: Amount::new(10),
        },
        BankCommand::Withdrawal {
            account_id: "acc1".to_string(),
            amount: Amount::new(4),
        },
    ];
    for c in &commands {
        processor.execute_command(c.clone()).unwrap();
    }

    assert_eq!(processor.event_storage.events, commands);
}

#[test]
fn repeated_query_returns_equal_results() {
    let mut processor = fresh_processor();

    processor
        .execute_command(BankCommand::CreateAccount {
            id: "acc1".to_string(),
            name: "Alice".to_string(),
        })
        .unwrap();
    processor
        .execute_command(BankCommand::Deposit {
            account_id: "acc1".to_string(),
            amount: Amount::new(42),
        })
        .unwrap();

    let query = GetBalance {
        account_id: "acc1".to_string(),
    };
    let first = processor.execute_query(&query).unwrap();
    let second = processor.execute_query(&query).unwrap();
    assert_eq!(first, second);
    assert_eq!(first, Amount::new(42));
}

#[test]
fn deposit_to_nonexistent_account_is_command_failure() {
    let mut processor = fresh_processor();

    let result = processor.execute_command(BankCommand::Deposit {
        account_id: "nobody".to_string(),
        amount: Amount::new(1),
    });

    match result {
        Err(rmemimg::MemImgError::CommandFailure(outcome)) => {
            assert_eq!(
                outcome.source,
                BankError::AccountNotFound {
                    account_id: "nobody".to_string()
                }
            );
            assert_eq!(outcome.describe(), "Error while executing command command");
        }
        other => panic!("expected a command failure, got {:?}", other),
    }
    assert_eq!(processor.system().accounts.len(), 0);
    assert_eq!(processor.event_storage.events.len(), 0);
}

#[test]
fn withdrawal_rejects_insufficient_funds_with_balances() {
    let mut processor = fresh_processor();

    processor
        .execute_command(BankCommand::CreateAccount {
            id: "acc1".to_string(),
            name: "Alice".to_string(),
        })
        .unwrap();

    let result = processor.execute_command(BankCommand::Withdrawal {
        account_id: "acc1".to_string(),
        amount: Amount::new(7),
    });

    match result {
        Err(rmemimg::MemImgError::CommandFailure(outcome)) => {
            assert_eq!(
                outcome.source,
                BankError::InsufficientFunds {
                    balance: Amount::zero(),
                    requested: Amount::new(7),
                }
            );
        }
        other => panic!("expected a command failure, got {:?}", other),
    }
}

#[test]
fn deposit_overflow_is_rejected_and_rolled_back() {
    let mut processor = fresh_processor();

    processor
        .execute_command(BankCommand::CreateAccount {
            id: "acc1".to_string(),
            name: "Alice".to_string(),
        })
        .unwrap();
    processor
        .execute_command(BankCommand::Deposit {
            account_id: "acc1".to_string(),
            amount: Amount::new(i64::MAX),
        })
        .unwrap();

    let result = processor.execute_command(BankCommand::Deposit {
        account_id: "acc1".to_string(),
        amount: Amount::new(1),
    });

    match result {
        Err(rmemimg::MemImgError::CommandFailure(outcome)) => {
            assert_eq!(
                outcome.source,
                BankError::BalanceOverflow {
                    account_id: "acc1".to_string()
                }
            );
        }
        other => panic!("expected a command failure, got {:?}", other),
    }
    assert_eq!(
        processor
            .system()
            .account(&"acc1".to_string())
            .unwrap()
            .balance,
        Amount::new(i64::MAX)
    );
}

#[test]
fn creating_an_existing_account_replaces_it() {
    let mut processor = fresh_processor();

    processor
        .execute_command(BankCommand::CreateAccount {
            id: "acc1".to_string(),
            name: "Alice".to_string(),
        })
        .unwrap();
    processor
        .execute_command(BankCommand::Deposit {
            account_id: "acc1".to_string(),
            amount: Amount::new(25),
        })
        .unwrap();
    processor
        .execute_command(BankCommand::CreateAccount {
            id: "acc1".to_string(),
            name: "Alicia".to_string(),
        })
        .unwrap();

    assert_eq!(processor.system().accounts.len(), 1);
    let account = processor
        .system()
        .account(&"acc1".to_string())
        .unwrap()
        .clone();
    assert_eq!(account.name, "Alicia");
    assert_eq!(account.balance, Amount::zero());
}
