use rmemimg::bank::{Amount, Bank, BankCommand, BankError, GetBalance};
use rmemimg::bank_storage::BankJsonConverter;
use rmemimg::{MemImgProcessor, MemoryEventStorage, TextConverter};

type Storage = MemoryEventStorage<BankCommand, BankError>;

fn round_trips(command: BankCommand) {
    let converter = BankJsonConverter;
    let line = converter.format(&command).unwrap();
    assert!(!line.contains('\n'));
    let decoded = converter.parse(line.as_str()).unwrap();
    assert_eq!(decoded, command);
}

#[test]
fn codec_round_trips_every_command_kind() {
    round_trips(BankCommand::CreateAccount {
        id: "alice".to_string(),
        name: "Alice Smith".to_string(),
    });
    round_trips(BankCommand::Deposit {
        account_id: "alice".to_string(),
        amount: Amount::new(1000),
    });
    round_trips(BankCommand::Withdrawal {
        account_id: "alice".to_string(),
        amount: Amount::new(0),
    });
    round_trips(BankCommand::Transfer {
        from_account_id: "alice".to_string(),
        to_account_id: "bob".to_string(),
        amount: Amount::new(300),
    });
    round_trips(BankCommand::Deposit {
        account_id: "a".to_string(),
        amount: Amount::new(-250),
    });
    round_trips(BankCommand::Deposit {
        account_id: "a".to_string(),
        amount: Amount::new(i64::MAX),
    });
    round_trips(BankCommand::Deposit {
        account_id: "a".to_string(),
        amount: Amount::new(i64::MIN),
    });
    round_trips(BankCommand::CreateAccount {
        id: "".to_string(),
        name: "".to_string(),
    });
}

#[test]
fn codec_emits_the_expected_lines() {
    let converter = BankJsonConverter;
    assert_eq!(
        converter
            .format(&BankCommand::Deposit {
                account_id: "acc1".to_string(),
                amount: Amount::new(100),
            })
            .unwrap(),
        "{\"Deposit\":{\"account_id\":\"acc1\",\"amount\":\"100\"}}"
    );
    assert_eq!(
        converter
            .format(&BankCommand::CreateAccount {
                id: "alice".to_string(),
                name: "Alice".to_string(),
            })
            .unwrap(),
        "{\"CreateAccount\":{\"id\":\"alice\",\"name\":\"Alice\"}}"
    );
    assert_eq!(
        converter
            .format(&BankCommand::Transfer {
                from_account_id: "alice".to_string(),
                to_account_id: "bob".to_string(),
                amount: Amount::new(-42),
            })
            .unwrap(),
        "{\"Transfer\":{\"from_account_id\":\"alice\",\"to_account_id\":\"bob\",\"amount\":\"-42\"}}"
    );
}

#[test]
fn codec_rejects_text_that_cannot_sit_on_one_line() {
    let converter = BankJsonConverter;
    let result = converter.format(&BankCommand::CreateAccount {
        id: "a\"b".to_string(),
        name: "Alice".to_string(),
    });
    assert_eq!(result, Err(BankError::UnencodableText));

    let result = converter.format(&BankCommand::CreateAccount {
        id: "ok".to_string(),
        name: "line\nbreak".to_string(),
    });
    assert_eq!(result, Err(BankError::UnencodableText));
}

#[test]
fn codec_rejects_malformed_lines() {
    let converter = BankJsonConverter;
    let bad = [
        "",
        "not json at all",
        "{\"Deposit\":{\"account_id\":\"acc1\"}}",
        "{\"Deposit\":{\"account_id\":\"acc1\",\"amount\":\"1x\"}}",
        "{\"Deposit\":{\"account_id\":\"acc1\",\"amount\":\"007\"}}",
        "{\"Deposit\":{\"account_id\":\"acc1\",\"amount\":\"-0\"}}",
        "{\"Deposit\":{\"account_id\":\"acc1\",\"amount\":\"9223372036854775808\"}}",
        "{\"Deposit\":{\"account_id\":\"acc1\",\"amount\":\"100\"}} trailing",
    ];
    for line in bad {
        assert_eq!(
            converter.parse(line),
            Err(BankError::MalformedEntry),
            "line accepted: {line}"
        );
    }
}

#[test]
fn codec_parses_extreme_amounts() {
    let converter = BankJsonConverter;
    let decoded = converter
        .parse("{\"Withdrawal\":{\"account_id\":\"a\",\"amount\":\"-9223372036854775808\"}}")
        .unwrap();
    assert_eq!(
        decoded,
        BankCommand::Withdrawal {
            account_id: "a".to_string(),
            amount: Amount::new(i64::MIN),
        }
    );
}

#[test]
fn bank_scenario_reaches_and_replays_the_expected_balances() {
    let mut processor = MemImgProcessor::new(Bank::new(), Box::new(Storage::new())).unwrap();
    processor
        .execute_command(BankCommand::CreateAccount {
            id: "alice".to_string(),
            name: "Alice".to_string(),
        })
        .unwrap();
    processor
        .execute_command(BankCommand::CreateAccount {
            id: "bob".to_string(),
            name: "Bob".to_string(),
        })
        .unwrap();
    processor
        .execute_command(BankCommand::Deposit {
            account_id: "alice".to_string(),
            amount: Amount::new(1000),
        })
        .unwrap();
    processor
        .execute_command(BankCommand::Transfer {
            from_account_id: "alice".to_string(),
            to_account_id: "bob".to_string(),
            amount: Amount::new(300),
        })
        .unwrap();

    let alice = GetBalance {
        account_id: "alice".to_string(),
    };
    let bob = GetBalance {
        account_id: "bob".to_string(),
    };
    assert_eq!(processor.execute_query(&alice).unwrap(), Amount::new(700));
    assert_eq!(processor.execute_query(&bob).unwrap(), Amount::new(300));

    // A fresh engine built from the log the first one wrote reproduces
    // these exact balances.
    let log = std::mem::replace(&mut processor.event_storage, Box::new(Storage::new()));
    let replayed = MemImgProcessor::new(Bank::new(), log).unwrap();
    assert_eq!(replayed.execute_query(&alice).unwrap(), Amount::new(700));
    assert_eq!(replayed.execute_query(&bob).unwrap(), Amount::new(300));
    assert_eq!(*replayed.system(), *processor.system());
}

#[test]
fn replaying_an_encoded_log_reproduces_the_state() {
    // Commands that travelled through the codec replay to the same state.
    let converter = BankJsonConverter;
    let commands = vec![
        BankCommand::CreateAccount {
            id: "alice".to_string(),
            name: "Alice".to_string(),
        },
        BankCommand::Deposit {
            account_id: "alice".to_string(),
            amount: Amount::new(250),
        },
    ];

    let mut direct = MemImgProcessor::new(Bank::new(), Box::new(Storage::new())).unwrap();
    let mut lines = Vec::new();
    for c in &commands {
        direct.execute_command(c.clone()).unwrap();
        lines.push(converter.format(c).unwrap());
    }

    let mut storage = Storage::new();
    for line in &lines {
        storage.events.push(converter.parse(line.as_str()).unwrap());
    }
    let replayed = MemImgProcessor::new(Bank::new(), Box::new(storage)).unwrap();
    assert_eq!(*replayed.system(), *direct.system());
}

struct VecSink {
    lines: Vec<String>,
}

impl rmemimg::LineSink for VecSink {
    type Failure = BankError;

    fn append_line(&mut self, line: &str) -> Result<(), BankError> {
        self.lines.push(line.to_string());
        Ok(())
    }
}

#[test]
fn text_storage_round_trips_through_lines() {
    let converter = BankJsonConverter;
    let initial = vec![
        "{\"CreateAccount\":{\"id\":\"acc1\",\"name\":\"Alice\"}}".to_string(),
        "   ".to_string(),
        "{\"Deposit\":{\"account_id\":\"acc1\",\"amount\":\"250\"}}".to_string(),
    ];

    let storage =
        rmemimg::TextEventStorage::new(&initial, converter, VecSink { lines: Vec::new() })
            .unwrap();
    let mut processor = MemImgProcessor::new(Bank::new(), Box::new(storage)).unwrap();
    assert_eq!(
        processor
            .execute_query(&GetBalance {
                account_id: "acc1".to_string()
            })
            .unwrap(),
        Amount::new(250)
    );

    processor
        .execute_command(BankCommand::Withdrawal {
            account_id: "acc1".to_string(),
            amount: Amount::new(50),
        })
        .unwrap();
    assert_eq!(
        processor.event_storage.sink.lines,
        vec!["{\"Withdrawal\":{\"account_id\":\"acc1\",\"amount\":\"50\"}}".to_string()]
    );

    // A fresh storage built from all the lines replays to the same state.
    let mut all_lines = initial.clone();
    all_lines.extend(processor.event_storage.sink.lines.clone());
    let storage2 = rmemimg::TextEventStorage::new(
        &all_lines,
        BankJsonConverter,
        VecSink { lines: Vec::new() },
    )
    .unwrap();
    let replayed = MemImgProcessor::new(Bank::new(), Box::new(storage2)).unwrap();
    assert_eq!(*replayed.system(), *processor.system());
}

#[test]
fn text_storage_rejects_a_corrupt_line() {
    let lines = vec![
        "{\"CreateAccount\":{\"id\":\"acc1\",\"name\":\"Alice\"}}".to_string(),
        "{\"Deposit\":{\"account_id\":".to_string(),
    ];
    let result =
        rmemimg::TextEventStorage::new(&lines, BankJsonConverter, VecSink { lines: Vec::new() });
    assert!(matches!(result, Err(BankError::MalformedEntry)));
}

#[test]
fn unencodable_command_is_rejected_before_reaching_the_sink() {
    let storage = rmemimg::TextEventStorage::new(
        &Vec::new(),
        BankJsonConverter,
        VecSink { lines: Vec::new() },
    )
    .unwrap();
    let mut processor = MemImgProcessor::new(Bank::new(), Box::new(storage)).unwrap();

    let result = processor.execute_command(BankCommand::CreateAccount {
        id: "a\"b".to_string(),
        name: "Alice".to_string(),
    });

    match result {
        Err(rmemimg::MemImgError::SystemFailure(outcome)) => {
            assert_eq!(outcome.source, BankError::UnencodableText);
        }
        other => panic!("expected a system failure, got {:?}", other),
    }
    assert_eq!(processor.system().accounts.len(), 0);
    assert_eq!(processor.event_storage.events.len(), 0);
    assert!(processor.event_storage.sink.lines.is_empty());
}
