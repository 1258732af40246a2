use token_ledger::host::{get_balance, init_token, transfer};
use token_ledger::ledger::{Token, TransferError};

fn fresh(owner: &str, supply: u64) -> Option<Token> {
    let mut state: Option<Token> = None;
    init_token(
        &mut state,
        owner.to_string(),
        supply,
        "TKN".to_string(),
        "Token".to_string(),
        2,
    );
    state
}

#[test]
fn scenario_initialize_and_transfer() {
    let mut state = fresh("A", 1000);
    let a = "A".to_string();
    let b = "B".to_string();

    assert_eq!(get_balance(&state, &a), 1000);
    assert_eq!(get_balance(&state, &b), 0);

    assert_eq!(transfer(&mut state, &a, &b, 300), Ok(()));
    assert_eq!(get_balance(&state, &a), 700);
    assert_eq!(get_balance(&state, &b), 300);

    assert_eq!(
        transfer(&mut state, &a, &b, 800),
        Err(TransferError::InsufficientBalance)
    );
    assert_eq!(get_balance(&state, &a), 700);
    assert_eq!(get_balance(&state, &b), 300);

    assert_eq!(transfer(&mut state, &b, &a, 300), Ok(()));
    assert_eq!(get_balance(&state, &a), 1000);
    assert_eq!(get_balance(&state, &b), 0);
}

#[test]
fn zero_transfer_changes_no_balance() {
    let mut state = fresh("A", 500);
    let a = "A".to_string();
    let b = "B".to_string();

    assert_eq!(transfer(&mut state, &a, &b, 0), Ok(()));
    assert_eq!(get_balance(&state, &a), 500);
    assert_eq!(get_balance(&state, &b), 0);
}

#[test]
fn zero_transfer_materializes_recipient_record() {
    let mut state = fresh("A", 500);
    let a = "A".to_string();
    let b = "B".to_string();

    // Before any credit, `b` is unknown as a sender.
    assert_eq!(
        transfer(&mut state, &b, &a, 0),
        Err(TransferError::SenderNotFound)
    );
    // A zero-amount transfer creates `b`'s record at balance 0 ...
    assert_eq!(transfer(&mut state, &a, &b, 0), Ok(()));
    // ... after which `b` can send what it holds: nothing.
    assert_eq!(transfer(&mut state, &b, &a, 0), Ok(()));
    assert_eq!(
        transfer(&mut state, &b, &a, 1),
        Err(TransferError::InsufficientBalance)
    );
}

#[test]
fn self_transfer_is_a_no_op() {
    let mut state = fresh("A", 400);
    let a = "A".to_string();

    assert_eq!(transfer(&mut state, &a, &a, 150), Ok(()));
    assert_eq!(get_balance(&state, &a), 400);

    assert_eq!(transfer(&mut state, &a, &a, 400), Ok(()));
    assert_eq!(get_balance(&state, &a), 400);

    assert_eq!(
        transfer(&mut state, &a, &a, 401),
        Err(TransferError::InsufficientBalance)
    );
    assert_eq!(get_balance(&state, &a), 400);
}

#[test]
fn unknown_sender_is_rejected() {
    let mut state = fresh("A", 1000);
    let unknown = "nobody".to_string();
    let b = "B".to_string();

    assert_eq!(
        transfer(&mut state, &unknown, &b, 1),
        Err(TransferError::SenderNotFound)
    );
    assert_eq!(get_balance(&state, &"A".to_string()), 1000);
    assert_eq!(get_balance(&state, &b), 0);
    assert_eq!(get_balance(&state, &unknown), 0);
}

#[test]
fn uninitialized_state_answers_zero_and_refuses_transfers() {
    let mut state: Option<Token> = None;
    let a = "A".to_string();
    let b = "B".to_string();

    assert_eq!(get_balance(&state, &a), 0);
    assert_eq!(
        transfer(&mut state, &a, &b, 1),
        Err(TransferError::NotInitialized)
    );
    assert_eq!(
        transfer(&mut state, &a, &b, 0),
        Err(TransferError::NotInitialized)
    );
    assert_eq!(get_balance(&state, &a), 0);
}

#[test]
fn reinitialization_discards_prior_state() {
    let mut state = fresh("A", 1000);
    let a = "A".to_string();
    let b = "B".to_string();

    assert_eq!(transfer(&mut state, &a, &b, 250), Ok(()));
    assert_eq!(get_balance(&state, &b), 250);

    init_token(
        &mut state,
        "C".to_string(),
        42,
        "NEW".to_string(),
        "New token".to_string(),
        0,
    );
    assert_eq!(get_balance(&state, &"C".to_string()), 42);
    assert_eq!(get_balance(&state, &a), 0);
    assert_eq!(get_balance(&state, &b), 0);
    assert_eq!(
        transfer(&mut state, &b, &a, 1),
        Err(TransferError::SenderNotFound)
    );
}

#[test]
fn transfer_of_exact_balance_succeeds() {
    let mut state = fresh("A", 1000);
    let a = "A".to_string();
    let b = "B".to_string();

    assert_eq!(transfer(&mut state, &a, &b, 1000), Ok(()));
    assert_eq!(get_balance(&state, &a), 0);
    assert_eq!(get_balance(&state, &b), 1000);

    // The emptied sender still has a record and may send nothing.
    assert_eq!(transfer(&mut state, &a, &b, 0), Ok(()));
    assert_eq!(
        transfer(&mut state, &a, &b, 1),
        Err(TransferError::InsufficientBalance)
    );
}

#[test]
fn zero_supply_ledger() {
    let mut state = fresh("A", 0);
    let a = "A".to_string();
    let b = "B".to_string();

    assert_eq!(get_balance(&state, &a), 0);
    assert_eq!(transfer(&mut state, &a, &b, 0), Ok(()));
    assert_eq!(
        transfer(&mut state, &a, &b, 1),
        Err(TransferError::InsufficientBalance)
    );
}

#[test]
fn token_new_credits_owner_with_full_supply() {
    let token = Token::new(
        "TKN".to_string(),
        "Token".to_string(),
        8,
        123_456,
        "owner".to_string(),
    );
    assert_eq!(token.balance_of(&"owner".to_string()), 123_456);
    assert_eq!(token.balance_of(&"someone else".to_string()), 0);
    assert_eq!(token.total_supply, 123_456);
    assert_eq!(token.symbol, "TKN");
    assert_eq!(token.name, "Token");
    assert_eq!(token.decimals, 8);
    assert_eq!(token.owner, "owner");
}

#[test]
fn token_transfer_moves_funds_between_accounts() {
    let mut token = Token::new(
        "TKN".to_string(),
        "Token".to_string(),
        2,
        60,
        "x".to_string(),
    );
    let x = "x".to_string();
    let y = "y".to_string();
    let z = "z".to_string();

    assert_eq!(token.transfer(&x, &y, 25), Ok(()));
    assert_eq!(token.transfer(&y, &z, 10), Ok(()));
    assert_eq!(token.balance_of(&x), 35);
    assert_eq!(token.balance_of(&y), 15);
    assert_eq!(token.balance_of(&z), 10);
    // Conservation, observed on concrete values.
    assert_eq!(
        token.balance_of(&x) + token.balance_of(&y) + token.balance_of(&z),
        token.total_supply
    );

    assert_eq!(
        token.transfer(&z, &x, 11),
        Err(TransferError::InsufficientBalance)
    );
    assert_eq!(
        token.transfer(&"w".to_string(), &x, 1),
        Err(TransferError::SenderNotFound)
    );
    assert_eq!(token.balance_of(&z), 10);
}

#[test]
fn error_messages() {
    assert_eq!(
        TransferError::NotInitialized.message(),
        "Token contract not initialized"
    );
    assert_eq!(
        TransferError::SenderNotFound.message(),
        "Sender account not found"
    );
    assert_eq!(
        TransferError::InsufficientBalance.message(),
        "Insufficient balance"
    );
}
