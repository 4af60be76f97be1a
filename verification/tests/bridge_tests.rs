use solana_bridge::addr::Address;
use solana_bridge::bridge::BridgeState;
use solana_bridge::bridge::Initialize;
use solana_bridge::errors::BridgeError;
use solana_bridge::events::BridgeEvent;
use solana_bridge::ledger::TokenLedger;

fn addr(n: u8) -> Address {
    Address::new([n; 32])
}

/// A ledger holding one token (mint 10, authority 11) where user 20 holds
/// `balance`.
fn ledger_with_balance(balance: u64) -> TokenLedger {
    let mut ledger = TokenLedger::new();
    assert!(ledger.create_token(addr(10), addr(11)).is_ok());
    if balance > 0 {
        assert!(ledger.mint_to(&addr(11), &addr(10), &addr(20), balance).is_ok());
    }
    ledger
}

/// A fully set-up bridge: owner 1, relayer 2, derived authority 3; token
/// mint 10 whose authority has been transferred to the bridge; foreign
/// address 40 registered for it; user 20 holding `balance`.
fn bridged(balance: u64) -> BridgeState {
    let mut b = BridgeState::new(ledger_with_balance(balance));
    let init = Initialize { owner: addr(1), relayer: addr(2), authority: addr(3), bump: 255 };
    assert!(b.initialize(init).is_ok());
    assert!(b.take_token_mint_authority(&addr(11), &addr(10)).is_ok());
    assert!(b.register_foreign_token(&addr(1), addr(40), addr(10)).is_ok());
    b
}

#[test]
fn initialize_sets_config() {
    let mut b = BridgeState::new(TokenLedger::new());
    assert!(!b.is_initialized());
    let init = Initialize { owner: addr(1), relayer: addr(2), authority: addr(3), bump: 254 };
    assert_eq!(b.initialize(init), Ok(()));
    assert!(b.is_initialized());
    let cfg = b.config.unwrap();
    assert_eq!(cfg.owner, addr(1));
    assert_eq!(cfg.relayer, addr(2));
    assert_eq!(cfg.authority, addr(3));
    assert_eq!(cfg.bump, 254);
}

#[test]
fn second_initialize_fails() {
    let mut b = BridgeState::new(TokenLedger::new());
    let init = Initialize { owner: addr(1), relayer: addr(2), authority: addr(3), bump: 254 };
    assert_eq!(b.initialize(init), Ok(()));
    let again = Initialize { owner: addr(7), relayer: addr(8), authority: addr(9), bump: 1 };
    assert_eq!(b.initialize(again), Err(BridgeError::AlreadyInitialized));
    // The first configuration is untouched.
    let cfg = b.config.unwrap();
    assert_eq!(cfg.owner, addr(1));
    assert_eq!(cfg.relayer, addr(2));
}

#[test]
fn take_authority_moves_it_to_the_bridge() {
    let mut b = BridgeState::new(ledger_with_balance(0));
    let init = Initialize { owner: addr(1), relayer: addr(2), authority: addr(3), bump: 255 };
    assert!(b.initialize(init).is_ok());
    assert_eq!(b.ledger.authority_of(&addr(10)), Some(addr(11)));
    assert_eq!(b.take_token_mint_authority(&addr(11), &addr(10)), Ok(()));
    assert_eq!(b.ledger.authority_of(&addr(10)), Some(addr(3)));
}

#[test]
fn take_authority_succeeds_at_most_once() {
    let mut b = BridgeState::new(ledger_with_balance(0));
    let init = Initialize { owner: addr(1), relayer: addr(2), authority: addr(3), bump: 255 };
    assert!(b.initialize(init).is_ok());
    assert_eq!(b.take_token_mint_authority(&addr(11), &addr(10)), Ok(()));
    // The original, now divested, authority can no longer transfer it.
    assert_eq!(
        b.take_token_mint_authority(&addr(11), &addr(10)),
        Err(BridgeError::Unauthorized)
    );
    assert_eq!(b.ledger.authority_of(&addr(10)), Some(addr(3)));
}

#[test]
fn take_authority_unknown_token_fails() {
    let mut b = BridgeState::new(TokenLedger::new());
    let init = Initialize { owner: addr(1), relayer: addr(2), authority: addr(3), bump: 255 };
    assert!(b.initialize(init).is_ok());
    assert_eq!(
        b.take_token_mint_authority(&addr(11), &addr(10)),
        Err(BridgeError::InvalidMint)
    );
}

#[test]
fn register_foreign_token_owner_only() {
    let mut b = BridgeState::new(ledger_with_balance(0));
    let init = Initialize { owner: addr(1), relayer: addr(2), authority: addr(3), bump: 255 };
    assert!(b.initialize(init).is_ok());
    // The relayer is not the owner.
    assert_eq!(
        b.register_foreign_token(&addr(2), addr(40), addr(10)),
        Err(BridgeError::Unauthorized)
    );
    assert_eq!(b.registered_mint(&addr(40)), None);
    assert_eq!(b.register_foreign_token(&addr(1), addr(40), addr(10)), Ok(()));
    assert_eq!(b.registered_mint(&addr(40)), Some(addr(10)));
}

#[test]
fn register_foreign_token_at_most_once_per_address() {
    let mut b = BridgeState::new(ledger_with_balance(0));
    let init = Initialize { owner: addr(1), relayer: addr(2), authority: addr(3), bump: 255 };
    assert!(b.initialize(init).is_ok());
    assert_eq!(b.register_foreign_token(&addr(1), addr(40), addr(10)), Ok(()));
    // Same foreign address again, even for another mint, is refused.
    assert_eq!(
        b.register_foreign_token(&addr(1), addr(40), addr(12)),
        Err(BridgeError::DuplicateRegistration)
    );
    // The first mapping is untouched.
    assert_eq!(b.registered_mint(&addr(40)), Some(addr(10)));
    // A different foreign address is fine.
    assert_eq!(b.register_foreign_token(&addr(1), addr(41), addr(10)), Ok(()));
    assert_eq!(b.registered_mint(&addr(41)), Some(addr(10)));
}

#[test]
fn lookup_on_empty_registry_finds_nothing() {
    let b = BridgeState::new(TokenLedger::new());
    assert_eq!(b.registered_mint(&addr(40)), None);
}

#[test]
fn burn_reduces_balance_and_supply_and_emits_one_event() {
    let mut b = bridged(100);
    assert_eq!(b.burn_and_bridge(&addr(20), &addr(10), 30), Ok(()));
    assert_eq!(b.ledger.balance_of(&addr(20), &addr(10)), 70);
    assert_eq!(b.ledger.supply_of(&addr(10)), Some(70));
    assert_eq!(b.events.len(), 1);
    assert_eq!(b.events[0], BridgeEvent::Burn { account: addr(20), amount: 30 });
}

#[test]
fn burn_beyond_balance_fails_and_changes_nothing() {
    // Scenario: a user holding 50 burns 100.
    let mut b = bridged(50);
    assert_eq!(
        b.burn_and_bridge(&addr(20), &addr(10), 100),
        Err(BridgeError::InsufficientFunds)
    );
    assert_eq!(b.ledger.balance_of(&addr(20), &addr(10)), 50);
    assert_eq!(b.ledger.supply_of(&addr(10)), Some(50));
    assert_eq!(b.events.len(), 0);
}

#[test]
fn burn_with_no_balance_record_fails() {
    let mut b = bridged(0);
    assert_eq!(
        b.burn_and_bridge(&addr(21), &addr(10), 1),
        Err(BridgeError::InsufficientFunds)
    );
    assert_eq!(b.events.len(), 0);
}

#[test]
fn mint_and_bridge_full_flow() {
    // Scenario: initialize, transfer authority, register, then the
    // relayer mints 500 to the destination.
    let mut b = bridged(0);
    assert_eq!(b.mint_and_bridge(&addr(2), addr(40), &addr(10), &addr(30), 500), Ok(()));
    assert_eq!(b.ledger.balance_of(&addr(30), &addr(10)), 500);
    assert_eq!(b.ledger.supply_of(&addr(10)), Some(500));
    assert_eq!(b.events.len(), 1);
    assert_eq!(
        b.events[0],
        BridgeEvent::Mint { account: addr(30), amount: 500, foreign_address: addr(40) }
    );
}

#[test]
fn mint_and_bridge_by_non_relayer_fails() {
    // Scenario: same setup, but an identity other than the relayer calls.
    let mut b = bridged(0);
    assert_eq!(
        b.mint_and_bridge(&addr(1), addr(40), &addr(10), &addr(30), 500),
        Err(BridgeError::Unauthorized)
    );
    assert_eq!(b.ledger.balance_of(&addr(30), &addr(10)), 0);
    assert_eq!(b.events.len(), 0);
}

#[test]
fn mint_and_bridge_unregistered_address_fails() {
    let mut b = bridged(0);
    assert_eq!(
        b.mint_and_bridge(&addr(2), addr(41), &addr(10), &addr(30), 500),
        Err(BridgeError::UnregisteredToken)
    );
    assert_eq!(b.events.len(), 0);
}

#[test]
fn mint_and_bridge_wrong_mint_for_address_fails() {
    let mut b = bridged(0);
    // Foreign address 40 is registered, but for mint 10, not mint 12.
    assert_eq!(
        b.mint_and_bridge(&addr(2), addr(40), &addr(12), &addr(30), 500),
        Err(BridgeError::UnregisteredToken)
    );
    assert_eq!(b.events.len(), 0);
}

#[test]
fn mint_and_bridge_without_authority_transfer_fails() {
    // Registered, relayer calls, but the token's mint authority was never
    // transferred to the bridge: the ledger refuses the mint.
    let mut b = BridgeState::new(ledger_with_balance(0));
    let init = Initialize { owner: addr(1), relayer: addr(2), authority: addr(3), bump: 255 };
    assert!(b.initialize(init).is_ok());
    assert_eq!(b.register_foreign_token(&addr(1), addr(40), addr(10)), Ok(()));
    assert_eq!(
        b.mint_and_bridge(&addr(2), addr(40), &addr(10), &addr(30), 500),
        Err(BridgeError::Unauthorized)
    );
    assert_eq!(b.ledger.balance_of(&addr(30), &addr(10)), 0);
    assert_eq!(b.events.len(), 0);
}

#[test]
fn round_trip_mint_then_burn() {
    let mut b = bridged(0);
    assert_eq!(b.mint_and_bridge(&addr(2), addr(40), &addr(10), &addr(30), 500), Ok(()));
    assert_eq!(b.burn_and_bridge(&addr(30), &addr(10), 500), Ok(()));
    assert_eq!(b.ledger.balance_of(&addr(30), &addr(10)), 0);
    assert_eq!(b.ledger.supply_of(&addr(10)), Some(0));
    assert_eq!(b.events.len(), 2);
    assert_eq!(
        b.events[0],
        BridgeEvent::Mint { account: addr(30), amount: 500, foreign_address: addr(40) }
    );
    assert_eq!(b.events[1], BridgeEvent::Burn { account: addr(30), amount: 500 });
}

#[test]
fn largest_amount_round_trip() {
    let mut b = bridged(0);
    assert_eq!(
        b.mint_and_bridge(&addr(2), addr(40), &addr(10), &addr(30), u64::MAX),
        Ok(())
    );
    assert_eq!(b.ledger.balance_of(&addr(30), &addr(10)), u64::MAX);
    assert_eq!(b.ledger.supply_of(&addr(10)), Some(u64::MAX));
    assert_eq!(b.burn_and_bridge(&addr(30), &addr(10), u64::MAX), Ok(()));
    assert_eq!(b.ledger.supply_of(&addr(10)), Some(0));
}

#[test]
fn create_token_duplicate_mint_fails() {
    let mut ledger = TokenLedger::new();
    assert_eq!(ledger.create_token(addr(10), addr(11)), Ok(()));
    assert_eq!(ledger.create_token(addr(10), addr(12)), Err(BridgeError::InvalidMint));
    // The first token is untouched.
    assert_eq!(ledger.authority_of(&addr(10)), Some(addr(11)));
}

#[test]
fn ledger_mint_by_non_authority_fails() {
    let mut ledger = ledger_with_balance(0);
    assert_eq!(
        ledger.mint_to(&addr(12), &addr(10), &addr(20), 5),
        Err(BridgeError::Unauthorized)
    );
    assert_eq!(ledger.supply_of(&addr(10)), Some(0));
}

#[test]
fn supply_always_equals_sum_of_balances() {
    let mut ledger = TokenLedger::new();
    assert!(ledger.create_token(addr(10), addr(11)).is_ok());
    assert!(ledger.mint_to(&addr(11), &addr(10), &addr(20), 300).is_ok());
    assert!(ledger.mint_to(&addr(11), &addr(10), &addr(21), 200).is_ok());
    assert!(ledger.burn(&addr(20), &addr(10), 50).is_ok());
    let total = ledger.balance_of(&addr(20), &addr(10)) + ledger.balance_of(&addr(21), &addr(10));
    assert_eq!(ledger.supply_of(&addr(10)), Some(total));
    assert_eq!(total, 450);
}

#[test]
fn two_tokens_do_not_interfere() {
    let mut ledger = TokenLedger::new();
    assert!(ledger.create_token(addr(10), addr(11)).is_ok());
    assert!(ledger.create_token(addr(12), addr(11)).is_ok());
    assert!(ledger.mint_to(&addr(11), &addr(10), &addr(20), 100).is_ok());
    assert!(ledger.mint_to(&addr(11), &addr(12), &addr(20), 7).is_ok());
    assert!(ledger.burn(&addr(20), &addr(10), 40).is_ok());
    assert_eq!(ledger.balance_of(&addr(20), &addr(10)), 60);
    assert_eq!(ledger.balance_of(&addr(20), &addr(12)), 7);
    assert_eq!(ledger.supply_of(&addr(10)), Some(60));
    assert_eq!(ledger.supply_of(&addr(12)), Some(7));
}

#[test]
fn address_equality_is_bytewise() {
    let mut bytes = [5u8; 32];
    let a = Address::new(bytes);
    assert!(a.eq_addr(&Address::new([5u8; 32])));
    bytes[31] = 6;
    assert!(!a.eq_addr(&Address::new(bytes)));
}
