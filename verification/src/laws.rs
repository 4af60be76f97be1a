//! The bridge's guarantees, proved once and for all over the model
//! transitions that every executable operation is proved to implement:
//! the configuration is created at most once and never changes afterwards,
//! mint authority leaves its original holder at most once, each foreign
//! address is registered at most once and only by the owner, burns are
//! covered by the caller's balance and move balance and supply in step,
//! and minting is gated on the relayer and the registry.

use vstd::prelude::*;
use crate::addr::Address;
use crate::bridge::BridgeModel;
use crate::bridge::Config;
use crate::bridge::Initialize;
use crate::bridge::RegistryEntry;
use crate::bridge::registry_lookup;
use crate::bridge::registry_maps_to;
use crate::errors::BridgeError;
use crate::events::BridgeEvent;
use crate::ledger::AccountRecord;
use crate::ledger::TokenRecord;
use crate::ledger::account_first_idx;
use crate::ledger::account_lookup;
use crate::ledger::balance_in;
use crate::ledger::lemma_account_first_idx;
use crate::ledger::lemma_account_lookup_push;
use crate::ledger::lemma_account_lookup_update;
use crate::bridge::lemma_registry_lookup_push;
use crate::ledger::lemma_balance_le_sum;
use crate::ledger::lemma_token_first_idx;
use crate::ledger::lemma_token_lookup_update;
use crate::ledger::sum_balances;
use crate::ledger::token_first_idx;
use crate::ledger::token_lookup;

verus! {

/// Initializing an uninitialized bridge succeeds and records the caller
/// as owner, the supplied relayer, and the derived authority; nothing
/// else changes.
pub proof fn lemma_initialize_effects(s: BridgeModel, accounts: Initialize)
    requires
        s.config is None,
    ensures
        ({
            let (s2, r) = s.step_initialize(accounts);
            &&& r is Ok
            &&& s2.config == Some(
                Config {
                    owner: accounts.owner,
                    relayer: accounts.relayer,
                    authority: accounts.authority,
                    bump: accounts.bump,
                },
            )
            &&& s2.registry == s.registry
            &&& s2.ledger == s.ledger
            &&& s2.events == s.events
        }),
{
}

/// The configuration exists at most once: initializing twice always fails
/// the second time with `AlreadyInitialized`, whatever inputs either call
/// had, and the second call changes nothing.
pub proof fn lemma_initialize_at_most_once(s: BridgeModel, a1: Initialize, a2: Initialize)
    ensures
        ({
            let (s1, r1) = s.step_initialize(a1);
            r1 is Ok ==> s1.step_initialize(a2) == (
                s1,
                Err::<(), BridgeError>(BridgeError::AlreadyInitialized),
            )
        }),
{
}

/// No operation but a first initialization ever changes the
/// configuration: owner and relayer are immutable once set.
pub proof fn lemma_config_immutable(
    s: BridgeModel,
    caller: Address,
    foreign_address: Address,
    mint: Address,
    dest: Address,
    amount: u64,
)
    ensures
        s.step_take_token_mint_authority(caller, mint).0.config == s.config,
        s.step_register_foreign_token(caller, foreign_address, mint).0.config == s.config,
        s.step_burn_and_bridge(caller, mint, amount).0.config == s.config,
        s.step_mint_and_bridge(caller, foreign_address, mint, dest, amount).0.config == s.config,
        s.config is Some ==> s.step_initialize(
            Initialize {
                owner: caller,
                relayer: dest,
                authority: mint,
                bump: 0,
            },
        ).0.config == s.config,
{
}

/// Mint authority is taken at most once while the original authority is
/// unchanged: after a holder other than the bridge's derived authority
/// transfers it, the same — now divested — holder's second attempt fails
/// with `Unauthorized` and changes nothing.
pub proof fn lemma_take_authority_at_most_once(s: BridgeModel, caller: Address, mint: Address)
    requires
        s.wf(),
        s.config matches Some(cfg) && caller@ != cfg.authority@,
    ensures
        ({
            let (s1, r1) = s.step_take_token_mint_authority(caller, mint);
            r1 is Ok ==> s1.step_take_token_mint_authority(caller, mint) == (
                s1,
                Err::<(), BridgeError>(BridgeError::Unauthorized),
            )
        }),
{
    let cfg = s.config->Some_0;
    let (s1, r1) = s.step_take_token_mint_authority(caller, mint);
    if r1 is Ok {
        let ti = token_first_idx(s.ledger.tokens, mint@);
        lemma_token_first_idx(s.ledger.tokens, mint@);
        let t = s.ledger.tokens[ti];
        let t2 = TokenRecord { mint: t.mint, authority: cfg.authority, supply: t.supply };
        lemma_token_lookup_update(s.ledger.tokens, ti, t2);
        assert(token_lookup(s1.ledger.tokens, mint@) == Some(t2));
        let (s2, r2) = s1.step_take_token_mint_authority(caller, mint);
        assert(s2 =~= s1);
    }
}

/// Only the owner can register a foreign token: any other caller fails
/// with `Unauthorized` and changes nothing, whatever the arguments.
pub proof fn lemma_register_requires_owner(
    s: BridgeModel,
    caller: Address,
    foreign_address: Address,
    local_mint: Address,
)
    requires
        s.config matches Some(cfg) && caller@ != cfg.owner@,
    ensures
        s.step_register_foreign_token(caller, foreign_address, local_mint) == (
            s,
            Err::<(), BridgeError>(BridgeError::Unauthorized),
        ),
{
}

/// Each foreign address is registered at most once: after a successful
/// registration, any further attempt for the same address fails — with
/// `DuplicateRegistration` when the owner makes it — and changes nothing.
pub proof fn lemma_register_at_most_once(
    s: BridgeModel,
    c1: Address,
    c2: Address,
    foreign_address: Address,
    m1: Address,
    m2: Address,
)
    ensures
        ({
            let (s1, r1) = s.step_register_foreign_token(c1, foreign_address, m1);
            let (s2, r2) = s1.step_register_foreign_token(c2, foreign_address, m2);
            r1 is Ok ==> r2 is Err && s2 == s1 && (s1.config matches Some(cfg) && c2@ == cfg.owner@
                ==> r2 == Err::<(), BridgeError>(BridgeError::DuplicateRegistration))
        }),
{
    let (s1, r1) = s.step_register_foreign_token(c1, foreign_address, m1);
    if r1 is Ok {
        let e = RegistryEntry { foreign_address, local_mint: m1 };
        lemma_registry_lookup_push(s.registry, e);
        assert(registry_lookup(s1.registry, foreign_address@) == Some(e));
        let (s2, r2) = s1.step_register_foreign_token(c2, foreign_address, m2);
        assert(s2 =~= s1);
    }
}

/// What burn-and-bridge does, for any caller and token: a burn beyond the
/// balance fails with `InsufficientFunds` and changes nothing; a covered
/// burn lowers the caller's balance and the token's supply by exactly
/// `amount`, appends exactly one burn event, and touches nothing else —
/// no other balance, no other supply, not the configuration, not the
/// registry.
pub proof fn lemma_burn_and_bridge_effects(
    s: BridgeModel,
    caller: Address,
    mint: Address,
    amount: u64,
)
    requires
        s.wf(),
        s.config is Some,
        amount >= 1,
    ensures
        ({
            let (s2, r) = s.step_burn_and_bridge(caller, mint, amount);
            let bal = s.ledger.balance_of(caller@, mint@);
            &&& amount > bal ==> r == Err::<(), BridgeError>(BridgeError::InsufficientFunds) && s2
                == s
            &&& amount <= bal ==> {
                &&& r is Ok
                &&& s2.ledger.balance_of(caller@, mint@) == bal - amount
                &&& s.ledger.supply_of(mint@) matches Some(sup) && amount <= sup
                    && s2.ledger.supply_of(mint@) == Some((sup - amount) as u64)
                &&& s2.events == s.events.push(BridgeEvent::Burn { account: caller, amount })
                &&& s2.config == s.config
                &&& s2.registry == s.registry
                &&& forall|h: Seq<u8>, m: Seq<u8>|
                    !(h == caller@ && m == mint@) ==> #[trigger] s2.ledger.balance_of(h, m)
                        == s.ledger.balance_of(h, m)
                &&& forall|m: Seq<u8>|
                    m != mint@ ==> #[trigger] s2.ledger.supply_of(m) == s.ledger.supply_of(m)
            }
        }),
{
    let bal = balance_in(s.ledger.accounts, caller@, mint@);
    lemma_balance_le_sum(s.ledger.accounts, caller@, mint@);
    if amount <= bal {
        let ai = account_first_idx(s.ledger.accounts, caller@, mint@);
        lemma_account_first_idx(s.ledger.accounts, caller@, mint@);
        let a = s.ledger.accounts[ai];
        assert(token_lookup(s.ledger.tokens, a.mint@) is Some);
        let ti = token_first_idx(s.ledger.tokens, mint@);
        lemma_token_first_idx(s.ledger.tokens, mint@);
        let t = s.ledger.tokens[ti];
        assert(t.supply as int == sum_balances(s.ledger.accounts, t.mint@));
        let t2 = TokenRecord {
            mint: t.mint,
            authority: t.authority,
            supply: (t.supply - amount) as u64,
        };
        let a2 = AccountRecord {
            holder: a.holder,
            mint: a.mint,
            amount: (a.amount - amount) as u64,
        };
        lemma_token_lookup_update(s.ledger.tokens, ti, t2);
        lemma_account_lookup_update(s.ledger.accounts, ai, a2);
    }
}

/// Mint-and-bridge is relayer-only: any other caller fails with
/// `Unauthorized`, whatever the other arguments, and nothing changes.
pub proof fn lemma_mint_requires_relayer(
    s: BridgeModel,
    caller: Address,
    foreign_address: Address,
    mint: Address,
    dest: Address,
    amount: u64,
)
    requires
        s.config matches Some(cfg) && caller@ != cfg.relayer@,
    ensures
        s.step_mint_and_bridge(caller, foreign_address, mint, dest, amount) == (
            s,
            Err::<(), BridgeError>(BridgeError::Unauthorized),
        ),
{
}

/// A relayer call for a foreign address that is not registered for the
/// target mint fails with `UnregisteredToken` and changes nothing.
pub proof fn lemma_mint_requires_registration(
    s: BridgeModel,
    caller: Address,
    foreign_address: Address,
    mint: Address,
    dest: Address,
    amount: u64,
)
    requires
        s.config matches Some(cfg) && caller@ == cfg.relayer@,
        !registry_maps_to(s.registry, foreign_address@, mint@),
    ensures
        s.step_mint_and_bridge(caller, foreign_address, mint, dest, amount) == (
            s,
            Err::<(), BridgeError>(BridgeError::UnregisteredToken),
        ),
{
}

/// What mint-and-bridge does for the relayer, a registered foreign
/// address, and a token whose authority the bridge holds: the destination
/// balance and the supply rise by exactly `amount`, exactly one mint
/// event is appended, and nothing else changes.
pub proof fn lemma_mint_and_bridge_effects(
    s: BridgeModel,
    caller: Address,
    foreign_address: Address,
    mint: Address,
    dest: Address,
    amount: u64,
)
    requires
        s.wf(),
        s.config matches Some(cfg) && {
            &&& caller@ == cfg.relayer@
            &&& s.ledger.authority_of(mint@) == Some(cfg.authority@)
            &&& s.ledger.mint_fits(cfg.authority@, mint@, amount)
        },
        registry_maps_to(s.registry, foreign_address@, mint@),
    ensures
        ({
            let (s2, r) = s.step_mint_and_bridge(caller, foreign_address, mint, dest, amount);
            let bal = s.ledger.balance_of(dest@, mint@);
            &&& r is Ok
            &&& s2.ledger.balance_of(dest@, mint@) == bal + amount
            &&& s.ledger.supply_of(mint@) matches Some(sup) && sup + amount <= u64::MAX
                && s2.ledger.supply_of(mint@) == Some((sup + amount) as u64)
            &&& s2.events == s.events.push(
                BridgeEvent::Mint { account: dest, amount, foreign_address },
            )
            &&& s2.config == s.config
            &&& s2.registry == s.registry
            &&& forall|h: Seq<u8>, m: Seq<u8>|
                !(h == dest@ && m == mint@) ==> #[trigger] s2.ledger.balance_of(h, m)
                    == s.ledger.balance_of(h, m)
            &&& forall|m: Seq<u8>|
                m != mint@ ==> #[trigger] s2.ledger.supply_of(m) == s.ledger.supply_of(m)
        }),
{
    let cfg = s.config->Some_0;
    let ti = token_first_idx(s.ledger.tokens, mint@);
    lemma_token_first_idx(s.ledger.tokens, mint@);
    let t = s.ledger.tokens[ti];
    assert(t.supply as int == sum_balances(s.ledger.accounts, t.mint@));
    lemma_balance_le_sum(s.ledger.accounts, dest@, mint@);
    let t2 = TokenRecord {
        mint: t.mint,
        authority: t.authority,
        supply: (t.supply + amount) as u64,
    };
    lemma_token_lookup_update(s.ledger.tokens, ti, t2);
    match account_lookup(s.ledger.accounts, dest@, mint@) {
        Some(a) => {
            let ai = account_first_idx(s.ledger.accounts, dest@, mint@);
            lemma_account_first_idx(s.ledger.accounts, dest@, mint@);
            let a2 = AccountRecord {
                holder: a.holder,
                mint: a.mint,
                amount: (a.amount + amount) as u64,
            };
            lemma_account_lookup_update(s.ledger.accounts, ai, a2);
        },
        None => {
            let a2 = AccountRecord { holder: dest, mint, amount };
            lemma_account_lookup_push(s.ledger.accounts, a2);
        },
    }
}

} // verus!
