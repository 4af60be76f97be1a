//! The bridge's own state machine: the singleton configuration, the
//! owner-gated registry of foreign tokens, and the five operations —
//! initialization, mint-authority transfer, foreign-token registration,
//! burn-and-bridge and mint-and-bridge — together with the events the two
//! flows emit for the off-chain relayer.
//!
//! Each executable operation is proved to perform exactly the
//! corresponding `step_*` transition of [`BridgeModel`] and to preserve
//! [`BridgeModel::wf`].

use vstd::prelude::*;
use crate::addr::Address;
use crate::errors::BridgeError;
use crate::events::BridgeEvent;
use crate::ledger::LedgerModel;
use crate::ledger::TokenLedger;

verus! {

/// The singleton administrative record of the bridge: created once, never
/// deleted, its fields immutable afterwards.
#[derive(Clone, Copy, Debug, PartialEq, Eq)]
pub struct Config {
    /// The identity allowed to perform administrative operations.
    pub owner: Address,
    /// The identity allowed to perform mint-and-bridge operations.
    pub relayer: Address,
    /// The bridge's programmatic mint authority, derived from the seed
    /// material by the surrounding platform.
    pub authority: Address,
    /// The derivation seed that, with the fixed prefix, addresses this
    /// record and its authority deterministically.
    pub bump: u8,
}

/// The inputs of [`BridgeState::initialize`]: the caller who becomes the
/// owner, the relayer to register, and the platform-derived programmatic
/// authority with its derivation seed.
#[derive(Clone, Copy, Debug, PartialEq, Eq)]
pub struct Initialize {
    pub owner: Address,
    pub relayer: Address,
    pub authority: Address,
    pub bump: u8,
}

/// One approved mapping from a foreign-chain token address to a
/// home-chain mint. Immutable once created.
#[derive(Clone, Copy, Debug, PartialEq, Eq)]
pub struct RegistryEntry {
    pub foreign_address: Address,
    pub local_mint: Address,
}

/// The first registry entry for `foreign`, if any.
pub open spec fn registry_lookup(s: Seq<RegistryEntry>, foreign: Seq<u8>) -> Option<RegistryEntry>
    decreases s.len(),
{
    if s.len() == 0 {
        None
    } else if s[0].foreign_address@ == foreign {
        Some(s[0])
    } else {
        registry_lookup(s.drop_first(), foreign)
    }
}

/// The index of the first registry entry for `foreign`; the length of
/// `s` when there is none.
pub open spec fn registry_first_idx(s: Seq<RegistryEntry>, foreign: Seq<u8>) -> int
    decreases s.len(),
{
    if s.len() == 0 {
        0
    } else if s[0].foreign_address@ == foreign {
        0
    } else {
        1 + registry_first_idx(s.drop_first(), foreign)
    }
}

/// The first registry index points at the first match, and at the length
/// when there is no match.
pub proof fn lemma_registry_first_idx(s: Seq<RegistryEntry>, foreign: Seq<u8>)
    ensures
        0 <= registry_first_idx(s, foreign) <= s.len(),
        registry_first_idx(s, foreign) < s.len() ==> {
            let i = registry_first_idx(s, foreign);
            s[i].foreign_address@ == foreign && registry_lookup(s, foreign) == Some(s[i])
        },
        registry_first_idx(s, foreign) == s.len() ==> registry_lookup(s, foreign) is None,
        forall|k: int| 0 <= k < registry_first_idx(s, foreign) ==> s[k].foreign_address@ != foreign,
    decreases s.len(),
{
    if s.len() > 0 && s[0].foreign_address@ != foreign {
        lemma_registry_first_idx(s.drop_first(), foreign);
        let i = registry_first_idx(s, foreign);
        assert(i == 1 + registry_first_idx(s.drop_first(), foreign));
        if i < s.len() {
            assert(s[i] == s.drop_first()[i - 1]);
        }
        assert forall|k: int| 0 <= k < i implies s[k].foreign_address@ != foreign by {
            if k > 0 {
                assert(s[k] == s.drop_first()[k - 1]);
            }
        }
    }
}

/// How every registry lookup reads through a push.
pub proof fn lemma_registry_lookup_push(s: Seq<RegistryEntry>, e: RegistryEntry)
    ensures
        forall|f: Seq<u8>| #[trigger] registry_lookup(s.push(e), f) == if registry_lookup(s, f)
            is Some {
            registry_lookup(s, f)
        } else if f == e.foreign_address@ {
            Some(e)
        } else {
            None
        },
    decreases s.len(),
{
    if s.len() == 0 {
        assert forall|f: Seq<u8>| #[trigger] registry_lookup(s.push(e), f) == (if registry_lookup(
            s,
            f,
        ) is Some {
            registry_lookup(s, f)
        } else if f == e.foreign_address@ {
            Some(e)
        } else {
            None
        }) by {
            assert(s.push(e)[0] == e);
            assert(s.push(e).drop_first() =~= Seq::<RegistryEntry>::empty());
            assert(registry_lookup(s.push(e).drop_first(), f) is None);
            assert(registry_lookup(s, f) is None);
        }
    } else {
        lemma_registry_lookup_push(s.drop_first(), e);
        assert forall|f: Seq<u8>| #[trigger] registry_lookup(s.push(e), f) == (if registry_lookup(
            s,
            f,
        ) is Some {
            registry_lookup(s, f)
        } else if f == e.foreign_address@ {
            Some(e)
        } else {
            None
        }) by {
            assert(s.push(e)[0] == s[0]);
            assert(s.push(e).drop_first() =~= s.drop_first().push(e));
            assert(registry_lookup(s.push(e).drop_first(), f) == registry_lookup(
                s.drop_first().push(e),
                f,
            ));
        }
    }
}

/// Whether the registry approves bridging `foreign` to the home-chain
/// token `mint`.
pub open spec fn registry_maps_to(s: Seq<RegistryEntry>, foreign: Seq<u8>, mint: Seq<u8>) -> bool {
    match registry_lookup(s, foreign) {
        Some(e) => e.local_mint@ == mint,
        None => false,
    }
}

/// The mathematical state of the bridge: the configuration if it was
/// created, the approved foreign-token mappings, the underlying token
/// ledger, and the events emitted so far, oldest first.
#[verifier::ext_equal]
pub struct BridgeModel {
    pub config: Option<Config>,
    pub registry: Seq<RegistryEntry>,
    pub ledger: LedgerModel,
    pub events: Seq<BridgeEvent>,
}

impl BridgeModel {
    /// Well-formedness: the ledger is well-formed and no two registry
    /// entries share a foreign address.
    pub open spec fn wf(self) -> bool {
        &&& self.ledger.wf()
        &&& forall|i: int, j: int|
            0 <= i < j < self.registry.len() ==> (#[trigger] self.registry[i]).foreign_address@
                != (#[trigger] self.registry[j]).foreign_address@
    }

    /// Creating the singleton configuration: fails with
    /// `AlreadyInitialized` when it exists, otherwise records the caller
    /// as owner together with the relayer and the derived authority.
    pub open spec fn step_initialize(self, accounts: Initialize) -> (BridgeModel, Result<
        (),
        BridgeError,
    >) {
        if self.config is Some {
            (self, Err(BridgeError::AlreadyInitialized))
        } else {
            (
                BridgeModel {
                    config: Some(
                        Config {
                            owner: accounts.owner,
                            relayer: accounts.relayer,
                            authority: accounts.authority,
                            bump: accounts.bump,
                        },
                    ),
                    registry: self.registry,
                    ledger: self.ledger,
                    events: self.events,
                },
                Ok(()),
            )
        }
    }

    /// Transferring a token's mint authority to the bridge's derived
    /// authority. The ledger enforces that only the current authority may
    /// do so; the bridge never becomes divested because re-running the
    /// transfer under the derived authority is the identity.
    pub open spec fn step_take_token_mint_authority(self, caller: Address, mint: Address) -> (
        BridgeModel,
        Result<(), BridgeError>,
    ) {
        match self.config {
            None => (self, Err(BridgeError::Unauthorized)),
            Some(cfg) => {
                let (l2, res) = self.ledger.set_authority(caller, mint, cfg.authority);
                (
                    BridgeModel {
                        config: self.config,
                        registry: self.registry,
                        ledger: l2,
                        events: self.events,
                    },
                    res,
                )
            },
        }
    }

    /// Registering a foreign token: owner-only, at most one entry per
    /// foreign address, the entry immutable once created.
    pub open spec fn step_register_foreign_token(
        self,
        caller: Address,
        foreign_address: Address,
        local_mint: Address,
    ) -> (BridgeModel, Result<(), BridgeError>) {
        match self.config {
            None => (self, Err(BridgeError::Unauthorized)),
            Some(cfg) => {
                if caller@ != cfg.owner@ {
                    (self, Err(BridgeError::Unauthorized))
                } else if registry_lookup(self.registry, foreign_address@) is Some {
                    (self, Err(BridgeError::DuplicateRegistration))
                } else {
                    (
                        BridgeModel {
                            config: self.config,
                            registry: self.registry.push(
                                RegistryEntry { foreign_address, local_mint },
                            ),
                            ledger: self.ledger,
                            events: self.events,
                        },
                        Ok(()),
                    )
                }
            },
        }
    }

    /// Burning tokens to bridge them out: any holder may burn their own
    /// balance; on success exactly one burn event is appended.
    pub open spec fn step_burn_and_bridge(self, caller: Address, mint: Address, amount: u64) -> (
        BridgeModel,
        Result<(), BridgeError>,
    ) {
        match self.config {
            None => (self, Err(BridgeError::Unauthorized)),
            Some(_) => {
                let (l2, res) = self.ledger.burn(caller, mint, amount);
                if res is Ok {
                    (
                        BridgeModel {
                            config: self.config,
                            registry: self.registry,
                            ledger: l2,
                            events: self.events.push(
                                BridgeEvent::Burn { account: caller, amount },
                            ),
                        },
                        Ok(()),
                    )
                } else {
                    (self, res)
                }
            },
        }
    }

    /// Minting tokens that were burned on the foreign chain:
    /// relayer-only, the foreign address must be registered for the
    /// target mint, and the ledger enforces that the bridge's derived
    /// authority holds the token's mint authority. On success exactly one
    /// mint event is appended.
    pub open spec fn step_mint_and_bridge(
        self,
        caller: Address,
        foreign_address: Address,
        mint: Address,
        dest: Address,
        amount: u64,
    ) -> (BridgeModel, Result<(), BridgeError>) {
        match self.config {
            None => (self, Err(BridgeError::Unauthorized)),
            Some(cfg) => {
                if caller@ != cfg.relayer@ {
                    (self, Err(BridgeError::Unauthorized))
                } else if !registry_maps_to(self.registry, foreign_address@, mint@) {
                    (self, Err(BridgeError::UnregisteredToken))
                } else {
                    let (l2, res) = self.ledger.mint_to(cfg.authority, mint, dest, amount);
                    if res is Ok {
                        (
                            BridgeModel {
                                config: self.config,
                                registry: self.registry,
                                ledger: l2,
                                events: self.events.push(
                                    BridgeEvent::Mint { account: dest, amount, foreign_address },
                                ),
                            },
                            Ok(()),
                        )
                    } else {
                        (self, res)
                    }
                }
            },
        }
    }

    /// No relayer-approved minting step overflows the token's supply
    /// counter. This only constrains calls that pass the bridge's own
    /// gates; a call that fails them never reaches the ledger.
    pub open spec fn mint_would_fit(
        self,
        caller: Seq<u8>,
        foreign: Seq<u8>,
        mint: Seq<u8>,
        amount: u64,
    ) -> bool {
        match self.config {
            None => true,
            Some(cfg) => (caller == cfg.relayer@ && registry_maps_to(self.registry, foreign, mint))
                ==> self.ledger.mint_fits(cfg.authority@, mint, amount),
        }
    }
}

/// The executable bridge. Its mathematical state is a [`BridgeModel`];
/// every operation is proved to perform exactly the corresponding
/// `step_*` transition and to preserve [`BridgeModel::wf`].
pub struct BridgeState {
    pub config: Option<Config>,
    pub registry: Vec<RegistryEntry>,
    pub ledger: TokenLedger,
    pub events: Vec<BridgeEvent>,
}

impl View for BridgeState {
    type V = BridgeModel;

    open spec fn view(&self) -> BridgeModel {
        BridgeModel {
            config: self.config,
            registry: self.registry@,
            ledger: self.ledger@,
            events: self.events@,
        }
    }
}

impl BridgeState {
    /// Deploys the bridge over an existing ledger: no configuration, no
    /// registry entries, no events.
    pub fn new(ledger: TokenLedger) -> (r: BridgeState)
        requires
            ledger@.wf(),
        ensures
            r@.wf(),
            r@.config is None,
            r@.registry == Seq::<RegistryEntry>::empty(),
            r@.ledger == ledger@,
            r@.events == Seq::<BridgeEvent>::empty(),
    {
        let s = BridgeState { config: None, registry: Vec::new(), ledger, events: Vec::new() };
        proof {
            assert(s@.registry =~= Seq::<RegistryEntry>::empty());
            assert(s@.events =~= Seq::<BridgeEvent>::empty());
        }
        s
    }

    /// The position of the registry entry for `foreign_address`, if any.
    fn find_registry(&self, foreign_address: &Address) -> (r: Option<usize>)
        ensures
            match r {
                Some(i) => {
                    &&& i as int == registry_first_idx(self.registry@, foreign_address@)
                    &&& i < self.registry@.len()
                    &&& self.registry@[i as int].foreign_address@ == foreign_address@
                    &&& registry_lookup(self.registry@, foreign_address@) == Some(
                        self.registry@[i as int],
                    )
                },
                None => registry_lookup(self.registry@, foreign_address@) is None,
            },
    {
        let mut i: usize = 0;
        while i < self.registry.len()
            invariant
                i <= self.registry@.len(),
                forall|k: int|
                    0 <= k < i ==> (#[trigger] self.registry@[k]).foreign_address@
                        != foreign_address@,
            decreases self.registry@.len() - i,
        {
            if self.registry[i].foreign_address.eq_addr(foreign_address) {
                proof {
                    lemma_registry_first_idx(self.registry@, foreign_address@);
                }
                return Some(i);
            }
            i += 1;
        }
        proof {
            lemma_registry_first_idx(self.registry@, foreign_address@);
        }
        None
    }

    /// Whether the singleton configuration has been created.
    pub fn is_initialized(&self) -> (r: bool)
        ensures
            r == (self@.config is Some),
    {
        self.config.is_some()
    }

    /// The home-chain mint registered for a foreign token address, if
    /// any. Reads are public: no authorization is required.
    pub fn registered_mint(&self, foreign_address: &Address) -> (r: Option<Address>)
        ensures
            match r {
                Some(m) => registry_maps_to(self@.registry, foreign_address@, m@),
                None => registry_lookup(self@.registry, foreign_address@) is None,
            },
    {
        match self.find_registry(foreign_address) {
            Some(i) => Some(self.registry[i].local_mint),
            None => None,
        }
    }

    /// Creates the singleton configuration with the caller as owner; a
    /// second call always fails with `AlreadyInitialized`.
    pub fn initialize(&mut self, accounts: Initialize) -> (r: Result<(), BridgeError>)
        requires
            old(self)@.wf(),
        ensures
            final(self)@.wf(),
            ({
                let (m2, res) = old(self)@.step_initialize(accounts);
                final(self)@ == m2 && r == res
            }),
    {
        if self.config.is_some() {
            return Err(BridgeError::AlreadyInitialized);
        }
        self.config = Some(
            Config {
                owner: accounts.owner,
                relayer: accounts.relayer,
                authority: accounts.authority,
                bump: accounts.bump,
            },
        );
        proof {
            assert(self@ =~= old(self)@.step_initialize(accounts).0);
        }
        Ok(())
    }

    /// Transfers `mint`'s mint authority from its current holder — who
    /// must be the caller — to the bridge's derived authority, so that
    /// the bridge alone controls supply from then on.
    pub fn take_token_mint_authority(&mut self, caller: &Address, mint: &Address) -> (r: Result<
        (),
        BridgeError,
    >)
        requires
            old(self)@.wf(),
            old(self)@.config is Some,
        ensures
            final(self)@.wf(),
            ({
                let (m2, res) = old(self)@.step_take_token_mint_authority(*caller, *mint);
                final(self)@ == m2 && r == res
            }),
    {
        let cfg = self.config.unwrap();
        let res = self.ledger.set_authority(caller, mint, &cfg.authority);
        proof {
            assert(self@ =~= old(self)@.step_take_token_mint_authority(*caller, *mint).0);
        }
        res
    }

    /// Registers a foreign token address for a home-chain mint.
    /// Owner-only; at most one entry per foreign address.
    pub fn register_foreign_token(
        &mut self,
        caller: &Address,
        foreign_address: Address,
        local_mint: Address,
    ) -> (r: Result<(), BridgeError>)
        requires
            old(self)@.wf(),
            old(self)@.config is Some,
        ensures
            final(self)@.wf(),
            ({
                let (m2, res) = old(self)@.step_register_foreign_token(
                    *caller,
                    foreign_address,
                    local_mint,
                );
                final(self)@ == m2 && r == res
            }),
    {
        let cfg = self.config.unwrap();
        if !caller.eq_addr(&cfg.owner) {
            return Err(BridgeError::Unauthorized);
        }
        if self.find_registry(&foreign_address).is_some() {
            return Err(BridgeError::DuplicateRegistration);
        }
        let e = RegistryEntry { foreign_address, local_mint };
        self.registry.push(e);
        proof {
            lemma_registry_first_idx(old(self)@.registry, foreign_address@);
            assert(self@ =~= old(self)@.step_register_foreign_token(
                *caller,
                foreign_address,
                local_mint,
            ).0);
        }
        Ok(())
    }

    /// Burns `amount` of `mint` from the caller's balance and emits one
    /// burn event for the relayer. Any holder may burn their own tokens;
    /// a burn beyond the balance fails with `InsufficientFunds` and
    /// changes nothing.
    pub fn burn_and_bridge(&mut self, caller: &Address, mint: &Address, amount: u64) -> (r: Result<
        (),
        BridgeError,
    >)
        requires
            old(self)@.wf(),
            old(self)@.config is Some,
            amount >= 1,
        ensures
            final(self)@.wf(),
            ({
                let (m2, res) = old(self)@.step_burn_and_bridge(*caller, *mint, amount);
                final(self)@ == m2 && r == res
            }),
    {
        let res = self.ledger.burn(caller, mint, amount);
        match res {
            Ok(()) => {
                self.events.push(BridgeEvent::Burn { account: *caller, amount });
                proof {
                    assert(self@ =~= old(self)@.step_burn_and_bridge(*caller, *mint, amount).0);
                }
                Ok(())
            },
            Err(e) => {
                proof {
                    assert(self@ =~= old(self)@.step_burn_and_bridge(*caller, *mint, amount).0);
                }
                Err(e)
            },
        }
    }

    /// Mints `amount` of `mint` to `dest` in response to an observed
    /// foreign-chain burn of the token at `foreign_address`, and emits
    /// one mint event. Relayer-only; the foreign address must be
    /// registered for `mint`, and the ledger refuses the mint unless the
    /// bridge's derived authority holds the token's mint authority.
    pub fn mint_and_bridge(
        &mut self,
        caller: &Address,
        foreign_address: Address,
        mint: &Address,
        dest: &Address,
        amount: u64,
    ) -> (r: Result<(), BridgeError>)
        requires
            old(self)@.wf(),
            old(self)@.config is Some,
            old(self)@.mint_would_fit(caller@, foreign_address@, mint@, amount),
        ensures
            final(self)@.wf(),
            ({
                let (m2, res) = old(self)@.step_mint_and_bridge(
                    *caller,
                    foreign_address,
                    *mint,
                    *dest,
                    amount,
                );
                final(self)@ == m2 && r == res
            }),
    {
        let cfg = self.config.unwrap();
        if !caller.eq_addr(&cfg.relayer) {
            return Err(BridgeError::Unauthorized);
        }
        let entry = match self.find_registry(&foreign_address) {
            Some(i) => self.registry[i],
            None => {
                return Err(BridgeError::UnregisteredToken);
            },
        };
        if !entry.local_mint.eq_addr(mint) {
            return Err(BridgeError::UnregisteredToken);
        }
        let res = self.ledger.mint_to(&cfg.authority, mint, dest, amount);
        match res {
            Ok(()) => {
                self.events.push(BridgeEvent::Mint { account: *dest, amount, foreign_address });
                proof {
                    assert(self@ =~= old(self)@.step_mint_and_bridge(
                        *caller,
                        foreign_address,
                        *mint,
                        *dest,
                        amount,
                    ).0);
                }
                Ok(())
            },
            Err(e) => {
                proof {
                    assert(self@ =~= old(self)@.step_mint_and_bridge(
                        *caller,
                        foreign_address,
                        *mint,
                        *dest,
                        amount,
                    ).0);
                }
                Err(e)
            },
        }
    }
}

} // verus!
