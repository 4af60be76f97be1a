//! A model of the token ledger the bridge runs against: every token's
//! supply and mint authority, and every holder's balance. The ledger, not
//! the bridge, is what enforces that burns are covered by a balance and
//! that only the current mint authority can mint, so the bridge's
//! guarantees are proved against this model.
//!
//! The central invariant, [`LedgerModel::wf`], states that a token's
//! recorded supply always equals the sum of all balances of that token.

use vstd::prelude::*;
use crate::addr::Address;
use crate::errors::BridgeError;

verus! {

/// One token on the ledger: its mint identity, the identity currently
/// allowed to mint it, and the outstanding supply.
#[derive(Clone, Copy, Debug, PartialEq, Eq)]
pub struct TokenRecord {
    pub mint: Address,
    pub authority: Address,
    pub supply: u64,
}

/// One holder's balance of one token.
#[derive(Clone, Copy, Debug, PartialEq, Eq)]
pub struct AccountRecord {
    pub holder: Address,
    pub mint: Address,
    pub amount: u64,
}

/// The mathematical state of the ledger: the token records and the
/// balance records, in creation order.
#[verifier::ext_equal]
pub struct LedgerModel {
    pub tokens: Seq<TokenRecord>,
    pub accounts: Seq<AccountRecord>,
}

/// The first token record whose mint is `mint`, if any.
pub open spec fn token_lookup(s: Seq<TokenRecord>, mint: Seq<u8>) -> Option<TokenRecord>
    decreases s.len(),
{
    if s.len() == 0 {
        None
    } else if s[0].mint@ == mint {
        Some(s[0])
    } else {
        token_lookup(s.drop_first(), mint)
    }
}

/// The index of the first token record whose mint is `mint`; the length
/// of `s` when there is none.
pub open spec fn token_first_idx(s: Seq<TokenRecord>, mint: Seq<u8>) -> int
    decreases s.len(),
{
    if s.len() == 0 {
        0
    } else if s[0].mint@ == mint {
        0
    } else {
        1 + token_first_idx(s.drop_first(), mint)
    }
}

/// The first balance record of `holder` for `mint`, if any.
pub open spec fn account_lookup(s: Seq<AccountRecord>, holder: Seq<u8>, mint: Seq<u8>) -> Option<
    AccountRecord,
>
    decreases s.len(),
{
    if s.len() == 0 {
        None
    } else if s[0].holder@ == holder && s[0].mint@ == mint {
        Some(s[0])
    } else {
        account_lookup(s.drop_first(), holder, mint)
    }
}

/// The index of the first balance record of `holder` for `mint`; the
/// length of `s` when there is none.
pub open spec fn account_first_idx(s: Seq<AccountRecord>, holder: Seq<u8>, mint: Seq<u8>) -> int
    decreases s.len(),
{
    if s.len() == 0 {
        0
    } else if s[0].holder@ == holder && s[0].mint@ == mint {
        0
    } else {
        1 + account_first_idx(s.drop_first(), holder, mint)
    }
}

/// `holder`'s balance of `mint`: the recorded amount, or zero when no
/// record exists.
pub open spec fn balance_in(s: Seq<AccountRecord>, holder: Seq<u8>, mint: Seq<u8>) -> u64 {
    match account_lookup(s, holder, mint) {
        Some(a) => a.amount,
        None => 0,
    }
}

/// What one balance record contributes to the total supply of `mint`.
pub open spec fn contribution(a: AccountRecord, mint: Seq<u8>) -> int {
    if a.mint@ == mint {
        a.amount as int
    } else {
        0
    }
}

/// The sum of all balances of `mint` across the ledger.
pub open spec fn sum_balances(s: Seq<AccountRecord>, mint: Seq<u8>) -> int
    decreases s.len(),
{
    if s.len() == 0 {
        0
    } else {
        contribution(s[0], mint) + sum_balances(s.drop_first(), mint)
    }
}

/// The first token index points at the first match, and at the length
/// when there is no match.
pub proof fn lemma_token_first_idx(s: Seq<TokenRecord>, mint: Seq<u8>)
    ensures
        0 <= token_first_idx(s, mint) <= s.len(),
        token_first_idx(s, mint) < s.len() ==> {
            let i = token_first_idx(s, mint);
            s[i].mint@ == mint && token_lookup(s, mint) == Some(s[i])
        },
        token_first_idx(s, mint) == s.len() ==> token_lookup(s, mint) is None,
        forall|k: int| 0 <= k < token_first_idx(s, mint) ==> s[k].mint@ != mint,
    decreases s.len(),
{
    if s.len() > 0 && s[0].mint@ != mint {
        lemma_token_first_idx(s.drop_first(), mint);
        let i = token_first_idx(s, mint);
        assert(i == 1 + token_first_idx(s.drop_first(), mint));
        if i < s.len() {
            assert(s[i] == s.drop_first()[i - 1]);
        }
        assert forall|k: int| 0 <= k < i implies s[k].mint@ != mint by {
            if k > 0 {
                assert(s[k] == s.drop_first()[k - 1]);
            }
        }
    }
}

/// The first account index points at the first match, and at the length
/// when there is no match.
pub proof fn lemma_account_first_idx(s: Seq<AccountRecord>, holder: Seq<u8>, mint: Seq<u8>)
    ensures
        0 <= account_first_idx(s, holder, mint) <= s.len(),
        account_first_idx(s, holder, mint) < s.len() ==> {
            let i = account_first_idx(s, holder, mint);
            s[i].holder@ == holder && s[i].mint@ == mint && account_lookup(s, holder, mint)
                == Some(s[i])
        },
        account_first_idx(s, holder, mint) == s.len() ==> account_lookup(s, holder, mint) is None,
        forall|k: int|
            0 <= k < account_first_idx(s, holder, mint) ==> !(s[k].holder@ == holder
                && s[k].mint@ == mint),
    decreases s.len(),
{
    if s.len() > 0 && !(s[0].holder@ == holder && s[0].mint@ == mint) {
        lemma_account_first_idx(s.drop_first(), holder, mint);
        let i = account_first_idx(s, holder, mint);
        assert(i == 1 + account_first_idx(s.drop_first(), holder, mint));
        if i < s.len() {
            assert(s[i] == s.drop_first()[i - 1]);
        }
        assert forall|k: int| 0 <= k < i implies !(s[k].holder@ == holder && s[k].mint@ == mint) by {
            if k > 0 {
                assert(s[k] == s.drop_first()[k - 1]);
            }
        }
    }
}

/// How every token lookup reads through an update that keeps the mint of
/// the updated record.
pub proof fn lemma_token_lookup_update(s: Seq<TokenRecord>, i: int, t: TokenRecord)
    requires
        0 <= i < s.len(),
        s[i].mint@ == t.mint@,
        forall|k: int| 0 <= k < i ==> s[k].mint@ != t.mint@,
    ensures
        forall|m: Seq<u8>| #[trigger] token_lookup(s.update(i, t), m) == if m == t.mint@ {
            Some(t)
        } else {
            token_lookup(s, m)
        },
    decreases s.len(),
{
    if i == 0 {
        assert forall|m: Seq<u8>| #[trigger] token_lookup(s.update(0, t), m) == (if m == t.mint@ {
            Some(t)
        } else {
            token_lookup(s, m)
        }) by {
            assert(s.update(0, t)[0] == t);
            assert(s.update(0, t).drop_first() =~= s.drop_first());
            assert(token_lookup(s.update(0, t).drop_first(), m) == token_lookup(s.drop_first(), m));
        }
    } else {
        assert(s.drop_first()[i - 1] == s[i]);
        assert forall|k: int| 0 <= k < i - 1 implies s.drop_first()[k].mint@ != t.mint@ by {
            assert(s.drop_first()[k] == s[k + 1]);
        }
        lemma_token_lookup_update(s.drop_first(), i - 1, t);
        assert forall|m: Seq<u8>| #[trigger] token_lookup(s.update(i, t), m) == (if m == t.mint@ {
            Some(t)
        } else {
            token_lookup(s, m)
        }) by {
            assert(s.update(i, t)[0] == s[0]);
            assert(s.update(i, t).drop_first() =~= s.drop_first().update(i - 1, t));
            assert(token_lookup(s.update(i, t).drop_first(), m) == token_lookup(
                s.drop_first().update(i - 1, t),
                m,
            ));
        }
    }
}

/// How every token lookup reads through a push.
pub proof fn lemma_token_lookup_push(s: Seq<TokenRecord>, t: TokenRecord)
    ensures
        forall|m: Seq<u8>| #[trigger] token_lookup(s.push(t), m) == if token_lookup(s, m) is Some {
            token_lookup(s, m)
        } else if m == t.mint@ {
            Some(t)
        } else {
            None
        },
    decreases s.len(),
{
    if s.len() == 0 {
        assert forall|m: Seq<u8>| #[trigger] token_lookup(s.push(t), m) == (if token_lookup(s, m)
            is Some {
            token_lookup(s, m)
        } else if m == t.mint@ {
            Some(t)
        } else {
            None
        }) by {
            assert(s.push(t)[0] == t);
            assert(s.push(t).drop_first() =~= Seq::<TokenRecord>::empty());
            assert(token_lookup(s.push(t).drop_first(), m) is None);
            assert(token_lookup(s, m) is None);
        }
    } else {
        lemma_token_lookup_push(s.drop_first(), t);
        assert forall|m: Seq<u8>| #[trigger] token_lookup(s.push(t), m) == (if token_lookup(s, m)
            is Some {
            token_lookup(s, m)
        } else if m == t.mint@ {
            Some(t)
        } else {
            None
        }) by {
            assert(s.push(t)[0] == s[0]);
            assert(s.push(t).drop_first() =~= s.drop_first().push(t));
            assert(token_lookup(s.push(t).drop_first(), m) == token_lookup(
                s.drop_first().push(t),
                m,
            ));
        }
    }
}

/// How every account lookup reads through an update that keeps the
/// holder and mint of the updated record.
pub proof fn lemma_account_lookup_update(s: Seq<AccountRecord>, i: int, a: AccountRecord)
    requires
        0 <= i < s.len(),
        s[i].holder@ == a.holder@,
        s[i].mint@ == a.mint@,
        forall|k: int| 0 <= k < i ==> !(s[k].holder@ == a.holder@ && s[k].mint@ == a.mint@),
    ensures
        forall|h: Seq<u8>, m: Seq<u8>| #[trigger] account_lookup(s.update(i, a), h, m) == if h
            == a.holder@ && m == a.mint@ {
            Some(a)
        } else {
            account_lookup(s, h, m)
        },
    decreases s.len(),
{
    if i == 0 {
        assert forall|h: Seq<u8>, m: Seq<u8>| #[trigger] account_lookup(s.update(0, a), h, m)
            == (if h == a.holder@ && m == a.mint@ {
            Some(a)
        } else {
            account_lookup(s, h, m)
        }) by {
            assert(s.update(0, a)[0] == a);
            assert(s.update(0, a).drop_first() =~= s.drop_first());
            assert(account_lookup(s.update(0, a).drop_first(), h, m) == account_lookup(
                s.drop_first(),
                h,
                m,
            ));
        }
    } else {
        assert(s.drop_first()[i - 1] == s[i]);
        assert forall|k: int|
            0 <= k < i - 1 implies !(s.drop_first()[k].holder@ == a.holder@
            && s.drop_first()[k].mint@ == a.mint@) by {
            assert(s.drop_first()[k] == s[k + 1]);
        }
        lemma_account_lookup_update(s.drop_first(), i - 1, a);
        assert forall|h: Seq<u8>, m: Seq<u8>| #[trigger] account_lookup(s.update(i, a), h, m)
            == (if h == a.holder@ && m == a.mint@ {
            Some(a)
        } else {
            account_lookup(s, h, m)
        }) by {
            assert(s.update(i, a)[0] == s[0]);
            assert(s.update(i, a).drop_first() =~= s.drop_first().update(i - 1, a));
            assert(account_lookup(s.update(i, a).drop_first(), h, m) == account_lookup(
                s.drop_first().update(i - 1, a),
                h,
                m,
            ));
        }
    }
}

/// How every account lookup reads through a push.
pub proof fn lemma_account_lookup_push(s: Seq<AccountRecord>, a: AccountRecord)
    ensures
        forall|h: Seq<u8>, m: Seq<u8>| #[trigger] account_lookup(s.push(a), h, m)
            == if account_lookup(s, h, m) is Some {
            account_lookup(s, h, m)
        } else if h == a.holder@ && m == a.mint@ {
            Some(a)
        } else {
            None
        },
    decreases s.len(),
{
    if s.len() == 0 {
        assert forall|h: Seq<u8>, m: Seq<u8>| #[trigger] account_lookup(s.push(a), h, m)
            == (if account_lookup(s, h, m) is Some {
            account_lookup(s, h, m)
        } else if h == a.holder@ && m == a.mint@ {
            Some(a)
        } else {
            None
        }) by {
            assert(s.push(a)[0] == a);
            assert(s.push(a).drop_first() =~= Seq::<AccountRecord>::empty());
            assert(account_lookup(s.push(a).drop_first(), h, m) is None);
            assert(account_lookup(s, h, m) is None);
        }
    } else {
        lemma_account_lookup_push(s.drop_first(), a);
        assert forall|h: Seq<u8>, m: Seq<u8>| #[trigger] account_lookup(s.push(a), h, m)
            == (if account_lookup(s, h, m) is Some {
            account_lookup(s, h, m)
        } else if h == a.holder@ && m == a.mint@ {
            Some(a)
        } else {
            None
        }) by {
            assert(s.push(a)[0] == s[0]);
            assert(s.push(a).drop_first() =~= s.drop_first().push(a));
            assert(account_lookup(s.push(a).drop_first(), h, m) == account_lookup(
                s.drop_first().push(a),
                h,
                m,
            ));
        }
    }
}

/// How the sum of balances changes under a push.
pub proof fn lemma_sum_push(s: Seq<AccountRecord>, a: AccountRecord)
    ensures
        forall|m: Seq<u8>| #[trigger] sum_balances(s.push(a), m) == sum_balances(s, m)
            + contribution(a, m),
    decreases s.len(),
{
    if s.len() == 0 {
        assert forall|m: Seq<u8>| #[trigger] sum_balances(s.push(a), m) == sum_balances(s, m)
            + contribution(a, m) by {
            assert(s.push(a)[0] == a);
            assert(s.push(a).drop_first() =~= Seq::<AccountRecord>::empty());
            assert(sum_balances(s.push(a).drop_first(), m) == 0);
            assert(sum_balances(s, m) == 0);
        }
    } else {
        lemma_sum_push(s.drop_first(), a);
        assert forall|m: Seq<u8>| #[trigger] sum_balances(s.push(a), m) == sum_balances(s, m)
            + contribution(a, m) by {
            assert(s.push(a)[0] == s[0]);
            assert(s.push(a).drop_first() =~= s.drop_first().push(a));
            assert(sum_balances(s.push(a).drop_first(), m) == sum_balances(
                s.drop_first().push(a),
                m,
            ));
        }
    }
}

/// How the sum of balances changes under an update.
pub proof fn lemma_sum_update(s: Seq<AccountRecord>, i: int, a: AccountRecord)
    requires
        0 <= i < s.len(),
    ensures
        forall|m: Seq<u8>| #[trigger] sum_balances(s.update(i, a), m) == sum_balances(s, m)
            - contribution(s[i], m) + contribution(a, m),
    decreases s.len(),
{
    if i == 0 {
        assert forall|m: Seq<u8>| #[trigger] sum_balances(s.update(0, a), m) == sum_balances(s, m)
            - contribution(s[0], m) + contribution(a, m) by {
            assert(s.update(0, a)[0] == a);
            assert(s.update(0, a).drop_first() =~= s.drop_first());
            assert(sum_balances(s.update(0, a).drop_first(), m) == sum_balances(s.drop_first(), m));
        }
    } else {
        lemma_sum_update(s.drop_first(), i - 1, a);
        assert(s.drop_first()[i - 1] == s[i]);
        assert forall|m: Seq<u8>| #[trigger] sum_balances(s.update(i, a), m) == sum_balances(s, m)
            - contribution(s[i], m) + contribution(a, m) by {
            assert(s.update(i, a)[0] == s[0]);
            assert(s.update(i, a).drop_first() =~= s.drop_first().update(i - 1, a));
            assert(sum_balances(s.update(i, a).drop_first(), m) == sum_balances(
                s.drop_first().update(i - 1, a),
                m,
            ));
        }
    }
}

/// Sums of balances are never negative, and no single balance exceeds
/// the sum for its mint.
pub proof fn lemma_balance_le_sum(s: Seq<AccountRecord>, holder: Seq<u8>, mint: Seq<u8>)
    ensures
        sum_balances(s, mint) >= 0,
        balance_in(s, holder, mint) <= sum_balances(s, mint),
    decreases s.len(),
{
    if s.len() > 0 {
        lemma_balance_le_sum(s.drop_first(), holder, mint);
    }
}

impl LedgerModel {
    /// The ledger with no tokens and no balances.
    pub open spec fn empty() -> LedgerModel {
        LedgerModel { tokens: Seq::empty(), accounts: Seq::empty() }
    }

    /// Well-formedness of the ledger: token mints are unique, each holder
    /// has at most one balance record per mint, every balance record
    /// belongs to an existing token, and every token's recorded supply is
    /// exactly the sum of the balances of that token.
    pub open spec fn wf(self) -> bool {
        &&& forall|i: int, j: int|
            0 <= i < j < self.tokens.len() ==> (#[trigger] self.tokens[i].mint@)
                != (#[trigger] self.tokens[j].mint@)
        &&& forall|i: int, j: int|
            0 <= i < j < self.accounts.len() ==> !((#[trigger] self.accounts[i]).holder@
                == (#[trigger] self.accounts[j]).holder@ && self.accounts[i].mint@
                == self.accounts[j].mint@)
        &&& forall|i: int|
            0 <= i < self.accounts.len() ==> token_lookup(
                self.tokens,
                (#[trigger] self.accounts[i]).mint@,
            ) is Some
        &&& forall|i: int|
            0 <= i < self.tokens.len() ==> (#[trigger] self.tokens[i]).supply as int
                == sum_balances(self.accounts, self.tokens[i].mint@)
    }

    /// Whether a token with this mint exists.
    pub open spec fn has_token(self, mint: Seq<u8>) -> bool {
        token_lookup(self.tokens, mint) is Some
    }

    /// The outstanding supply of a token, if it exists.
    pub open spec fn supply_of(self, mint: Seq<u8>) -> Option<u64> {
        match token_lookup(self.tokens, mint) {
            Some(t) => Some(t.supply),
            None => None,
        }
    }

    /// The current mint authority of a token, if it exists.
    pub open spec fn authority_of(self, mint: Seq<u8>) -> Option<Seq<u8>> {
        match token_lookup(self.tokens, mint) {
            Some(t) => Some(t.authority@),
            None => None,
        }
    }

    /// `holder`'s balance of `mint`; zero when no record exists.
    pub open spec fn balance_of(self, holder: Seq<u8>, mint: Seq<u8>) -> u64 {
        balance_in(self.accounts, holder, mint)
    }

    /// Creating a token: fails with `InvalidMint` when the mint already
    /// exists, otherwise appends a token with zero supply under the given
    /// authority.
    pub open spec fn create_token(self, mint: Address, authority: Address) -> (LedgerModel, Result<
        (),
        BridgeError,
    >) {
        if token_lookup(self.tokens, mint@) is Some {
            (self, Err(BridgeError::InvalidMint))
        } else {
            (
                LedgerModel {
                    tokens: self.tokens.push(TokenRecord { mint, authority, supply: 0 }),
                    accounts: self.accounts,
                },
                Ok(()),
            )
        }
    }

    /// Minting: fails with `InvalidMint` when the token does not exist
    /// and with `Unauthorized` when the caller is not its current mint
    /// authority; otherwise raises `dest`'s balance and the supply by
    /// `amount`, creating the balance record when there is none.
    pub open spec fn mint_to(
        self,
        caller: Address,
        mint: Address,
        dest: Address,
        amount: u64,
    ) -> (LedgerModel, Result<(), BridgeError>) {
        match token_lookup(self.tokens, mint@) {
            None => (self, Err(BridgeError::InvalidMint)),
            Some(t) => {
                if t.authority@ != caller@ {
                    (self, Err(BridgeError::Unauthorized))
                } else {
                    let ti = token_first_idx(self.tokens, mint@);
                    let tokens2 = self.tokens.update(
                        ti,
                        TokenRecord {
                            mint: t.mint,
                            authority: t.authority,
                            supply: (t.supply + amount) as u64,
                        },
                    );
                    let accounts2 = match account_lookup(self.accounts, dest@, mint@) {
                        Some(a) => self.accounts.update(
                            account_first_idx(self.accounts, dest@, mint@),
                            AccountRecord {
                                holder: a.holder,
                                mint: a.mint,
                                amount: (a.amount + amount) as u64,
                            },
                        ),
                        None => self.accounts.push(
                            AccountRecord { holder: dest, mint, amount },
                        ),
                    };
                    (LedgerModel { tokens: tokens2, accounts: accounts2 }, Ok(()))
                }
            },
        }
    }

    /// Burning: fails with `InsufficientFunds` when `amount` exceeds the
    /// caller's balance, otherwise lowers the caller's balance and the
    /// token's supply by `amount`.
    pub open spec fn burn(self, caller: Address, mint: Address, amount: u64) -> (LedgerModel, Result<
        (),
        BridgeError,
    >) {
        if amount > balance_in(self.accounts, caller@, mint@) {
            (self, Err(BridgeError::InsufficientFunds))
        } else {
            let ai = account_first_idx(self.accounts, caller@, mint@);
            let ti = token_first_idx(self.tokens, mint@);
            let a = self.accounts[ai];
            let t = self.tokens[ti];
            (
                LedgerModel {
                    tokens: self.tokens.update(
                        ti,
                        TokenRecord {
                            mint: t.mint,
                            authority: t.authority,
                            supply: (t.supply - amount) as u64,
                        },
                    ),
                    accounts: self.accounts.update(
                        ai,
                        AccountRecord {
                            holder: a.holder,
                            mint: a.mint,
                            amount: (a.amount - amount) as u64,
                        },
                    ),
                },
                Ok(()),
            )
        }
    }

    /// Transferring mint authority: fails with `InvalidMint` when the
    /// token does not exist and with `Unauthorized` when the caller is
    /// not its current authority; otherwise the token's authority becomes
    /// `new_authority`.
    pub open spec fn set_authority(self, caller: Address, mint: Address, new_authority: Address) -> (
        LedgerModel,
        Result<(), BridgeError>,
    ) {
        match token_lookup(self.tokens, mint@) {
            None => (self, Err(BridgeError::InvalidMint)),
            Some(t) => {
                if t.authority@ != caller@ {
                    (self, Err(BridgeError::Unauthorized))
                } else {
                    (
                        LedgerModel {
                            tokens: self.tokens.update(
                                token_first_idx(self.tokens, mint@),
                                TokenRecord {
                                    mint: t.mint,
                                    authority: new_authority,
                                    supply: t.supply,
                                },
                            ),
                            accounts: self.accounts,
                        },
                        Ok(()),
                    )
                }
            },
        }
    }

    /// No minting step overflows the token's supply counter: whenever the
    /// caller is the token's authority, the new supply fits in 64 bits.
    pub open spec fn mint_fits(self, caller: Seq<u8>, mint: Seq<u8>, amount: u64) -> bool {
        match token_lookup(self.tokens, mint) {
            Some(t) => t.authority@ == caller ==> t.supply + amount <= u64::MAX,
            None => true,
        }
    }
}

/// A mint that appears in no balance record has a zero sum of balances.
pub proof fn lemma_sum_absent(s: Seq<AccountRecord>, mint: Seq<u8>)
    requires
        forall|k: int| 0 <= k < s.len() ==> s[k].mint@ != mint,
    ensures
        sum_balances(s, mint) == 0,
    decreases s.len(),
{
    if s.len() > 0 {
        lemma_sum_absent(s.drop_first(), mint);
    }
}

/// The executable ledger. Its mathematical state is a [`LedgerModel`];
/// every operation is proved to perform exactly the corresponding model
/// transition and to preserve [`LedgerModel::wf`].
pub struct TokenLedger {
    pub tokens: Vec<TokenRecord>,
    pub accounts: Vec<AccountRecord>,
}

impl View for TokenLedger {
    type V = LedgerModel;

    open spec fn view(&self) -> LedgerModel {
        LedgerModel { tokens: self.tokens@, accounts: self.accounts@ }
    }
}

impl TokenLedger {
    /// A ledger with no tokens and no balances.
    pub fn new() -> (r: TokenLedger)
        ensures
            r@ == LedgerModel::empty(),
            r@.wf(),
    {
        let l = TokenLedger { tokens: Vec::new(), accounts: Vec::new() };
        proof {
            assert(l@ =~= LedgerModel::empty());
        }
        l
    }

    /// The position of the token record for `mint`, if there is one.
    fn find_token(&self, mint: &Address) -> (r: Option<usize>)
        ensures
            match r {
                Some(i) => {
                    &&& i as int == token_first_idx(self.tokens@, mint@)
                    &&& i < self.tokens@.len()
                    &&& self.tokens@[i as int].mint@ == mint@
                    &&& token_lookup(self.tokens@, mint@) == Some(self.tokens@[i as int])
                },
                None => token_lookup(self.tokens@, mint@) is None,
            },
    {
        let mut i: usize = 0;
        while i < self.tokens.len()
            invariant
                i <= self.tokens@.len(),
                forall|k: int| 0 <= k < i ==> (#[trigger] self.tokens@[k]).mint@ != mint@,
            decreases self.tokens@.len() - i,
        {
            if self.tokens[i].mint.eq_addr(mint) {
                proof {
                    lemma_token_first_idx(self.tokens@, mint@);
                }
                return Some(i);
            }
            i += 1;
        }
        proof {
            lemma_token_first_idx(self.tokens@, mint@);
        }
        None
    }

    /// The position of `holder`'s balance record for `mint`, if there is
    /// one.
    fn find_account(&self, holder: &Address, mint: &Address) -> (r: Option<usize>)
        ensures
            match r {
                Some(i) => {
                    &&& i as int == account_first_idx(self.accounts@, holder@, mint@)
                    &&& i < self.accounts@.len()
                    &&& self.accounts@[i as int].holder@ == holder@
                    &&& self.accounts@[i as int].mint@ == mint@
                    &&& account_lookup(self.accounts@, holder@, mint@) == Some(
                        self.accounts@[i as int],
                    )
                },
                None => account_lookup(self.accounts@, holder@, mint@) is None,
            },
    {
        let mut i: usize = 0;
        while i < self.accounts.len()
            invariant
                i <= self.accounts@.len(),
                forall|k: int|
                    0 <= k < i ==> !((#[trigger] self.accounts@[k]).holder@ == holder@
                        && self.accounts@[k].mint@ == mint@),
            decreases self.accounts@.len() - i,
        {
            if self.accounts[i].holder.eq_addr(holder) && self.accounts[i].mint.eq_addr(mint) {
                proof {
                    lemma_account_first_idx(self.accounts@, holder@, mint@);
                }
                return Some(i);
            }
            i += 1;
        }
        proof {
            lemma_account_first_idx(self.accounts@, holder@, mint@);
        }
        None
    }

    /// Creates a token with zero supply under `authority`, or fails with
    /// `InvalidMint` when the mint already exists.
    pub fn create_token(&mut self, mint: Address, authority: Address) -> (r: Result<
        (),
        BridgeError,
    >)
        requires
            old(self)@.wf(),
        ensures
            final(self)@.wf(),
            ({
                let (m2, res) = old(self)@.create_token(mint, authority);
                final(self)@ == m2 && r == res
            }),
    {
        if self.find_token(&mint).is_some() {
            return Err(BridgeError::InvalidMint);
        }
        let t = TokenRecord { mint, authority, supply: 0 };
        self.tokens.push(t);
        proof {
            let s0 = old(self)@;
            lemma_token_first_idx(s0.tokens, mint@);
            lemma_token_lookup_push(s0.tokens, t);
            assert forall|k: int|
                0 <= k < s0.accounts.len() implies (#[trigger] s0.accounts[k]).mint@ != mint@ by {
                assert(token_lookup(s0.tokens, s0.accounts[k].mint@) is Some);
            }
            lemma_sum_absent(s0.accounts, mint@);
            assert(self@ =~= s0.create_token(mint, authority).0);
        }
        Ok(())
    }

    /// Transfers the token's mint authority to `new_authority`; only the
    /// current authority may do so.
    pub fn set_authority(&mut self, caller: &Address, mint: &Address, new_authority: &Address) -> (r:
        Result<(), BridgeError>)
        requires
            old(self)@.wf(),
        ensures
            final(self)@.wf(),
            ({
                let (m2, res) = old(self)@.set_authority(*caller, *mint, *new_authority);
                final(self)@ == m2 && r == res
            }),
    {
        let ti = match self.find_token(mint) {
            Some(i) => i,
            None => {
                return Err(BridgeError::InvalidMint);
            },
        };
        let t = self.tokens[ti];
        if !t.authority.eq_addr(caller) {
            return Err(BridgeError::Unauthorized);
        }
        let t2 = TokenRecord { mint: t.mint, authority: *new_authority, supply: t.supply };
        self.tokens[ti] = t2;
        proof {
            let s0 = old(self)@;
            lemma_token_first_idx(s0.tokens, mint@);
            lemma_token_lookup_update(s0.tokens, ti as int, t2);
            assert(self@ =~= s0.set_authority(*caller, *mint, *new_authority).0);
        }
        Ok(())
    }

    /// Mints `amount` of `mint` to `dest`; only the token's current mint
    /// authority may do so.
    pub fn mint_to(&mut self, caller: &Address, mint: &Address, dest: &Address, amount: u64) -> (r:
        Result<(), BridgeError>)
        requires
            old(self)@.wf(),
            old(self)@.mint_fits(caller@, mint@, amount),
        ensures
            final(self)@.wf(),
            ({
                let (m2, res) = old(self)@.mint_to(*caller, *mint, *dest, amount);
                final(self)@ == m2 && r == res
            }),
    {
        let ti = match self.find_token(mint) {
            Some(i) => i,
            None => {
                return Err(BridgeError::InvalidMint);
            },
        };
        let t = self.tokens[ti];
        if !t.authority.eq_addr(caller) {
            return Err(BridgeError::Unauthorized);
        }
        let t2 = TokenRecord { mint: t.mint, authority: t.authority, supply: t.supply + amount };
        self.tokens[ti] = t2;
        proof {
            lemma_token_first_idx(old(self)@.tokens, mint@);
            lemma_token_lookup_update(old(self)@.tokens, ti as int, t2);
        }
        match self.find_account(dest, mint) {
            Some(ai) => {
                let a = self.accounts[ai];
                proof {
                    let s0 = old(self)@;
                    lemma_balance_le_sum(s0.accounts, dest@, mint@);
                    assert(s0.tokens[ti as int].supply as int == sum_balances(
                        s0.accounts,
                        s0.tokens[ti as int].mint@,
                    ));
                }
                let a2 = AccountRecord {
                    holder: a.holder,
                    mint: a.mint,
                    amount: a.amount + amount,
                };
                self.accounts[ai] = a2;
                proof {
                    let s0 = old(self)@;
                    lemma_account_first_idx(s0.accounts, dest@, mint@);
                    lemma_account_lookup_update(s0.accounts, ai as int, a2);
                    lemma_sum_update(s0.accounts, ai as int, a2);
                    assert(self@ =~= s0.mint_to(*caller, *mint, *dest, amount).0);
                }
            },
            None => {
                let a2 = AccountRecord { holder: *dest, mint: *mint, amount };
                proof {
                    lemma_account_first_idx(old(self)@.accounts, dest@, mint@);
                }
                self.accounts.push(a2);
                proof {
                    let s0 = old(self)@;
                    lemma_account_lookup_push(s0.accounts, a2);
                    lemma_sum_push(s0.accounts, a2);
                    assert(self@ =~= s0.mint_to(*caller, *mint, *dest, amount).0);
                }
            },
        }
        Ok(())
    }

    /// Burns `amount` of `mint` from the caller's balance, or fails with
    /// `InsufficientFunds` when the balance does not cover it.
    pub fn burn(&mut self, caller: &Address, mint: &Address, amount: u64) -> (r: Result<
        (),
        BridgeError,
    >)
        requires
            old(self)@.wf(),
            amount >= 1,
        ensures
            final(self)@.wf(),
            ({
                let (m2, res) = old(self)@.burn(*caller, *mint, amount);
                final(self)@ == m2 && r == res
            }),
    {
        let ai = match self.find_account(caller, mint) {
            Some(i) => i,
            None => {
                return Err(BridgeError::InsufficientFunds);
            },
        };
        let a = self.accounts[ai];
        if amount > a.amount {
            return Err(BridgeError::InsufficientFunds);
        }
        let ti = match self.find_token(mint) {
            Some(i) => i,
            None => {
                // Unreachable: a balance record exists for this mint, so
                // by well-formedness the token exists too.
                proof {
                    assert(token_lookup(self@.tokens, self@.accounts[ai as int].mint@) is Some);
                    assert(false);
                }
                return Err(BridgeError::InvalidMint);
            },
        };
        let t = self.tokens[ti];
        proof {
            let s0 = old(self)@;
            lemma_balance_le_sum(s0.accounts, caller@, mint@);
            assert(s0.tokens[ti as int].supply as int == sum_balances(
                s0.accounts,
                s0.tokens[ti as int].mint@,
            ));
        }
        let t2 = TokenRecord { mint: t.mint, authority: t.authority, supply: t.supply - amount };
        self.tokens[ti] = t2;
        let a2 = AccountRecord { holder: a.holder, mint: a.mint, amount: a.amount - amount };
        self.accounts[ai] = a2;
        proof {
            let s0 = old(self)@;
            lemma_token_first_idx(s0.tokens, mint@);
            lemma_token_lookup_update(s0.tokens, ti as int, t2);
            lemma_account_first_idx(s0.accounts, caller@, mint@);
            lemma_account_lookup_update(s0.accounts, ai as int, a2);
            lemma_sum_update(s0.accounts, ai as int, a2);
            assert(self@ =~= s0.burn(*caller, *mint, amount).0);
        }
        Ok(())
    }

    /// The outstanding supply of a token, if it exists.
    pub fn supply_of(&self, mint: &Address) -> (r: Option<u64>)
        ensures
            r == self@.supply_of(mint@),
    {
        match self.find_token(mint) {
            Some(i) => Some(self.tokens[i].supply),
            None => None,
        }
    }

    /// The current mint authority of a token, if it exists.
    pub fn authority_of(&self, mint: &Address) -> (r: Option<Address>)
        ensures
            match r {
                Some(a) => self@.authority_of(mint@) == Some(a@),
                None => self@.authority_of(mint@) is None,
            },
    {
        match self.find_token(mint) {
            Some(i) => Some(self.tokens[i].authority),
            None => None,
        }
    }

    /// `holder`'s balance of `mint`; zero when no record exists.
    pub fn balance_of(&self, holder: &Address, mint: &Address) -> (r: u64)
        ensures
            r == self@.balance_of(holder@, mint@),
    {
        match self.find_account(holder, mint) {
            Some(i) => self.accounts[i].amount,
            None => 0,
        }
    }
}

} // verus!
