//! A reference vault: the smallest state machine that honours every
//! guarantee the message protocol demands of an implementation — the
//! rounding direction of previews, the authority of the `Max*` bounds,
//! purity of queries, and hard rejection of extension calls for
//! capabilities the build does not include. It is both a demonstration
//! that the contracts are satisfiable and the subject of the protocol
//! laws proved at the bottom of this file.

use vstd::prelude::*;
use vstd::string::*;
use vstd::arithmetic::div_mod::{lemma_fundamental_div_mod, lemma_mod_bound};

use crate::codec::{enc_standard_info, vault_standard_info_to_json};
use crate::error::VaultError;
use crate::msg::{
    ExecuteMsg, ExecuteMsgView, ExtensionExecuteMsg, ExtensionExecuteMsgView, ExtensionQueryMsg,
    ExtensionQueryMsgView, QueryMsg, QueryMsgView, VaultInfo, VaultStandardInfo,
    VaultStandardInfoView,
};
use crate::token::Token;

verus! {

/// Shares minted for `amount` base tokens against the given totals,
/// rounded down. An empty vault prices one to one. (The arm also covers
/// totals with no assets behind outstanding supply, a state no
/// well-formed vault reaches.)
pub open spec fn spec_shares(assets: nat, supply: nat, amount: nat) -> nat {
    if supply == 0 || assets == 0 {
        amount
    } else {
        amount * supply / assets
    }
}

/// Assets returned for `shares` vault tokens against the given totals,
/// rounded down. With no supply outstanding the price is one to one.
pub open spec fn spec_assets(assets: nat, supply: nat, shares: nat) -> nat {
    if supply == 0 {
        shares
    } else {
        shares * assets / supply
    }
}

/// The state a vault keeps: its configuration (fixed at construction)
/// and the two running totals of its accounting.
pub struct Vault {
    /// The asset accepted for deposits and paid out on redemption.
    pub base_token: Token,
    /// The accounting token representing a claim on the vault.
    pub vault_token: Token,
    /// Protocol version this vault speaks.
    pub version: u16,
    /// Whether the keeper capability is part of this build.
    pub keeper_enabled: bool,
    /// Whether the lockup capability is part of this build.
    pub lockup_enabled: bool,
    /// When set, deposits are disabled entirely and `MaxDeposit` answers
    /// an explicit zero.
    pub paused: bool,
    /// Global cap on total assets under management; `None` means no limit
    /// is configured.
    pub deposit_cap: Option<u128>,
    /// Assets under management, in base tokens.
    pub total_assets: u128,
    /// Circulating vault tokens.
    pub total_supply: u128,
    /// The serialized `VaultStandardInfo`, stored at the well-known
    /// `vault_standard_info` key so integrators can read it without a
    /// query round trip.
    pub raw_standard_info: String,
}

/// The extension names a build with the given capabilities advertises,
/// in registration order.
pub open spec fn spec_extension_names(keeper_enabled: bool, lockup_enabled: bool) -> Seq<
    Seq<char>,
> {
    if keeper_enabled && lockup_enabled {
        seq!["keeper"@, "lockup"@]
    } else if keeper_enabled {
        seq!["keeper"@]
    } else if lockup_enabled {
        seq!["lockup"@]
    } else {
        Seq::empty()
    }
}

impl Vault {
    /// The extension names this vault advertises, in registration order.
    pub open spec fn spec_extensions(self) -> Seq<Seq<char>> {
        spec_extension_names(self.keeper_enabled, self.lockup_enabled)
    }

    pub open spec fn spec_standard_info(self) -> VaultStandardInfoView {
        VaultStandardInfoView { version: self.version, extensions: self.spec_extensions() }
    }

    /// Well-formedness: the stored raw record is exactly the serialized
    /// standard info, the totals respect the configured cap, and the two
    /// totals are coherent — assets and supply are zero only together, so
    /// the share price is the same in both conversion directions.
    pub open spec fn wf(self) -> bool {
        &&& self.raw_standard_info@ == enc_standard_info(self.spec_standard_info())
        &&& (self.deposit_cap matches Some(c) ==> self.total_assets <= c)
        &&& (self.total_assets == 0 <==> self.total_supply == 0)
    }

    /// What `MaxDeposit` answers: an explicit zero while paused, the
    /// remaining headroom under the cap, or `None` when no limit is
    /// configured. Never consults any balance of the recipient.
    pub open spec fn spec_max_deposit(self) -> Option<u128> {
        if self.paused {
            Option::Some(0u128)
        } else {
            match self.deposit_cap {
                Option::Some(c) => Option::Some((c - self.total_assets) as u128),
                Option::None => Option::None,
            }
        }
    }

    /// What `MaxRedeem` answers for an owner holding `owner_balance`
    /// vault tokens: the smaller of the holdings and the circulating
    /// supply.
    pub open spec fn spec_max_redeem(self, owner_balance: u128) -> Option<u128> {
        Option::Some(
            if owner_balance < self.total_supply {
                owner_balance
            } else {
                self.total_supply
            },
        )
    }

    /// Exactly the deposits this vault accepts: a nonzero amount, not
    /// paused, within the cap (or representable when no cap is set), and
    /// with accounting that fits 128-bit arithmetic.
    pub open spec fn deposit_allowed(self, amount: u128) -> bool {
        &&& amount > 0
        &&& !self.paused
        &&& (match self.deposit_cap {
            Option::Some(c) => self.total_assets + amount <= c,
            Option::None => self.total_assets + amount <= u128::MAX,
        })
        &&& (self.total_supply > 0 && self.total_assets > 0 ==> amount * self.total_supply
            <= u128::MAX)
        &&& self.total_supply + spec_shares(
            self.total_assets as nat,
            self.total_supply as nat,
            amount as nat,
        ) <= u128::MAX
    }

    /// Exactly the redemptions this vault accepts: a nonzero amount, no
    /// more than the circulating supply, with representable accounting.
    pub open spec fn redeem_allowed(self, amount: u128) -> bool {
        &&& amount > 0
        &&& amount <= self.total_supply
        &&& (self.total_supply > 0 ==> amount * self.total_assets <= u128::MAX)
    }
}

/// Shares a deposit of `amount` mints from state `v`.
pub open spec fn spec_deposit_shares(v: Vault, amount: u128) -> nat {
    spec_shares(v.total_assets as nat, v.total_supply as nat, amount as nat)
}

/// What `PreviewDeposit` answers from state `v`: fee-inclusive (this
/// vault charges none) and blind to all deposit limits.
pub open spec fn spec_preview_deposit(v: Vault, amount: u128) -> nat {
    spec_shares(v.total_assets as nat, v.total_supply as nat, amount as nat)
}

/// Assets a redemption of `amount` vault tokens pays out from state `v`.
pub open spec fn spec_redeem_assets(v: Vault, amount: u128) -> nat {
    spec_assets(v.total_assets as nat, v.total_supply as nat, amount as nat)
}

/// What `PreviewRedeem` answers from state `v`, under the same
/// no-limits assumption.
pub open spec fn spec_preview_redeem(v: Vault, amount: u128) -> nat {
    spec_assets(v.total_assets as nat, v.total_supply as nat, amount as nat)
}

/// The configuration half of the state is untouched.
pub open spec fn same_config(a: Vault, b: Vault) -> bool {
    &&& a.base_token == b.base_token
    &&& a.vault_token == b.vault_token
    &&& a.version == b.version
    &&& a.keeper_enabled == b.keeper_enabled
    &&& a.lockup_enabled == b.lockup_enabled
    &&& a.paused == b.paused
    &&& a.deposit_cap == b.deposit_cap
    &&& a.raw_standard_info == b.raw_standard_info
}

/// A successful deposit moved exactly the amount in and minted exactly
/// the floor-rounded shares.
pub open spec fn deposit_applied(pre: Vault, post: Vault, amount: u128) -> bool {
    &&& same_config(pre, post)
    &&& post.total_assets == pre.total_assets + amount
    &&& post.total_supply == pre.total_supply + spec_deposit_shares(pre, amount)
}

/// A successful redemption burned exactly the amount and paid exactly
/// the floor-rounded assets.
pub open spec fn redeem_applied(pre: Vault, post: Vault, amount: u128) -> bool {
    &&& same_config(pre, post)
    &&& post.total_assets == pre.total_assets - spec_redeem_assets(pre, amount)
    &&& post.total_supply == pre.total_supply - amount
}

/// What a command produced, mirroring the three command shapes.
#[derive(Debug, PartialEq, Eq)]
pub enum ExecuteResponse {
    Deposited { shares: u128 },
    Redeemed { assets: u128 },
    /// An enabled extension accepted its payload; its own effect is the
    /// module's business, not the base protocol's.
    Extended,
}

/// One response per query shape. The extension response is a bare
/// marker: the base protocol cannot declare a shape it does not know,
/// so concrete deployments special-case extension responses at the
/// runtime boundary.
#[derive(Debug, PartialEq, Eq)]
pub enum QueryResponse {
    StandardInfo(VaultStandardInfo),
    Info(VaultInfo),
    Amount(u128),
    Limit(Option<u128>),
    Extended,
}

impl Vault {
    /// Configure a vault. The standard-info record is serialized once
    /// here and stored raw, so later call-free reads and protocol
    /// queries cannot disagree.
    pub fn new(
        version: u16,
        base_token: Token,
        vault_token: Token,
        keeper_enabled: bool,
        lockup_enabled: bool,
        paused: bool,
        deposit_cap: Option<u128>,
        total_assets: u128,
        total_supply: u128,
    ) -> (r: Vault)
        requires
            deposit_cap matches Some(c) ==> total_assets <= c,
            total_assets == 0 <==> total_supply == 0,
        ensures
            r.wf(),
            r.version == version,
            r.base_token@ == base_token@,
            r.vault_token@ == vault_token@,
            r.keeper_enabled == keeper_enabled,
            r.lockup_enabled == lockup_enabled,
            r.paused == paused,
            r.deposit_cap == deposit_cap,
            r.total_assets == total_assets,
            r.total_supply == total_supply,
    {
        let info = Self::build_standard_info(version, keeper_enabled, lockup_enabled);
        let raw = vault_standard_info_to_json(&info);
        let r = Vault {
            base_token,
            vault_token,
            version,
            keeper_enabled,
            lockup_enabled,
            paused,
            deposit_cap,
            total_assets,
            total_supply,
            raw_standard_info: raw,
        };
        proof {
            assert(info@.extensions =~= r.spec_extensions());
        }
        r
    }

    fn build_standard_info(version: u16, keeper_enabled: bool, lockup_enabled: bool) -> (r:
        VaultStandardInfo)
        ensures
            r@.version == version,
            r@.extensions == spec_extension_names(keeper_enabled, lockup_enabled),
    {
        let mut extensions: Vec<String> = Vec::new();
        if keeper_enabled {
            extensions.push(String::from_str("keeper"));
        }
        if lockup_enabled {
            extensions.push(String::from_str("lockup"));
        }
        let r = VaultStandardInfo { version, extensions };
        proof {
            assert(r@.extensions =~= spec_extension_names(keeper_enabled, lockup_enabled));
        }
        r
    }

    /// The standard-info record this vault advertises, as the
    /// `VaultStandardInfo` query returns it.
    pub fn vault_standard_info(&self) -> (r: VaultStandardInfo)
        ensures
            r@ == self.spec_standard_info(),
    {
        let r = Self::build_standard_info(self.version, self.keeper_enabled, self.lockup_enabled);
        proof {
            assert(r@.extensions =~= self.spec_extensions());
        }
        r
    }

    /// The raw bytes stored at the well-known `vault_standard_info` key:
    /// what a call-free state read observes.
    pub fn raw_standard_info(&self) -> (r: &String)
        ensures
            r@ == self.raw_standard_info@,
    {
        &self.raw_standard_info
    }

    /// Exact circulating vault-token amount.
    pub fn total_vault_token_supply(&self) -> (r: u128)
        ensures
            r == self.total_supply,
    {
        self.total_supply
    }

    /// Assets under management in base tokens.
    pub fn total_assets(&self) -> (r: u128)
        ensures
            r == self.total_assets,
    {
        self.total_assets
    }

    /// Ideal-conditions share conversion: floor-rounded, average-case
    /// pricing, no fees or limits. `None` only when the exact result is
    /// not representable in 128-bit arithmetic.
    pub fn convert_to_shares(&self, amount: u128) -> (r: Option<u128>)
        requires
            self.wf(),
        ensures
            self.total_supply == 0 ==> r == Some(amount),
            self.total_supply > 0 ==> {
                if amount * self.total_supply <= u128::MAX {
                    r matches Some(v) && v as nat == spec_shares(
                        self.total_assets as nat,
                        self.total_supply as nat,
                        amount as nat,
                    )
                } else {
                    r is None
                }
            },
    {
        if self.total_supply == 0 || self.total_assets == 0 {
            return Some(amount);
        }
        match amount.checked_mul(self.total_supply) {
            Some(p) => Some(p / self.total_assets),
            None => None,
        }
    }

    /// Ideal-conditions asset conversion, the inverse view of
    /// `convert_to_shares` under the same pricing.
    pub fn convert_to_assets(&self, amount: u128) -> (r: Option<u128>)
        requires
            self.wf(),
        ensures
            self.total_supply == 0 ==> r == Some(amount),
            self.total_supply > 0 ==> {
                if amount * self.total_assets <= u128::MAX {
                    r matches Some(v) && v as nat == spec_assets(
                        self.total_assets as nat,
                        self.total_supply as nat,
                        amount as nat,
                    )
                } else {
                    r is None
                }
            },
    {
        if self.total_supply == 0 {
            return Some(amount);
        }
        match amount.checked_mul(self.total_assets) {
            Some(p) => Some(p / self.total_supply),
            None => None,
        }
    }

    /// Shares an immediate deposit of `amount` would mint: fee-inclusive
    /// and blind to every deposit limit, as the protocol demands of
    /// `PreviewDeposit`.
    pub fn preview_deposit(&self, amount: u128) -> (r: Option<u128>)
        requires
            self.wf(),
        ensures
            self.total_supply == 0 ==> r == Some(amount),
            self.total_supply > 0 ==> {
                if amount * self.total_supply <= u128::MAX {
                    r matches Some(v) && v as nat == spec_preview_deposit(*self, amount)
                } else {
                    r is None
                }
            },
    {
        self.convert_to_shares(amount)
    }

    /// Assets an immediate redemption of `amount` vault tokens would
    /// return, under the same no-limits assumption.
    pub fn preview_redeem(&self, amount: u128) -> (r: Option<u128>)
        requires
            self.wf(),
        ensures
            self.total_supply == 0 ==> r == Some(amount),
            self.total_supply > 0 ==> {
                if amount * self.total_assets <= u128::MAX {
                    r matches Some(v) && v as nat == spec_preview_redeem(*self, amount)
                } else {
                    r is None
                }
            },
    {
        self.convert_to_assets(amount)
    }

    /// Authoritative upper bound on a deposit for `recipient`. This
    /// vault has no per-user limits, so the answer is uniform in the
    /// recipient, and it never consults anyone's balance.
    pub fn max_deposit(&self, _recipient: &str) -> (r: Option<u128>)
        requires
            self.wf(),
        ensures
            r == self.spec_max_deposit(),
    {
        if self.paused {
            Some(0)
        } else {
            match self.deposit_cap {
                Some(c) => Some(c - self.total_assets),
                None => None,
            }
        }
    }

    /// Upper bound on vault tokens redeemable from holdings of
    /// `owner_balance`, which the hosting chain's bank reports for the
    /// queried owner.
    pub fn max_redeem(&self, owner_balance: u128) -> (r: Option<u128>)
        ensures
            r == self.spec_max_redeem(owner_balance),
    {
        if owner_balance < self.total_supply {
            Some(owner_balance)
        } else {
            Some(self.total_supply)
        }
    }

    /// Accept a deposit: exactly the amounts `deposit_allowed` admits,
    /// minting exactly the floor-rounded shares; anything else is
    /// rejected wholesale with the state untouched.
    pub fn deposit(&mut self, amount: u128) -> (r: Result<u128, VaultError>)
        requires
            old(self).wf(),
        ensures
            final(self).wf(),
            old(self).deposit_allowed(amount) ==> (r matches Ok(shares) && shares as nat
                == spec_deposit_shares(*old(self), amount) && deposit_applied(
                *old(self),
                *final(self),
                amount,
            )),
            !old(self).deposit_allowed(amount) ==> (r matches Err(e) && e == (
            VaultError::LimitExceeded { amount }) && *final(self) == *old(self)),
    {
        if amount == 0 || self.paused {
            return Err(VaultError::LimitExceeded { amount });
        }
        match self.deposit_cap {
            Some(c) => {
                if amount > c - self.total_assets {
                    return Err(VaultError::LimitExceeded { amount });
                }
            },
            None => {
                if amount > u128::MAX - self.total_assets {
                    return Err(VaultError::LimitExceeded { amount });
                }
            },
        }
        let shares: u128 = if self.total_supply == 0 || self.total_assets == 0 {
            amount
        } else {
            match amount.checked_mul(self.total_supply) {
                Some(p) => p / self.total_assets,
                None => {
                    return Err(VaultError::LimitExceeded { amount });
                },
            }
        };
        if shares > u128::MAX - self.total_supply {
            return Err(VaultError::LimitExceeded { amount });
        }
        self.total_assets = self.total_assets + amount;
        self.total_supply = self.total_supply + shares;
        Ok(shares)
    }

    /// Redeem vault tokens: exactly the amounts `redeem_allowed` admits,
    /// paying exactly the floor-rounded assets; anything else is
    /// rejected wholesale with the state untouched.
    pub fn redeem(&mut self, amount: u128) -> (r: Result<u128, VaultError>)
        requires
            old(self).wf(),
        ensures
            final(self).wf(),
            old(self).redeem_allowed(amount) ==> (r matches Ok(assets_out) && assets_out as nat
                == spec_redeem_assets(*old(self), amount) && redeem_applied(
                *old(self),
                *final(self),
                amount,
            )),
            !old(self).redeem_allowed(amount) ==> (r matches Err(e) && e == (
            VaultError::LimitExceeded { amount }) && *final(self) == *old(self)),
    {
        if amount == 0 || amount > self.total_supply {
            return Err(VaultError::LimitExceeded { amount });
        }
        let assets_out: u128 = match amount.checked_mul(self.total_assets) {
            Some(p) => p / self.total_supply,
            None => {
                return Err(VaultError::LimitExceeded { amount });
            },
        };
        proof {
            lemma_redeem_within_assets(
                self.total_assets as nat,
                self.total_supply as nat,
                amount as nat,
            );
        }
        self.total_assets = self.total_assets - assets_out;
        self.total_supply = self.total_supply - amount;
        Ok(assets_out)
    }
}

/// Redeeming no more than the supply never pays out more than the
/// assets under management: everything exactly on a full redemption,
/// strictly less on a partial one.
proof fn lemma_redeem_within_assets(assets: nat, supply: nat, amount: nat)
    requires
        0 < amount <= supply,
        assets > 0,
    ensures
        spec_assets(assets, supply, amount) <= assets,
        amount == supply ==> spec_assets(assets, supply, amount) == assets,
        amount < supply ==> spec_assets(assets, supply, amount) < assets,
{
    assert(amount * assets <= supply * assets) by (nonlinear_arith)
        requires
            amount <= supply,
            assets >= 0,
    ;
    assert(supply * assets / supply == assets) by (nonlinear_arith)
        requires
            supply > 0,
    ;
    assert(amount * assets / supply <= supply * assets / supply) by (nonlinear_arith)
        requires
            amount * assets <= supply * assets,
            supply > 0,
    ;
    if amount < supply {
        let x = (amount * assets) as int;
        let su = supply as int;
        let q = x / su;
        lemma_fundamental_div_mod(x, su);
        lemma_mod_bound(x, su);
        assert(x >= su * q);
        assert(amount * assets < supply * assets) by (nonlinear_arith)
            requires
                amount < supply,
                assets > 0,
        ;
        if q >= assets {
            assert(su * q >= su * (assets as int)) by (nonlinear_arith)
                requires
                    q >= assets as int,
                    su > 0,
            ;
            assert(su * (assets as int) == (supply * assets) as int);
            assert(false);
        }
    }
}

impl Vault {
    /// Dispatch one command. Extension payloads for capabilities this
    /// build does not include are rejected whole with
    /// `UnsupportedExtension` and leave every balance untouched; an
    /// enabled capability's payload is accepted and handed to its module
    /// (whose own effect is outside the base protocol).
    pub fn handle_execute(&mut self, msg: ExecuteMsg) -> (r: Result<ExecuteResponse, VaultError>)
        requires
            old(self).wf(),
        ensures
            final(self).wf(),
            msg@ matches ExecuteMsgView::Deposit { amount, recipient } ==> ({
                &&& old(self).deposit_allowed(amount) ==> (r matches Ok(resp) && resp matches ExecuteResponse::Deposited { shares } && shares as nat == spec_deposit_shares(*old(self), amount) && deposit_applied(*old(self), *final(self), amount))
                &&& !old(self).deposit_allowed(amount) ==> (r matches Err(e) && e == (VaultError::LimitExceeded { amount }) && *final(self) == *old(self))
            }),
            msg@ matches ExecuteMsgView::Redeem { recipient, amount } ==> ({
                &&& old(self).redeem_allowed(amount) ==> (r matches Ok(resp) && resp matches ExecuteResponse::Redeemed { assets } && assets as nat == spec_redeem_assets(*old(self), amount) && redeem_applied(*old(self), *final(self), amount))
                &&& !old(self).redeem_allowed(amount) ==> (r matches Err(e) && e == (VaultError::LimitExceeded { amount }) && *final(self) == *old(self))
            }),
            msg@ matches ExecuteMsgView::VaultExtension(e) ==> *final(self) == *old(self) && (
            match e {
                ExtensionExecuteMsgView::Keeper(p) => {
                    if old(self).keeper_enabled {
                        r matches Ok(resp) && resp == ExecuteResponse::Extended
                    } else {
                        r matches Err(er) && er matches VaultError::UnsupportedExtension {
                            capability,
                        } && capability@ == "keeper"@
                    }
                },
                ExtensionExecuteMsgView::Lockup(p) => {
                    if old(self).lockup_enabled {
                        r matches Ok(resp) && resp == ExecuteResponse::Extended
                    } else {
                        r matches Err(er) && er matches VaultError::UnsupportedExtension {
                            capability,
                        } && capability@ == "lockup"@
                    }
                },
            }),
    {
        match msg {
            ExecuteMsg::Deposit { amount, recipient: _ } => match self.deposit(amount) {
                Ok(shares) => Ok(ExecuteResponse::Deposited { shares }),
                Err(e) => Err(e),
            },
            ExecuteMsg::Redeem { recipient: _, amount } => match self.redeem(amount) {
                Ok(assets) => Ok(ExecuteResponse::Redeemed { assets }),
                Err(e) => Err(e),
            },
            ExecuteMsg::VaultExtension(ext) => match ext {
                ExtensionExecuteMsg::Keeper(_) => {
                    if self.keeper_enabled {
                        Ok(ExecuteResponse::Extended)
                    } else {
                        Err(
                            VaultError::UnsupportedExtension {
                                capability: String::from_str("keeper"),
                            },
                        )
                    }
                },
                ExtensionExecuteMsg::Lockup(_) => {
                    if self.lockup_enabled {
                        Ok(ExecuteResponse::Extended)
                    } else {
                        Err(
                            VaultError::UnsupportedExtension {
                                capability: String::from_str("lockup"),
                            },
                        )
                    }
                },
            },
        }
    }

    /// Answer one query against the current state snapshot. Queries are
    /// pure: the vault is only read. `owner_balance` is the queried
    /// owner's vault-token balance as the hosting chain's bank reports
    /// it; only `MaxRedeem` consults it.
    pub fn handle_query(&self, msg: QueryMsg, owner_balance: u128) -> (r: Result<
        QueryResponse,
        VaultError,
    >)
        requires
            self.wf(),
        ensures
            msg@ matches QueryMsgView::VaultStandardInfo ==> (r matches Ok(resp) && resp matches QueryResponse::StandardInfo(si) && si@ == self.spec_standard_info()),
            msg@ matches QueryMsgView::Info ==> (r matches Ok(resp) && resp matches QueryResponse::Info(vi) && vi@.base_token == self.base_token@ && vi@.vault_token == self.vault_token@),
            msg@ matches QueryMsgView::PreviewDeposit { amount } ==> ({
                if self.total_supply > 0 && self.total_assets > 0 && amount * self.total_supply > u128::MAX {
                    r matches Err(e) && e == (VaultError::LimitExceeded { amount })
                } else {
                    r matches Ok(resp) && resp matches QueryResponse::Amount(v) && v as nat == spec_preview_deposit(*self, amount)
                }
            }),
            msg@ matches QueryMsgView::PreviewRedeem { amount } ==> ({
                if self.total_supply > 0 && amount * self.total_assets > u128::MAX {
                    r matches Err(e) && e == (VaultError::LimitExceeded { amount })
                } else {
                    r matches Ok(resp) && resp matches QueryResponse::Amount(v) && v as nat == spec_preview_redeem(*self, amount)
                }
            }),
            msg@ matches QueryMsgView::MaxDeposit { recipient } ==> (r matches Ok(resp) && resp == QueryResponse::Limit(self.spec_max_deposit())),
            msg@ matches QueryMsgView::MaxRedeem { owner } ==> (r matches Ok(resp) && resp == QueryResponse::Limit(self.spec_max_redeem(owner_balance))),
            msg@ matches QueryMsgView::TotalAssets ==> (r matches Ok(resp) && resp == QueryResponse::Amount(self.total_assets)),
            msg@ matches QueryMsgView::TotalVaultTokenSupply ==> (r matches Ok(resp) && resp == QueryResponse::Amount(self.total_supply)),
            msg@ matches QueryMsgView::ConvertToShares { amount } ==> ({
                if self.total_supply > 0 && self.total_assets > 0 && amount * self.total_supply > u128::MAX {
                    r matches Err(e) && e == (VaultError::LimitExceeded { amount })
                } else {
                    r matches Ok(resp) && resp matches QueryResponse::Amount(v) && v as nat == spec_shares(self.total_assets as nat, self.total_supply as nat, amount as nat)
                }
            }),
            msg@ matches QueryMsgView::ConvertToAssets { amount } ==> ({
                if self.total_supply > 0 && amount * self.total_assets > u128::MAX {
                    r matches Err(e) && e == (VaultError::LimitExceeded { amount })
                } else {
                    r matches Ok(resp) && resp matches QueryResponse::Amount(v) && v as nat == spec_assets(self.total_assets as nat, self.total_supply as nat, amount as nat)
                }
            }),
            msg@ matches QueryMsgView::VaultExtension(e) ==> (match e {
                ExtensionQueryMsgView::Keeper(p) => {
                    if self.keeper_enabled {
                        r matches Ok(resp) && resp == QueryResponse::Extended
                    } else {
                        r matches Err(er) && er matches VaultError::UnsupportedExtension {
                            capability,
                        } && capability@ == "keeper"@
                    }
                },
                ExtensionQueryMsgView::Lockup(p) => {
                    if self.lockup_enabled {
                        r matches Ok(resp) && resp == QueryResponse::Extended
                    } else {
                        r matches Err(er) && er matches VaultError::UnsupportedExtension {
                            capability,
                        } && capability@ == "lockup"@
                    }
                },
            }),
    {
        match msg {
            QueryMsg::VaultStandardInfo {} => Ok(
                QueryResponse::StandardInfo(self.vault_standard_info()),
            ),
            QueryMsg::Info {} => Ok(
                QueryResponse::Info(
                    VaultInfo {
                        base_token: self.base_token.clone(),
                        vault_token: self.vault_token.clone(),
                    },
                ),
            ),
            QueryMsg::PreviewDeposit { amount } => match self.preview_deposit(amount) {
                Some(v) => Ok(QueryResponse::Amount(v)),
                None => Err(VaultError::LimitExceeded { amount }),
            },
            QueryMsg::PreviewRedeem { amount } => match self.preview_redeem(amount) {
                Some(v) => Ok(QueryResponse::Amount(v)),
                None => Err(VaultError::LimitExceeded { amount }),
            },
            QueryMsg::MaxDeposit { recipient } => Ok(
                QueryResponse::Limit(self.max_deposit(recipient.as_str())),
            ),
            QueryMsg::MaxRedeem { owner: _ } => Ok(
                QueryResponse::Limit(self.max_redeem(owner_balance)),
            ),
            QueryMsg::TotalAssets {} => Ok(QueryResponse::Amount(self.total_assets)),
            QueryMsg::TotalVaultTokenSupply {} => Ok(QueryResponse::Amount(self.total_supply)),
            QueryMsg::ConvertToShares { amount } => match self.convert_to_shares(amount) {
                Some(v) => Ok(QueryResponse::Amount(v)),
                None => Err(VaultError::LimitExceeded { amount }),
            },
            QueryMsg::ConvertToAssets { amount } => match self.convert_to_assets(amount) {
                Some(v) => Ok(QueryResponse::Amount(v)),
                None => Err(VaultError::LimitExceeded { amount }),
            },
            QueryMsg::VaultExtension(ext) => match ext {
                ExtensionQueryMsg::Keeper(_) => {
                    if self.keeper_enabled {
                        Ok(QueryResponse::Extended)
                    } else {
                        Err(
                            VaultError::UnsupportedExtension {
                                capability: String::from_str("keeper"),
                            },
                        )
                    }
                },
                ExtensionQueryMsg::Lockup(_) => {
                    if self.lockup_enabled {
                        Ok(QueryResponse::Extended)
                    } else {
                        Err(
                            VaultError::UnsupportedExtension {
                                capability: String::from_str("lockup"),
                            },
                        )
                    }
                },
            },
        }
    }
}

/// A preview of a deposit never promises more shares than an immediate
/// deposit of the same amount mints: in this vault the two agree
/// exactly, so the preview is a tight lower bound.
pub proof fn lemma_preview_deposit_never_overestimates(v: Vault, amount: u128)
    requires
        v.deposit_allowed(amount),
    ensures
        spec_preview_deposit(v, amount) <= spec_deposit_shares(v, amount),
{
}

/// A preview of a redemption never promises more assets than an
/// immediate redemption pays; the two agree exactly here as well.
pub proof fn lemma_preview_redeem_never_overestimates(v: Vault, amount: u128)
    requires
        v.redeem_allowed(amount),
    ensures
        spec_preview_redeem(v, amount) <= spec_redeem_assets(v, amount),
{
}

/// When `MaxDeposit` answers an explicit zero, every deposit is
/// rejected, whatever its amount.
pub proof fn lemma_max_deposit_zero_blocks(v: Vault, amount: u128)
    requires
        v.wf(),
        v.spec_max_deposit() == Option::Some(0u128),
        amount > 0,
    ensures
        !v.deposit_allowed(amount),
{
}

/// When `MaxDeposit` answers `None`, no limit of the vault blocks a
/// deposit: deposits are enabled and uncapped, and any nonzero amount
/// whose accounting fits 128-bit arithmetic is accepted.
pub proof fn lemma_max_deposit_none_no_cap(v: Vault, amount: u128)
    requires
        v.wf(),
        v.spec_max_deposit() is None,
        amount > 0,
        v.total_assets + amount <= u128::MAX,
        v.total_supply > 0 && v.total_assets > 0 ==> amount * v.total_supply <= u128::MAX,
        v.total_supply + spec_shares(v.total_assets as nat, v.total_supply as nat, amount as nat)
            <= u128::MAX,
    ensures
        v.deposit_allowed(amount),
{
}

/// `ConvertToShares` then `ConvertToAssets` under constant well-formed
/// state are approximate inverses: the result never exceeds the input
/// and falls short by at most one rounding unit — the price of one
/// share plus the integer truncation. On an empty vault the round trip
/// is exact.
pub proof fn lemma_convert_round_trip(v: Vault, x: u128)
    requires
        v.wf(),
    ensures
        spec_assets(
            v.total_assets as nat,
            v.total_supply as nat,
            spec_shares(v.total_assets as nat, v.total_supply as nat, x as nat),
        ) <= x as nat,
        v.total_supply == 0 ==> spec_assets(
            v.total_assets as nat,
            v.total_supply as nat,
            spec_shares(v.total_assets as nat, v.total_supply as nat, x as nat),
        ) == x as nat,
        v.total_supply > 0 ==> x as nat - spec_assets(
            v.total_assets as nat,
            v.total_supply as nat,
            spec_shares(v.total_assets as nat, v.total_supply as nat, x as nat),
        ) <= v.total_assets as nat / v.total_supply as nat + 1,
{
    lemma_convert_drift(v.total_assets as nat, v.total_supply as nat, x as nat);
}

/// The arithmetic behind the convert round trip, for any coherent pair
/// of totals.
proof fn lemma_convert_drift(assets: nat, supply: nat, x: nat)
    requires
        supply > 0 ==> assets > 0,
    ensures
        spec_assets(assets, supply, spec_shares(assets, supply, x)) <= x,
        supply == 0 ==> spec_assets(assets, supply, spec_shares(assets, supply, x)) == x,
        supply > 0 ==> x - spec_assets(assets, supply, spec_shares(assets, supply, x)) <= assets
            / supply + 1,
{
    if supply == 0 {
        assert(spec_shares(assets, supply, x) == x);
        assert(spec_assets(assets, supply, x) == x);
    } else {
        let a = assets as int;
        let su = supply as int;
        let xi = x as int;
        let s = (xi * su) / a;
        lemma_fundamental_div_mod(xi * su, a);
        lemma_mod_bound(xi * su, a);
        let r1 = (xi * su) % a;
        assert(xi * su == a * s + r1);
        let x2 = (s * a) / su;
        lemma_fundamental_div_mod(s * a, su);
        lemma_mod_bound(s * a, su);
        let r2 = (s * a) % su;
        assert(s * a == su * x2 + r2);
        assert(su * (xi - x2) == r1 + r2) by (nonlinear_arith)
            requires
                xi * su == a * s + r1,
                s * a == su * x2 + r2,
        ;
        assert(x2 <= xi) by (nonlinear_arith)
            requires
                su * (xi - x2) == r1 + r2,
                r1 >= 0,
                r2 >= 0,
                su > 0,
        ;
        lemma_fundamental_div_mod(a, su);
        lemma_mod_bound(a, su);
        let q = a / su;
        assert(a == su * q + a % su);
        assert(xi - x2 <= q + 1) by (nonlinear_arith)
            requires
                su * (xi - x2) == r1 + r2,
                r1 < a,
                r2 < su,
                a == su * q + a % su,
                a % su >= 0,
                su > 0,
        ;
        assert(spec_shares(assets, supply, x) == s);
        assert(spec_assets(assets, supply, s as nat) == x2);
    }
}

/// Depositing and immediately redeeming the minted shares never returns
/// more than was put in, from any well-formed state: both conversions
/// round down, against the caller.
pub proof fn lemma_deposit_then_redeem_no_gain(v: Vault, x: u128)
    requires
        v.wf(),
    ensures
        spec_assets(
            v.total_assets as nat + x as nat,
            v.total_supply as nat + spec_shares(
                v.total_assets as nat,
                v.total_supply as nat,
                x as nat,
            ),
            spec_shares(v.total_assets as nat, v.total_supply as nat, x as nat),
        ) <= x as nat,
{
    if v.total_supply == 0 {
        // the vault is empty, so the deposit prices one to one and owns
        // the whole new supply
        let xn = x as nat;
        assert(spec_shares(v.total_assets as nat, v.total_supply as nat, xn) == xn);
        if xn > 0 {
            assert(xn * xn / xn == xn) by (nonlinear_arith)
                requires
                    xn > 0,
            ;
        }
    } else {
        lemma_no_gain(v.total_assets as nat, v.total_supply as nat, x as nat);
    }
}

/// The arithmetic behind the no-gain law for a vault with assets and
/// supply outstanding.
proof fn lemma_no_gain(assets: nat, supply: nat, x: nat)
    requires
        assets > 0,
        supply > 0,
    ensures
        spec_assets(
            assets + x,
            supply + spec_shares(assets, supply, x),
            spec_shares(assets, supply, x),
        ) <= x,
{
    let a = assets as int;
    let su = supply as int;
    let xi = x as int;
    let s = (xi * su) / a;
    lemma_fundamental_div_mod(xi * su, a);
    lemma_mod_bound(xi * su, a);
    assert(s * a <= xi * su) by (nonlinear_arith)
        requires
            xi * su == a * s + (xi * su) % a,
            (xi * su) % a >= 0,
    ;
    assert(s >= 0) by (nonlinear_arith)
        requires
            s * a <= xi * su,
            xi >= 0,
            su >= 0,
            a > 0,
            xi * su == a * s + (xi * su) % a,
            (xi * su) % a < a,
    ;
    assert(s * (a + xi) <= xi * (su + s)) by (nonlinear_arith)
        requires
            s * a <= xi * su,
            s >= 0,
            xi >= 0,
    ;
    assert(s * (a + xi) / (su + s) <= xi) by (nonlinear_arith)
        requires
            s * (a + xi) <= xi * (su + s),
            su + s > 0,
            xi >= 0,
            s >= 0,
            a + xi > 0,
    ;
    assert(spec_shares(assets, supply, x) == s);
}

} // verus!
