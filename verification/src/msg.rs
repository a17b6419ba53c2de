use vstd::prelude::*;

use crate::token::{Token, TokenView};

verus! {

/// The commands a compliant vault accepts. The effect of each command on
/// vault state belongs to the implementing vault; this layer fixes the
/// shapes and the guarantees an implementation must keep. `T` is the
/// extension payload: the default closed union is [`ExtensionExecuteMsg`],
/// and a vault wanting capabilities not anticipated there supplies its own
/// payload type in its place.
#[derive(Debug, PartialEq, Eq)]
pub enum ExecuteMsg<T = ExtensionExecuteMsg> {
    /// Deposit `amount` of the base token (delivered alongside the call)
    /// and mint vault tokens to `recipient`, or to the caller when absent.
    /// `amount` must be nonzero and must match the value actually attached;
    /// a vault must reject a mismatch.
    Deposit { amount: u128, recipient: Option<String> },
    /// Burn `amount` of vault tokens and return underlying assets to
    /// `recipient`, or to the caller when absent.
    Redeem { recipient: Option<String>, amount: u128 },
    /// An opaque extension-defined command; the base protocol does not
    /// interpret it.
    VaultExtension(T),
}

/// The default closed union of extension commands: one member per
/// capability module a vault build may enable. The modules' own command
/// sets are outside this protocol and ride through as opaque payloads.
#[derive(Debug, PartialEq, Eq)]
pub enum ExtensionExecuteMsg {
    Keeper(String),
    Lockup(String),
}

/// The read-only queries a compliant vault answers. Every query is a pure
/// function of the current state snapshot and its input: no query mutates
/// state, and no result may depend on the order of queries issued against
/// the same snapshot.
#[derive(Debug, PartialEq, Eq)]
pub enum QueryMsg<T = ExtensionQueryMsg> {
    /// Protocol version and enabled extensions; also stored at the
    /// well-known `vault_standard_info` key for call-free reads.
    VaultStandardInfo {},
    /// The vault's base token and vault token.
    Info {},
    /// Shares that a deposit of `amount` would mint right now. Must never
    /// return more than an immediate deposit of the same amount would
    /// mint, must ignore deposit limits, and must include deposit fees.
    PreviewDeposit { amount: u128 },
    /// Assets returned for redeeming `amount` vault tokens, under the same
    /// no-limits assumption.
    PreviewRedeem { amount: u128 },
    /// Authoritative upper bound on a deposit for `recipient`, covering
    /// global and per-user limits; an explicit `Some(0)` when deposits are
    /// disabled, `None` when no limit is configured. Must not consult the
    /// recipient's actual balances.
    MaxDeposit { recipient: String },
    /// Upper bound on vault tokens redeemable from `owner`'s holdings.
    MaxRedeem { owner: String },
    /// Approximate assets under management in base-token units;
    /// display-only.
    TotalAssets {},
    /// Exact circulating vault-token amount.
    TotalVaultTokenSupply {},
    /// Ideal-conditions, average-case share conversion; display-only.
    ConvertToShares { amount: u128 },
    /// Ideal-conditions, average-case asset conversion; display-only.
    ConvertToAssets { amount: u128 },
    /// An opaque extension-defined query. Its response shape is the
    /// extension's own; the base protocol cannot declare it and dispatch
    /// must special-case it at the runtime boundary.
    VaultExtension(T),
}

/// The default closed union of extension queries, mirroring
/// [`ExtensionExecuteMsg`].
#[derive(Debug, PartialEq, Eq)]
pub enum ExtensionQueryMsg {
    Keeper(String),
    Lockup(String),
}

/// Version of the vault standard a contract speaks, and the extensions it
/// has enabled, in registration order. Stored under the well-known
/// `vault_standard_info` key so integrators can read it raw instead of
/// paying for a full query round trip.
#[derive(Debug, PartialEq, Eq)]
pub struct VaultStandardInfo {
    /// Monotonic protocol version number.
    pub version: u16,
    /// Names of the enabled extensions, e.g. `"lockup"`, `"keeper"`. The
    /// order carries no meaning but is stable for identical configuration.
    pub extensions: Vec<String>,
}

/// The two economically relevant tokens of a vault, fixed at configuration
/// time; consumers treat a response as the authoritative snapshot as of
/// the call.
#[derive(Debug, PartialEq, Eq)]
pub struct VaultInfo {
    /// The token accepted for deposits and withdrawals and used for
    /// accounting.
    pub base_token: Token,
    /// The accounting token representing a claim on the vault.
    pub vault_token: Token,
}

/// Spec-level shape of [`ExtensionExecuteMsg`].
pub enum ExtensionExecuteMsgView {
    Keeper(Seq<char>),
    Lockup(Seq<char>),
}

/// Spec-level shape of [`ExecuteMsg`] over its default extension union.
pub enum ExecuteMsgView {
    Deposit { amount: u128, recipient: Option<Seq<char>> },
    Redeem { recipient: Option<Seq<char>>, amount: u128 },
    VaultExtension(ExtensionExecuteMsgView),
}

/// Spec-level shape of [`ExtensionQueryMsg`].
pub enum ExtensionQueryMsgView {
    Keeper(Seq<char>),
    Lockup(Seq<char>),
}

/// Spec-level shape of [`QueryMsg`] over its default extension union.
pub enum QueryMsgView {
    VaultStandardInfo,
    Info,
    PreviewDeposit { amount: u128 },
    PreviewRedeem { amount: u128 },
    MaxDeposit { recipient: Seq<char> },
    MaxRedeem { owner: Seq<char> },
    TotalAssets,
    TotalVaultTokenSupply,
    ConvertToShares { amount: u128 },
    ConvertToAssets { amount: u128 },
    VaultExtension(ExtensionQueryMsgView),
}

/// Spec-level shape of [`VaultStandardInfo`].
pub struct VaultStandardInfoView {
    pub version: u16,
    pub extensions: Seq<Seq<char>>,
}

/// Spec-level shape of [`VaultInfo`].
pub struct VaultInfoView {
    pub base_token: TokenView,
    pub vault_token: TokenView,
}

impl View for ExtensionExecuteMsg {
    type V = ExtensionExecuteMsgView;

    open spec fn view(&self) -> ExtensionExecuteMsgView {
        match self {
            ExtensionExecuteMsg::Keeper(p) => ExtensionExecuteMsgView::Keeper(p@),
            ExtensionExecuteMsg::Lockup(p) => ExtensionExecuteMsgView::Lockup(p@),
        }
    }
}

impl View for ExecuteMsg<ExtensionExecuteMsg> {
    type V = ExecuteMsgView;

    open spec fn view(&self) -> ExecuteMsgView {
        match self {
            ExecuteMsg::Deposit { amount, recipient } => ExecuteMsgView::Deposit {
                amount: *amount,
                recipient: recipient.deep_view(),
            },
            ExecuteMsg::Redeem { recipient, amount } => ExecuteMsgView::Redeem {
                recipient: recipient.deep_view(),
                amount: *amount,
            },
            ExecuteMsg::VaultExtension(ext) => ExecuteMsgView::VaultExtension(ext@),
        }
    }
}

impl View for ExtensionQueryMsg {
    type V = ExtensionQueryMsgView;

    open spec fn view(&self) -> ExtensionQueryMsgView {
        match self {
            ExtensionQueryMsg::Keeper(p) => ExtensionQueryMsgView::Keeper(p@),
            ExtensionQueryMsg::Lockup(p) => ExtensionQueryMsgView::Lockup(p@),
        }
    }
}

impl View for QueryMsg<ExtensionQueryMsg> {
    type V = QueryMsgView;

    open spec fn view(&self) -> QueryMsgView {
        match self {
            QueryMsg::VaultStandardInfo {} => QueryMsgView::VaultStandardInfo,
            QueryMsg::Info {} => QueryMsgView::Info,
            QueryMsg::PreviewDeposit { amount } => QueryMsgView::PreviewDeposit {
                amount: *amount,
            },
            QueryMsg::PreviewRedeem { amount } => QueryMsgView::PreviewRedeem { amount: *amount },
            QueryMsg::MaxDeposit { recipient } => QueryMsgView::MaxDeposit {
                recipient: recipient@,
            },
            QueryMsg::MaxRedeem { owner } => QueryMsgView::MaxRedeem { owner: owner@ },
            QueryMsg::TotalAssets {} => QueryMsgView::TotalAssets,
            QueryMsg::TotalVaultTokenSupply {} => QueryMsgView::TotalVaultTokenSupply,
            QueryMsg::ConvertToShares { amount } => QueryMsgView::ConvertToShares {
                amount: *amount,
            },
            QueryMsg::ConvertToAssets { amount } => QueryMsgView::ConvertToAssets {
                amount: *amount,
            },
            QueryMsg::VaultExtension(ext) => QueryMsgView::VaultExtension(ext@),
        }
    }
}

impl View for VaultStandardInfo {
    type V = VaultStandardInfoView;

    open spec fn view(&self) -> VaultStandardInfoView {
        VaultStandardInfoView { version: self.version, extensions: self.extensions.deep_view() }
    }
}

impl View for VaultInfo {
    type V = VaultInfoView;

    open spec fn view(&self) -> VaultInfoView {
        VaultInfoView { base_token: self.base_token@, vault_token: self.vault_token@ }
    }
}

} // verus!
