use vstd::prelude::*;

use crate::error::VaultError;

verus! {

/// The two mutually exclusive representations of an asset: one identified by
/// a host-chain denom, the other by the address of a separate contract.
#[derive(Debug, PartialEq, Eq)]
pub enum Token {
    Native(String),
    Cw20(String),
}

/// Spec-level shape of a [`Token`]: the same two kinds over character
/// sequences, so contracts can speak of equality of contents.
pub enum TokenView {
    Native(Seq<char>),
    Cw20(Seq<char>),
}

impl View for Token {
    type V = TokenView;

    open spec fn view(&self) -> TokenView {
        match self {
            Token::Native(denom) => TokenView::Native(denom@),
            Token::Cw20(addr) => TokenView::Cw20(addr@),
        }
    }
}

impl Clone for Token {
    fn clone(&self) -> (r: Self)
        ensures
            r@ == self@,
    {
        match self {
            Token::Native(denom) => Token::Native(denom.clone()),
            Token::Cw20(addr) => Token::Cw20(addr.clone()),
        }
    }
}

impl Token {
    /// Narrow this token to the synthetic (contract-backed) kind, yielding
    /// the stored contract address string. The string is handed to the
    /// host's address validator at the runtime boundary; this layer performs
    /// no well-formedness check of its own. Fails loudly with
    /// `InvalidTokenKind`, carrying the offending denom, when the token is
    /// the native kind: callers of this operation assert a contextual
    /// expectation, and a silent absent value would hide its violation.
    pub fn to_cw20_addr(&self) -> (r: Result<String, VaultError>)
        ensures
            match r {
                Ok(addr) => self@ matches TokenView::Cw20(a) && addr@ == a,
                Err(e) => {
                    &&& self@ matches TokenView::Native(d)
                    &&& e matches VaultError::InvalidTokenKind { value } && value@ == d
                },
            },
    {
        match self {
            Token::Native(denom) => Err(VaultError::InvalidTokenKind { value: denom.clone() }),
            Token::Cw20(addr) => Ok(addr.clone()),
        }
    }

    /// Narrow this token to the native kind, returning the denom string
    /// unchanged. Fails with `InvalidTokenKind`, carrying the stored
    /// contract address, when the token is the synthetic kind.
    pub fn to_native_denom(&self) -> (r: Result<String, VaultError>)
        ensures
            match r {
                Ok(denom) => self@ matches TokenView::Native(d) && denom@ == d,
                Err(e) => {
                    &&& self@ matches TokenView::Cw20(a)
                    &&& e matches VaultError::InvalidTokenKind { value } && value@ == a
                },
            },
    {
        match self {
            Token::Native(denom) => Ok(denom.clone()),
            Token::Cw20(addr) => Err(VaultError::InvalidTokenKind { value: addr.clone() }),
        }
    }
}

} // verus!
