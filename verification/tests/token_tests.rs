use cw_vault_standard::error::VaultError;
use cw_vault_standard::token::Token;

#[test]
fn native_token_to_native_denom_returns_denom() {
    let t = Token::Native("uatom".to_string());
    assert_eq!(t.to_native_denom(), Ok("uatom".to_string()));
}

#[test]
fn native_token_to_cw20_addr_fails_with_invalid_token_kind() {
    let t = Token::Native("uatom".to_string());
    assert_eq!(
        t.to_cw20_addr(),
        Err(VaultError::InvalidTokenKind {
            value: "uatom".to_string()
        })
    );
}

#[test]
fn cw20_token_to_cw20_addr_returns_address() {
    let t = Token::Cw20("cosmos1contract".to_string());
    assert_eq!(t.to_cw20_addr(), Ok("cosmos1contract".to_string()));
}

#[test]
fn cw20_token_to_native_denom_fails_with_invalid_token_kind() {
    let t = Token::Cw20("cosmos1contract".to_string());
    assert_eq!(
        t.to_native_denom(),
        Err(VaultError::InvalidTokenKind {
            value: "cosmos1contract".to_string()
        })
    );
}

#[test]
fn token_clone_preserves_contents() {
    let t = Token::Cw20("addr".to_string());
    assert_eq!(t.clone(), t);
    let n = Token::Native("udenom".to_string());
    assert_eq!(n.clone(), n);
}
