use cw_vault_standard::codec::vault_standard_info_to_json;
use cw_vault_standard::error::VaultError;
use cw_vault_standard::msg::{ExecuteMsg, ExtensionExecuteMsg, ExtensionQueryMsg, QueryMsg};
use cw_vault_standard::token::Token;
use cw_vault_standard::vault::{ExecuteResponse, QueryResponse, Vault};

fn sample_vault(paused: bool, cap: Option<u128>, assets: u128, supply: u128) -> Vault {
    Vault::new(
        1,
        Token::Native("uatom".to_string()),
        Token::Native("uvault".to_string()),
        false,
        true,
        paused,
        cap,
        assets,
        supply,
    )
}

#[test]
fn preview_deposit_never_exceeds_minted_shares() {
    let mut v = sample_vault(false, None, 3000, 1000);
    let previewed = v.preview_deposit(999).unwrap();
    let minted = v.deposit(999).unwrap();
    assert!(previewed <= minted);
    assert_eq!(previewed, 333);
    assert_eq!(v.total_assets(), 3999);
    assert_eq!(v.total_vault_token_supply(), 1333);
}

#[test]
fn convert_round_trip_drifts_at_most_one_rounding_unit() {
    let v = sample_vault(false, None, 3000, 1000);
    let x = 1001u128;
    let s = match v.handle_query(QueryMsg::ConvertToShares { amount: x }, 0) {
        Ok(QueryResponse::Amount(s)) => s,
        other => panic!("unexpected response: {:?}", other),
    };
    let x2 = match v.handle_query(QueryMsg::ConvertToAssets { amount: s }, 0) {
        Ok(QueryResponse::Amount(a)) => a,
        other => panic!("unexpected response: {:?}", other),
    };
    assert!(x2 <= x);
    // one rounding unit: the price of one share plus the truncation
    assert!(x - x2 <= 3000 / 1000 + 1);
}

#[test]
fn max_deposit_zero_blocks_every_deposit() {
    // paused: the bound is an explicit zero, not "unknown"
    let mut paused = sample_vault(true, None, 100, 100);
    assert_eq!(paused.max_deposit("anyone"), Some(0));
    assert_eq!(
        paused.deposit(1),
        Err(VaultError::LimitExceeded { amount: 1 })
    );
    assert_eq!(paused.total_assets(), 100);

    // cap fully used: same authority
    let mut full = sample_vault(false, Some(100), 100, 100);
    assert_eq!(full.max_deposit("anyone"), Some(0));
    assert_eq!(
        full.deposit(5000),
        Err(VaultError::LimitExceeded { amount: 5000 })
    );
    assert_eq!(full.total_assets(), 100);
}

#[test]
fn max_deposit_none_means_no_cap_blocks() {
    let mut v = sample_vault(false, None, 100, 100);
    assert_eq!(v.max_deposit("anyone"), None);
    assert!(v.deposit(123456).is_ok());
}

#[test]
fn max_redeem_is_bounded_by_holdings_and_supply() {
    let v = sample_vault(false, None, 3000, 1000);
    assert_eq!(v.max_redeem(250), Some(250));
    assert_eq!(v.max_redeem(5000), Some(1000));
}

#[test]
fn deposit_then_preview_redeem_never_profits() {
    // a zero-fee vault must not return more than was deposited
    let mut v = sample_vault(false, None, 3000, 1000);
    let minted = match v.handle_execute(ExecuteMsg::Deposit {
        amount: 1000,
        recipient: None,
    }) {
        Ok(ExecuteResponse::Deposited { shares }) => shares,
        other => panic!("unexpected response: {:?}", other),
    };
    let assets_back = v.preview_redeem(minted).unwrap();
    assert!(assets_back <= 1000);
}

#[test]
fn redeem_burns_and_pays_floor_rounded_assets() {
    let mut v = sample_vault(false, None, 3000, 1000);
    assert_eq!(v.redeem(100), Ok(300));
    assert_eq!(v.total_assets(), 2700);
    assert_eq!(v.total_vault_token_supply(), 900);
    // more than the supply is rejected wholesale
    assert_eq!(
        v.redeem(10_000),
        Err(VaultError::LimitExceeded { amount: 10_000 })
    );
    assert_eq!(v.total_assets(), 2700);
}

#[test]
fn raw_read_and_query_agree_byte_for_byte() {
    let v = sample_vault(false, None, 0, 0);
    let via_query = match v.handle_query(QueryMsg::VaultStandardInfo {}, 0) {
        Ok(QueryResponse::StandardInfo(si)) => si,
        other => panic!("unexpected response: {:?}", other),
    };
    let serialized = vault_standard_info_to_json(&via_query);
    assert_eq!(v.raw_standard_info(), &serialized);
    assert_eq!(serialized, "{\"version\":1,\"extensions\":[\"lockup\"]}");
}

#[test]
fn info_query_reports_both_tokens() {
    let v = sample_vault(false, None, 0, 0);
    match v.handle_query(QueryMsg::Info {}, 0) {
        Ok(QueryResponse::Info(info)) => {
            assert_eq!(info.base_token, Token::Native("uatom".to_string()));
            assert_eq!(info.vault_token, Token::Native("uvault".to_string()));
        }
        other => panic!("unexpected response: {:?}", other),
    }
}

#[test]
fn unsupported_extension_is_rejected_and_balances_unchanged() {
    // the sample vault has lockup but not keeper compiled in
    let mut v = sample_vault(false, None, 3000, 1000);
    let r = v.handle_execute(ExecuteMsg::VaultExtension(ExtensionExecuteMsg::Keeper(
        "work".to_string(),
    )));
    assert_eq!(
        r,
        Err(VaultError::UnsupportedExtension {
            capability: "keeper".to_string()
        })
    );
    assert_eq!(v.total_assets(), 3000);
    assert_eq!(v.total_vault_token_supply(), 1000);

    // the enabled capability's payload is accepted, still without effect
    // on the base accounting
    let ok = v.handle_execute(ExecuteMsg::VaultExtension(ExtensionExecuteMsg::Lockup(
        "unlock".to_string(),
    )));
    assert_eq!(ok, Ok(ExecuteResponse::Extended));
    assert_eq!(v.total_assets(), 3000);

    let q = v.handle_query(
        QueryMsg::VaultExtension(ExtensionQueryMsg::Keeper("status".to_string())),
        0,
    );
    assert_eq!(
        q,
        Err(VaultError::UnsupportedExtension {
            capability: "keeper".to_string()
        })
    );
}

#[test]
fn deposit_rejects_zero_amount() {
    let mut v = sample_vault(false, None, 0, 0);
    assert_eq!(v.deposit(0), Err(VaultError::LimitExceeded { amount: 0 }));
}

#[test]
fn empty_vault_prices_one_to_one() {
    let mut v = sample_vault(false, None, 0, 0);
    assert_eq!(v.deposit(500), Ok(500));
    assert_eq!(v.total_assets(), 500);
    assert_eq!(v.total_vault_token_supply(), 500);
}

#[test]
fn conversion_overflow_is_a_hard_error() {
    let v = sample_vault(false, None, 2, u128::MAX);
    let r = v.handle_query(QueryMsg::ConvertToShares { amount: u128::MAX }, 0);
    assert_eq!(
        r,
        Err(VaultError::LimitExceeded { amount: u128::MAX })
    );
}

#[test]
fn queries_leave_state_unchanged() {
    let v = sample_vault(false, Some(5000), 3000, 1000);
    let before_assets = v.total_assets();
    let before_supply = v.total_vault_token_supply();
    let _ = v.handle_query(QueryMsg::PreviewDeposit { amount: 10 }, 0);
    let _ = v.handle_query(QueryMsg::MaxDeposit { recipient: "a".to_string() }, 0);
    let _ = v.handle_query(QueryMsg::TotalAssets {}, 0);
    assert_eq!(v.total_assets(), before_assets);
    assert_eq!(v.total_vault_token_supply(), before_supply);
    assert_eq!(v.max_deposit("a"), Some(2000));
}

#[test]
fn empty_vault_convert_round_trip_is_exact() {
    let v = sample_vault(false, None, 0, 0);
    let s = match v.handle_query(QueryMsg::ConvertToShares { amount: 777 }, 0) {
        Ok(QueryResponse::Amount(s)) => s,
        other => panic!("unexpected response: {:?}", other),
    };
    let back = match v.handle_query(QueryMsg::ConvertToAssets { amount: s }, 0) {
        Ok(QueryResponse::Amount(a)) => a,
        other => panic!("unexpected response: {:?}", other),
    };
    assert_eq!(back, 777);
}

#[test]
fn deposit_into_empty_vault_then_preview_redeem_is_exact() {
    let mut v = sample_vault(false, None, 0, 0);
    let minted = v.deposit(1000).unwrap();
    assert_eq!(minted, 1000);
    assert_eq!(v.preview_redeem(minted), Some(1000));
}
