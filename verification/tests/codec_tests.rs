use cw_vault_standard::codec::{
    execute_msg_from_json, execute_msg_to_json, query_msg_from_json, query_msg_to_json,
    vault_standard_info_to_json,
};
use cw_vault_standard::msg::{
    ExecuteMsg, ExtensionExecuteMsg, ExtensionQueryMsg, QueryMsg, VaultStandardInfo,
};

fn exec_round_trip(m: ExecuteMsg) {
    let wire = execute_msg_to_json(&m);
    let back = execute_msg_from_json(wire.as_str());
    assert_eq!(back, Some(m));
}

fn query_round_trip(m: QueryMsg) {
    let wire = query_msg_to_json(&m);
    let back = query_msg_from_json(wire.as_str());
    assert_eq!(back, Some(m));
}

#[test]
fn execute_deposit_exact_wire_shape() {
    let m: ExecuteMsg = ExecuteMsg::Deposit {
        amount: 1000,
        recipient: None,
    };
    assert_eq!(
        execute_msg_to_json(&m),
        "{\"deposit\":{\"amount\":\"1000\",\"recipient\":null}}"
    );
}

#[test]
fn execute_deposit_with_recipient_exact_wire_shape() {
    let m: ExecuteMsg = ExecuteMsg::Deposit {
        amount: 7,
        recipient: Some("cosmos1xyz".to_string()),
    };
    assert_eq!(
        execute_msg_to_json(&m),
        "{\"deposit\":{\"amount\":\"7\",\"recipient\":\"cosmos1xyz\"}}"
    );
}

#[test]
fn execute_redeem_exact_wire_shape() {
    let m: ExecuteMsg = ExecuteMsg::Redeem {
        recipient: None,
        amount: 42,
    };
    assert_eq!(
        execute_msg_to_json(&m),
        "{\"redeem\":{\"recipient\":null,\"amount\":\"42\"}}"
    );
}

#[test]
fn execute_extension_exact_wire_shape() {
    let m: ExecuteMsg = ExecuteMsg::VaultExtension(ExtensionExecuteMsg::Lockup(
        "unlock".to_string(),
    ));
    assert_eq!(
        execute_msg_to_json(&m),
        "{\"vault_extension\":{\"lockup\":\"unlock\"}}"
    );
}

#[test]
fn execute_round_trips_every_variant() {
    exec_round_trip(ExecuteMsg::Deposit {
        amount: 0,
        recipient: None,
    });
    exec_round_trip(ExecuteMsg::Deposit {
        amount: u128::MAX,
        recipient: Some("addr".to_string()),
    });
    exec_round_trip(ExecuteMsg::Deposit {
        amount: 10,
        recipient: Some(String::new()),
    });
    exec_round_trip(ExecuteMsg::Redeem {
        recipient: None,
        amount: 1,
    });
    exec_round_trip(ExecuteMsg::Redeem {
        recipient: Some("cosmos1abc".to_string()),
        amount: 340282366920938463463374607431768211455,
    });
    exec_round_trip(ExecuteMsg::VaultExtension(ExtensionExecuteMsg::Keeper(
        "work".to_string(),
    )));
    exec_round_trip(ExecuteMsg::VaultExtension(ExtensionExecuteMsg::Lockup(
        String::new(),
    )));
}

#[test]
fn query_round_trips_every_variant() {
    query_round_trip(QueryMsg::VaultStandardInfo {});
    query_round_trip(QueryMsg::Info {});
    query_round_trip(QueryMsg::PreviewDeposit { amount: 123456789 });
    query_round_trip(QueryMsg::PreviewRedeem { amount: 0 });
    query_round_trip(QueryMsg::MaxDeposit {
        recipient: "cosmos1recipient".to_string(),
    });
    query_round_trip(QueryMsg::MaxRedeem {
        owner: "cosmos1owner".to_string(),
    });
    query_round_trip(QueryMsg::TotalAssets {});
    query_round_trip(QueryMsg::TotalVaultTokenSupply {});
    query_round_trip(QueryMsg::ConvertToShares { amount: u128::MAX });
    query_round_trip(QueryMsg::ConvertToAssets { amount: 55 });
    query_round_trip(QueryMsg::VaultExtension(ExtensionQueryMsg::Keeper(
        "status".to_string(),
    )));
    query_round_trip(QueryMsg::VaultExtension(ExtensionQueryMsg::Lockup(
        "positions".to_string(),
    )));
}

#[test]
fn query_exact_wire_shapes() {
    assert_eq!(
        query_msg_to_json(&QueryMsg::VaultStandardInfo {}),
        "{\"vault_standard_info\":{}}"
    );
    assert_eq!(query_msg_to_json(&QueryMsg::Info {}), "{\"info\":{}}");
    assert_eq!(
        query_msg_to_json(&QueryMsg::PreviewDeposit { amount: 9 }),
        "{\"preview_deposit\":{\"amount\":\"9\"}}"
    );
    assert_eq!(
        query_msg_to_json(&QueryMsg::MaxDeposit {
            recipient: "bob".to_string()
        }),
        "{\"max_deposit\":{\"recipient\":\"bob\"}}"
    );
    assert_eq!(
        query_msg_to_json(&QueryMsg::TotalVaultTokenSupply {}),
        "{\"total_vault_token_supply\":{}}"
    );
}

#[test]
fn wire_shape_matches_reference_json_encoder() {
    // The canonical encoding agrees with a general-purpose JSON encoder
    // fed the same tagged record, amounts as quoted decimal strings.
    let mut amount_obj = serde_json::Map::new();
    amount_obj.insert(
        "amount".to_string(),
        serde_json::Value::String("1000".to_string()),
    );
    amount_obj.insert("recipient".to_string(), serde_json::Value::Null);
    let mut tagged = serde_json::Map::new();
    tagged.insert("deposit".to_string(), serde_json::Value::Object(amount_obj));
    let reference = serde_json::to_string(&serde_json::Value::Object(tagged)).unwrap();
    let m: ExecuteMsg = ExecuteMsg::Deposit {
        amount: 1000,
        recipient: None,
    };
    assert_eq!(execute_msg_to_json(&m), reference);
}

#[test]
fn parser_rejects_non_canonical_inputs() {
    assert_eq!(execute_msg_from_json(""), None);
    assert_eq!(execute_msg_from_json("{}"), None);
    // leading zeros are not canonical
    assert_eq!(
        execute_msg_from_json("{\"deposit\":{\"amount\":\"007\",\"recipient\":null}}"),
        None
    );
    // an amount past the 128-bit range
    assert_eq!(
        execute_msg_from_json(
            "{\"deposit\":{\"amount\":\"340282366920938463463374607431768211456\",\"recipient\":null}}"
        ),
        None
    );
    // trailing bytes
    assert_eq!(
        execute_msg_from_json("{\"redeem\":{\"recipient\":null,\"amount\":\"1\"}} "),
        None
    );
    assert_eq!(query_msg_from_json("{\"total_assets\":{}}extra"), None);
    // a doubled backslash is a whole escape and decodes; a lone one
    // before an ordinary character is rejected
    assert_eq!(
        query_msg_from_json("{\"max_deposit\":{\"recipient\":\"a\\\\b\"}}"),
        Some(QueryMsg::MaxDeposit {
            recipient: "a\\b".to_string()
        })
    );
    assert_eq!(
        query_msg_from_json("{\"max_deposit\":{\"recipient\":\"a\\xb\"}}"),
        None
    );
}

#[test]
fn strings_with_quotes_and_backslashes_round_trip() {
    exec_round_trip(ExecuteMsg::Deposit {
        amount: 5,
        recipient: Some("he said \"hi\"".to_string()),
    });
    exec_round_trip(ExecuteMsg::Redeem {
        recipient: Some("back\\slash\\".to_string()),
        amount: 6,
    });
    exec_round_trip(ExecuteMsg::VaultExtension(ExtensionExecuteMsg::Keeper(
        "{\"inner\":\"payload\"}".to_string(),
    )));
    query_round_trip(QueryMsg::MaxDeposit {
        recipient: "\\\"".to_string(),
    });
    query_round_trip(QueryMsg::VaultExtension(ExtensionQueryMsg::Lockup(
        "{\"lock\":1}".to_string(),
    )));
}

#[test]
fn escaped_recipient_exact_wire_shape() {
    let m: ExecuteMsg = ExecuteMsg::Deposit {
        amount: 1,
        recipient: Some("a\"b\\c".to_string()),
    };
    let wire = execute_msg_to_json(&m);
    assert_eq!(
        wire,
        "{\"deposit\":{\"amount\":\"1\",\"recipient\":\"a\\\"b\\\\c\"}}"
    );
    // the reference JSON decoder reads the same recipient back
    let parsed: serde_json::Value = serde_json::from_str(&wire).unwrap();
    assert_eq!(parsed["deposit"]["recipient"], serde_json::Value::String("a\"b\\c".to_string()));
}

#[test]
fn parser_accepts_boundary_amounts() {
    assert_eq!(
        execute_msg_from_json(
            "{\"deposit\":{\"amount\":\"340282366920938463463374607431768211455\",\"recipient\":null}}"
        ),
        Some(ExecuteMsg::Deposit {
            amount: u128::MAX,
            recipient: None,
        })
    );
    assert_eq!(
        query_msg_from_json("{\"preview_redeem\":{\"amount\":\"0\"}}"),
        Some(QueryMsg::PreviewRedeem { amount: 0 })
    );
}

#[test]
fn standard_info_exact_wire_shape() {
    let info = VaultStandardInfo {
        version: 1,
        extensions: vec!["keeper".to_string(), "lockup".to_string()],
    };
    assert_eq!(
        vault_standard_info_to_json(&info),
        "{\"version\":1,\"extensions\":[\"keeper\",\"lockup\"]}"
    );
    let bare = VaultStandardInfo {
        version: 65535,
        extensions: vec![],
    };
    assert_eq!(
        vault_standard_info_to_json(&bare),
        "{\"version\":65535,\"extensions\":[]}"
    );
}

#[test]
fn standard_info_matches_reference_json_encoder() {
    let mut obj = serde_json::Map::new();
    obj.insert(
        "version".to_string(),
        serde_json::Value::Number(serde_json::Number::from(1u64)),
    );
    obj.insert(
        "extensions".to_string(),
        serde_json::Value::Array(vec![serde_json::Value::String("lockup".to_string())]),
    );
    let reference = serde_json::Value::Object(obj);
    let info = VaultStandardInfo {
        version: 1,
        extensions: vec!["lockup".to_string()],
    };
    let parsed: serde_json::Value =
        serde_json::from_str(&vault_standard_info_to_json(&info)).unwrap();
    assert_eq!(parsed, reference);
}
