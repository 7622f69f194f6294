use transfer_bridge::error::ContractError;
use transfer_bridge::order::str_lex_lt;
use transfer_bridge::text::{bool_str, u128_to_dec};

#[test]
fn decimal_rendering_is_exact() {
    assert_eq!(u128_to_dec(0), "0");
    assert_eq!(u128_to_dec(7), "7");
    assert_eq!(u128_to_dec(10), "10");
    assert_eq!(u128_to_dec(12345), "12345");
    assert_eq!(u128_to_dec(1_000_000_007), "1000000007");
    assert_eq!(u128_to_dec(u128::MAX), "340282366920938463463374607431768211455");
}

#[test]
fn bool_rendering_is_exact() {
    assert_eq!(bool_str(true), "true");
    assert_eq!(bool_str(false), "false");
}

#[test]
fn lexicographic_order_is_byte_wise() {
    assert!(str_lex_lt("a", "b"));
    assert!(!str_lex_lt("b", "a"));
    assert!(!str_lex_lt("a", "a"));
    assert!(str_lex_lt("a", "ab"));
    assert!(!str_lex_lt("ab", "a"));
    assert!(str_lex_lt("", "a"));
    assert!(str_lex_lt("transfer_10", "transfer_2"));
    assert!(str_lex_lt("transfer_1", "transfer_10"));
}

#[test]
fn error_messages_are_stable() {
    assert_eq!(ContractError::Unauthorized.message(), "Unauthorized");
    assert_eq!(ContractError::TransferExists.message(), "Transfer already exists");
    assert_eq!(ContractError::BridgeDisabled.message(), "Bridge is disabled");
    assert_eq!(ContractError::InvalidAmount.message(), "Invalid transfer amount");
    assert_eq!(ContractError::NotFound.message(), "Not found");
}
