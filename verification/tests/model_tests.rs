//! The shared value models: tokens, variables, and the usage messages.

use vml::errors::{err_arg_not_found, err_no_args};
use vml::token::{chars_to_string, Token, TokenType};
use vml::variable::Variable;

#[test]
fn a_token_keeps_its_kind_and_payload() {
    let t = Token::new(TokenType::INSTRUCTION, "mov".to_string());
    assert_eq!(t.token_t, TokenType::INSTRUCTION);
    assert_eq!(t.data, "mov");
    let u = Token::new(TokenType::LABEL, "Dmain".to_string());
    assert_eq!(u.token_t, TokenType::LABEL);
    assert_eq!(u.data, "Dmain");
}

#[test]
fn token_kinds_compare_by_variant() {
    assert_eq!(TokenType::REGISTER, TokenType::REGISTER);
    assert_ne!(TokenType::REGISTER, TokenType::INTEGER);
}

#[test]
fn a_variable_keeps_its_three_fields() {
    let v = Variable::new("counter".to_string(), "42".to_string(), 2);
    assert_eq!(v.variable_name, "counter");
    assert_eq!(v.variable_data, "42");
    assert_eq!(v.variable_type, 2);
}

#[test]
fn the_usage_messages_name_the_modes() {
    assert_eq!(
        err_no_args(),
        "ERROR::NO_ARGS:\n\tUSAGE: vml [-C/-R/-A] [FILENAME]"
    );
    assert_eq!(
        err_arg_not_found(),
        "ERROR::CMD_ARG_NOT_FOUND:\n\tUSAGE: vml [-C/-R/-A] [FILENAME]"
    );
}

#[test]
fn collected_characters_become_their_string() {
    let v = vec!['a', 'b', 'c'];
    assert_eq!(chars_to_string(&v), "abc");
    let empty: Vec<char> = Vec::new();
    assert_eq!(chars_to_string(&empty), "");
}
