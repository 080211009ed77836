//! The tokenizer: operand budgets per mnemonic, the fatal line errors, and
//! the small state helpers.

use vml::assembler::Lexer;
use vml::errors::AsmError;
use vml::token::TokenType;

const BUDGETS: &[(&str, i64)] = &[
    ("mov", 9),
    ("ldr", 5),
    ("indl", 9),
    ("cpy", 1),
    ("str", 5),
    ("inds", 5),
    ("push", 1),
    ("pop", 1),
    ("iadd", 1),
    ("isub", 1),
    ("imul", 1),
    ("idiv", 1),
    ("dadd", 1),
    ("dsub", 1),
    ("dmul", 1),
    ("ddiv", 1),
    ("icst", 1),
    ("dcst", 1),
    ("shl", 1),
    ("shr", 1),
    ("and", 1),
    ("or", 1),
    ("neg", 1),
    ("icmp", 1),
    ("dcmp", 1),
    ("jmp", 4),
    ("beq", 4),
    ("bne", 4),
    ("bgt", 4),
    ("blt", 4),
    ("jsr", 4),
    ("ret", 0),
    ("sys", 4),
    ("halt", 0),
    ("adr", 5),
    ("lei", 1),
    ("lst", 1),
    ("ltt", 1),
    ("lsf", 1),
    ("sei", 1),
    ("sst", 1),
    ("stt", 1),
    ("ssf", 1),
    ("bufc", 1),
    ("lseq", 1),
    ("bseq", 1),
    ("pow", 1),
    ("root", 1),
    ("call", 1),
];

fn canonical_line(name: &str, budget: i64) -> String {
    match budget {
        0 => format!("{name}\n"),
        1 => format!("{name} r0,r1\n"),
        4 => format!("{name} .somewhere\n"),
        5 => format!("{name} r0,U$0x1\n"),
        9 => format!("{name} r0,$0x1\n"),
        _ => unreachable!(),
    }
}

fn deficient_line(name: &str, budget: i64) -> String {
    match budget {
        1 | 4 => format!("{name}\n"),
        5 | 9 => format!("{name} r0\n"),
        _ => unreachable!(),
    }
}

#[test]
fn every_mnemonic_lexes_with_zero_leftover_budget() {
    for &(name, budget) in BUDGETS {
        let mut lx = Lexer::new();
        let r = lx.lex_asm(canonical_line(name, budget));
        assert!(r.is_ok(), "{name}: {r:?}");
        assert!(lx.token_count() >= 1, "{name}");
    }
}

#[test]
fn one_operand_short_is_a_budget_error() {
    for &(name, budget) in BUDGETS {
        if budget == 0 {
            continue;
        }
        let mut lx = Lexer::new();
        let r = lx.lex_asm(deficient_line(name, budget));
        match r {
            Err(AsmError::Operands { line, .. }) => assert_eq!(line, 1, "{name}"),
            other => panic!("{name}: expected an operand-count error, got {other:?}"),
        }
    }
}

#[test]
fn one_operand_over_is_a_budget_error_too() {
    let mut lx = Lexer::new();
    match lx.lex_asm("halt r0\n".to_string()) {
        Err(AsmError::Operands { line, excerpt }) => {
            assert_eq!(line, 1);
            assert_eq!(excerpt, "halt r0");
        }
        other => panic!("expected an operand-count error, got {other:?}"),
    }
}

#[test]
fn register_pairs_share_one_budget_unit() {
    let mut lx = Lexer::new();
    assert!(lx.lex_asm("push r7\n".to_string()).is_ok());
    let mut lx2 = Lexer::new();
    assert!(lx2.lex_asm("cpy r0,r1\n".to_string()).is_ok());
}

#[test]
fn an_unknown_word_is_a_syntax_error_with_its_line() {
    let mut lx = Lexer::new();
    match lx.lex_asm("halt\nbogus\n".to_string()) {
        Err(AsmError::Syntax { line, excerpt }) => {
            assert_eq!(line, 2);
            assert_eq!(excerpt, "bogus");
        }
        other => panic!("expected a syntax error, got {other:?}"),
    }
}

#[test]
fn an_unterminated_string_is_fatal() {
    let mut lx = Lexer::new();
    match lx.lex_asm(".s: \"oops\n".to_string()) {
        Err(AsmError::UnclosedString { line, .. }) => assert_eq!(line, 1),
        other => panic!("expected an unclosed-string error, got {other:?}"),
    }
}

#[test]
fn an_escaped_quote_stays_inside_the_string() {
    let mut lx = Lexer::new();
    let r = lx.lex_asm(".s: \"a\\\"b\"\n".to_string());
    assert!(r.is_ok(), "{r:?}");
    let img = lx.assemble_asm().unwrap();
    assert_eq!(img, vec![b'a', 0x22, b'b', 0x00]);
}

#[test]
fn comments_and_blank_lines_lex_to_nothing() {
    let mut lx = Lexer::new();
    assert!(lx.lex_asm("; just a comment\n\nhalt\n".to_string()).is_ok());
    assert_eq!(lx.token_count(), 1);
}

#[test]
fn state_bits_are_set_and_cleared() {
    let mut lx = Lexer::new();
    assert_eq!(lx.state_bits(), 0);
    lx.set_string_bit();
    assert_eq!(lx.state_bits(), 1);
    lx.set_int_bit();
    assert_eq!(lx.state_bits(), 3);
    lx.clear_state();
    assert_eq!(lx.state_bits(), 0);
    lx.set_label_bit();
    assert_eq!(lx.state_bits(), 4);
    lx.clear_state();
    lx.set_prereg_bit();
    assert_eq!(lx.state_bits(), 8);
    lx.clear_state();
    lx.set_comment_bit();
    assert_eq!(lx.state_bits(), 16);
    lx.clear_state();
    lx.set_method_bit();
    assert_eq!(lx.state_bits(), 32);
    lx.clear_state();
    lx.set_variable_bit();
    assert_eq!(lx.state_bits(), 64);
}

#[test]
fn add_token_collects_tokens() {
    let mut lx = Lexer::new();
    lx.add_token(TokenType::INSTRUCTION, "halt");
    lx.add_token(TokenType::REGISTER, "3");
    assert_eq!(lx.token_count(), 2);
}

#[test]
fn read_line_num_returns_the_named_line() {
    let lx = Lexer::new();
    let text = "first\nsecond\nthird\n".to_string();
    assert_eq!(lx.read_line_num(&text, 0), "first");
    assert_eq!(lx.read_line_num(&text, 1), "second");
    assert_eq!(lx.read_line_num(&text, 2), "third");
    assert_eq!(lx.read_line_num(&text, 9), "");
}

#[test]
fn read_chars_upto_doubles_interior_newlines() {
    let lx = Lexer::new();
    let text = "ab\ncd\nef\n".to_string();
    assert_eq!(lx.read_chars_upto(&text, 0), "ab\n");
    assert_eq!(lx.read_chars_upto(&text, 1), "ab\n\ncd\n");
}
