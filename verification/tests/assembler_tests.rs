//! The two-pass assembler: exact encodings, label resolution, and the
//! assembly-time errors.

use vml::assembler::Lexer;
use vml::errors::AsmError;

fn assemble(src: &str) -> Result<Vec<u8>, AsmError> {
    let mut lx = Lexer::new();
    lx.lex_asm(src.to_string())?;
    lx.assemble_asm()
}

#[test]
fn mov_encodes_opcode_operand_and_imm64() {
    let img = assemble("mov r0,$0x05\nhalt\n").unwrap();
    assert_eq!(img, vec![0x00, 0x00, 0x05, 0, 0, 0, 0, 0, 0, 0, 0x22, 0x00]);
}

#[test]
fn register_pairs_pack_into_one_byte() {
    let img = assemble("cpy r2,r5\nhalt\n").unwrap();
    assert_eq!(img, vec![0x03, 0x52, 0x22, 0x00]);
}

#[test]
fn a_single_register_fills_the_low_nibble() {
    let img = assemble("push r9\nhalt\n").unwrap();
    assert_eq!(img, vec![0x06, 0x09, 0x22, 0x00]);
}

#[test]
fn a_32_bit_immediate_takes_four_bytes() {
    let img = assemble("sys U$0x1a2b\nhalt\n").unwrap();
    assert_eq!(img, vec![0x20, 0x00, 0x2b, 0x1a, 0x00, 0x00, 0x22, 0x00]);
}

#[test]
fn labels_resolve_to_little_endian_offsets() {
    let img = assemble("jmp .end\n.mid: halt\n.end: jsr .mid\n").unwrap();
    assert_eq!(
        img,
        vec![
            0x19, 0x00, 0x08, 0x00, 0x00, 0x00, // jmp .end (offset 8)
            0x22, 0x00, // .mid: halt
            0x1e, 0x00, 0x06, 0x00, 0x00, 0x00, // .end: jsr .mid (offset 6)
        ]
    );
}

#[test]
fn a_forward_and_backward_reference_share_one_definition() {
    let img = assemble(".top: beq .top\nhalt\n").unwrap();
    assert_eq!(img, vec![0x1a, 0x00, 0x00, 0x00, 0x00, 0x00, 0x22, 0x00]);
}

#[test]
fn an_undefined_label_is_an_unresolved_error_and_no_image() {
    match assemble("jmp .nowhere\nhalt\n") {
        Err(AsmError::UnresolvedLabel { name }) => assert_eq!(name, "nowhere"),
        other => panic!("expected an unresolved label, got {other:?}"),
    }
}

#[test]
fn the_first_undefined_label_is_the_one_named() {
    match assemble("jmp .first\nbeq .second\nhalt\n") {
        Err(AsmError::UnresolvedLabel { name }) => assert_eq!(name, "first"),
        other => panic!("expected an unresolved label, got {other:?}"),
    }
}

#[test]
fn a_second_definition_of_a_label_is_an_error() {
    match assemble(".a: halt\n.a: halt\n") {
        Err(AsmError::DuplicateLabel { name }) => assert_eq!(name, "a"),
        other => panic!("expected a duplicate label, got {other:?}"),
    }
}

#[test]
fn string_literals_decode_escapes_and_gain_a_terminator() {
    let img = assemble(".s: \"ab\\n\\t\\\\\"\n").unwrap();
    assert_eq!(img, vec![b'a', b'b', 0x0a, 0x09, 0x5c, 0x00]);
}

#[test]
fn an_unknown_escape_is_fatal_at_assembly() {
    match assemble(".s: \"a\\qb\"\n") {
        Err(AsmError::UnknownEscape { escape }) => assert_eq!(escape, 'q'),
        other => panic!("expected an unknown escape, got {other:?}"),
    }
}

#[test]
fn a_register_index_above_fifteen_is_rejected() {
    match assemble("push r20\nhalt\n") {
        Err(AsmError::BadRegister { data }) => assert_eq!(data, "20"),
        other => panic!("expected a bad register, got {other:?}"),
    }
}

#[test]
fn a_malformed_hex_payload_is_rejected() {
    match assemble("mov r0,$0xZZ\nhalt\n") {
        Err(AsmError::BadInteger { data }) => assert_eq!(data, "LZZ"),
        other => panic!("expected a bad integer, got {other:?}"),
    }
}

#[test]
fn an_oversized_32_bit_immediate_is_rejected() {
    match assemble("sys U$0x1ffffffff\nhalt\n") {
        Err(AsmError::BadInteger { .. }) => {}
        other => panic!("expected a bad integer, got {other:?}"),
    }
}

#[test]
fn uppercase_hex_digits_are_accepted() {
    let img = assemble("mov r1,$0xAB\nhalt\n").unwrap();
    assert_eq!(img[2], 0xab);
    assert_eq!(img[1], 0x01);
}

#[test]
fn assembling_twice_gives_the_same_image() {
    let mut lx = Lexer::new();
    lx.lex_asm("mov r0,$0x05\npush r0\nhalt\n".to_string()).unwrap();
    let a = lx.assemble_asm().unwrap();
    let b = lx.assemble_asm().unwrap();
    assert_eq!(a, b);
}
