//! The mnemonic table: encode/decode round trips, budgets, and escapes.

use vml::isa::{char_byte_of, escape_for, instr_lookup, mnemonic_for, str_chars};

const TABLE: &[(&str, u8, i64)] = &[
    ("mov", 0x00, 9),
    ("ldr", 0x01, 5),
    ("indl", 0x02, 9),
    ("cpy", 0x03, 1),
    ("str", 0x04, 5),
    ("inds", 0x05, 5),
    ("push", 0x06, 1),
    ("pop", 0x07, 1),
    ("iadd", 0x08, 1),
    ("isub", 0x09, 1),
    ("imul", 0x0a, 1),
    ("idiv", 0x0b, 1),
    ("dadd", 0x0c, 1),
    ("dsub", 0x0d, 1),
    ("dmul", 0x0e, 1),
    ("ddiv", 0x0f, 1),
    ("icst", 0x10, 1),
    ("dcst", 0x11, 1),
    ("shl", 0x12, 1),
    ("shr", 0x13, 1),
    ("and", 0x14, 1),
    ("or", 0x15, 1),
    ("neg", 0x16, 1),
    ("icmp", 0x17, 1),
    ("dcmp", 0x18, 1),
    ("jmp", 0x19, 4),
    ("beq", 0x1a, 4),
    ("bne", 0x1b, 4),
    ("bgt", 0x1c, 4),
    ("blt", 0x1d, 4),
    ("jsr", 0x1e, 4),
    ("ret", 0x1f, 0),
    ("sys", 0x20, 4),
    ("halt", 0x22, 0),
    ("adr", 0x23, 5),
    ("lei", 0x24, 1),
    ("lst", 0x25, 1),
    ("ltt", 0x26, 1),
    ("lsf", 0x27, 1),
    ("sei", 0x28, 1),
    ("sst", 0x29, 1),
    ("stt", 0x2a, 1),
    ("ssf", 0x2b, 1),
    ("bufc", 0x2c, 1),
    ("lseq", 0x2d, 1),
    ("bseq", 0x2e, 1),
    ("pow", 0x2f, 1),
    ("root", 0x30, 1),
    ("call", 0x31, 1),
];

#[test]
fn mnemonic_encode_decode_round_trip() {
    for &(name, opcode, budget) in TABLE {
        let chars = str_chars(name);
        let entry = instr_lookup(&chars).expect(name);
        assert_eq!(entry.0, opcode, "{name}");
        assert_eq!(entry.1, budget, "{name}");
        let back = mnemonic_for(opcode).expect(name);
        assert_eq!(back, name);
    }
}

#[test]
fn unknown_words_and_opcodes_decode_to_nothing() {
    assert!(instr_lookup(&str_chars("frobnicate")).is_none());
    assert!(instr_lookup(&str_chars("")).is_none());
    assert!(mnemonic_for(0x21).is_none());
    assert!(mnemonic_for(0x7f).is_none());
}

#[test]
fn escape_table_is_exact() {
    let cases = [
        ('n', 0x0a),
        ('t', 0x09),
        ('v', 0x0b),
        ('"', 0x22),
        ('r', 0x0d),
        ('f', 0x0c),
        ('b', 0x08),
        ('a', 0x07),
        ('e', 0x1b),
        ('\'', 0x27),
        ('\\', 0x5c),
    ];
    for (c, b) in cases {
        assert_eq!(escape_for(c), Some(b), "{c}");
    }
    assert_eq!(escape_for('q'), None);
    assert_eq!(escape_for('x'), None);
}

#[test]
fn char_bytes_take_the_low_eight_bits() {
    assert_eq!(char_byte_of('A'), 0x41);
    assert_eq!(char_byte_of('\n'), 0x0a);
    assert_eq!(char_byte_of('\u{0142}'), 0x42);
}
