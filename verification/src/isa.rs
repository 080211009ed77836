//! The instruction set: the fixed mnemonic table mapping each instruction
//! name to its opcode byte and to the operand budget the tokenizer charges
//! for its line, the operand-byte nibble packing, and the escape table used
//! by string literals.

use vstd::prelude::*;

verus! {

/// Opcode byte and operand budget of a mnemonic, or `None` for a word that
/// is no instruction.  The budget is the total byte-cost of the operands
/// still owed after the mnemonic: a register (or an adjacent register pair)
/// costs 1, a 32-bit immediate or label reference costs 4, a 64-bit
/// immediate costs 8.
pub open spec fn instr_info(name: Seq<char>) -> Option<(u8, int)> {
    if name == "mov"@ {
        Some((0x00u8, 9int))
    } else if name == "ldr"@ {
        Some((0x01u8, 5int))
    } else if name == "indl"@ {
        Some((0x02u8, 9int))
    } else if name == "cpy"@ {
        Some((0x03u8, 1int))
    } else if name == "str"@ {
        Some((0x04u8, 5int))
    } else if name == "inds"@ {
        Some((0x05u8, 5int))
    } else if name == "push"@ {
        Some((0x06u8, 1int))
    } else if name == "pop"@ {
        Some((0x07u8, 1int))
    } else if name == "iadd"@ {
        Some((0x08u8, 1int))
    } else if name == "isub"@ {
        Some((0x09u8, 1int))
    } else if name == "imul"@ {
        Some((0x0au8, 1int))
    } else if name == "idiv"@ {
        Some((0x0bu8, 1int))
    } else if name == "dadd"@ {
        Some((0x0cu8, 1int))
    } else if name == "dsub"@ {
        Some((0x0du8, 1int))
    } else if name == "dmul"@ {
        Some((0x0eu8, 1int))
    } else if name == "ddiv"@ {
        Some((0x0fu8, 1int))
    } else if name == "icst"@ {
        Some((0x10u8, 1int))
    } else if name == "dcst"@ {
        Some((0x11u8, 1int))
    } else if name == "shl"@ {
        Some((0x12u8, 1int))
    } else if name == "shr"@ {
        Some((0x13u8, 1int))
    } else if name == "and"@ {
        Some((0x14u8, 1int))
    } else if name == "or"@ {
        Some((0x15u8, 1int))
    } else if name == "neg"@ {
        Some((0x16u8, 1int))
    } else if name == "icmp"@ {
        Some((0x17u8, 1int))
    } else if name == "dcmp"@ {
        Some((0x18u8, 1int))
    } else if name == "jmp"@ {
        Some((0x19u8, 4int))
    } else if name == "beq"@ {
        Some((0x1au8, 4int))
    } else if name == "bne"@ {
        Some((0x1bu8, 4int))
    } else if name == "bgt"@ {
        Some((0x1cu8, 4int))
    } else if name == "blt"@ {
        Some((0x1du8, 4int))
    } else if name == "jsr"@ {
        Some((0x1eu8, 4int))
    } else if name == "ret"@ {
        Some((0x1fu8, 0int))
    } else if name == "sys"@ {
        Some((0x20u8, 4int))
    } else if name == "halt"@ {
        Some((0x22u8, 0int))
    } else if name == "adr"@ {
        Some((0x23u8, 5int))
    } else if name == "lei"@ {
        Some((0x24u8, 1int))
    } else if name == "lst"@ {
        Some((0x25u8, 1int))
    } else if name == "ltt"@ {
        Some((0x26u8, 1int))
    } else if name == "lsf"@ {
        Some((0x27u8, 1int))
    } else if name == "sei"@ {
        Some((0x28u8, 1int))
    } else if name == "sst"@ {
        Some((0x29u8, 1int))
    } else if name == "stt"@ {
        Some((0x2au8, 1int))
    } else if name == "ssf"@ {
        Some((0x2bu8, 1int))
    } else if name == "bufc"@ {
        Some((0x2cu8, 1int))
    } else if name == "lseq"@ {
        Some((0x2du8, 1int))
    } else if name == "bseq"@ {
        Some((0x2eu8, 1int))
    } else if name == "pow"@ {
        Some((0x2fu8, 1int))
    } else if name == "root"@ {
        Some((0x30u8, 1int))
    } else if name == "call"@ {
        Some((0x31u8, 1int))
    } else {
        None
    }
}

/// The opcode a mnemonic encodes to.
pub open spec fn opcode_of(name: Seq<char>) -> Option<u8> {
    match instr_info(name) {
        Some(info) => Some(info.0),
        None => None,
    }
}

/// The operand budget the tokenizer charges for a mnemonic's line.
pub open spec fn budget_of(name: Seq<char>) -> Option<int> {
    match instr_info(name) {
        Some(info) => Some(info.1),
        None => None,
    }
}

/// The mnemonic a known opcode byte decodes to.
pub open spec fn mnemonic_of(op: u8) -> Option<Seq<char>> {
    if op == 0x00 {
        Some("mov"@)
    } else if op == 0x01 {
        Some("ldr"@)
    } else if op == 0x02 {
        Some("indl"@)
    } else if op == 0x03 {
        Some("cpy"@)
    } else if op == 0x04 {
        Some("str"@)
    } else if op == 0x05 {
        Some("inds"@)
    } else if op == 0x06 {
        Some("push"@)
    } else if op == 0x07 {
        Some("pop"@)
    } else if op == 0x08 {
        Some("iadd"@)
    } else if op == 0x09 {
        Some("isub"@)
    } else if op == 0x0a {
        Some("imul"@)
    } else if op == 0x0b {
        Some("idiv"@)
    } else if op == 0x0c {
        Some("dadd"@)
    } else if op == 0x0d {
        Some("dsub"@)
    } else if op == 0x0e {
        Some("dmul"@)
    } else if op == 0x0f {
        Some("ddiv"@)
    } else if op == 0x10 {
        Some("icst"@)
    } else if op == 0x11 {
        Some("dcst"@)
    } else if op == 0x12 {
        Some("shl"@)
    } else if op == 0x13 {
        Some("shr"@)
    } else if op == 0x14 {
        Some("and"@)
    } else if op == 0x15 {
        Some("or"@)
    } else if op == 0x16 {
        Some("neg"@)
    } else if op == 0x17 {
        Some("icmp"@)
    } else if op == 0x18 {
        Some("dcmp"@)
    } else if op == 0x19 {
        Some("jmp"@)
    } else if op == 0x1a {
        Some("beq"@)
    } else if op == 0x1b {
        Some("bne"@)
    } else if op == 0x1c {
        Some("bgt"@)
    } else if op == 0x1d {
        Some("blt"@)
    } else if op == 0x1e {
        Some("jsr"@)
    } else if op == 0x1f {
        Some("ret"@)
    } else if op == 0x20 {
        Some("sys"@)
    } else if op == 0x22 {
        Some("halt"@)
    } else if op == 0x23 {
        Some("adr"@)
    } else if op == 0x24 {
        Some("lei"@)
    } else if op == 0x25 {
        Some("lst"@)
    } else if op == 0x26 {
        Some("ltt"@)
    } else if op == 0x27 {
        Some("lsf"@)
    } else if op == 0x28 {
        Some("sei"@)
    } else if op == 0x29 {
        Some("sst"@)
    } else if op == 0x2a {
        Some("stt"@)
    } else if op == 0x2b {
        Some("ssf"@)
    } else if op == 0x2c {
        Some("bufc"@)
    } else if op == 0x2d {
        Some("lseq"@)
    } else if op == 0x2e {
        Some("bseq"@)
    } else if op == 0x2f {
        Some("pow"@)
    } else if op == 0x30 {
        Some("root"@)
    } else if op == 0x31 {
        Some("call"@)
    } else {
        None
    }
}

/// The operand arrangement an instruction declares: nothing, a register (or
/// an adjacent register pair, packed into one byte), a register plus a
/// 32-bit address, a register plus a 64-bit immediate, or a bare 32-bit
/// address or immediate.
pub enum OperandShape {
    Nothing,
    Reg,
    RegAddr,
    RegImm64,
    Addr,
}

/// The byte-cost of an operand shape, as the tokenizer's budget counts it.
pub open spec fn shape_cost(s: OperandShape) -> int {
    match s {
        OperandShape::Nothing => 0,
        OperandShape::Reg => 1,
        OperandShape::RegAddr => 5,
        OperandShape::RegImm64 => 9,
        OperandShape::Addr => 4,
    }
}

/// The operand shape each mnemonic of the opcode table declares.
pub open spec fn shape_of(name: Seq<char>) -> Option<OperandShape> {
    if name == "mov"@ {
        Some(OperandShape::RegImm64)
    } else if name == "ldr"@ || name == "str"@ || name == "adr"@ {
        Some(OperandShape::RegAddr)
    } else if name == "cpy"@ || name == "push"@ || name == "pop"@ || name == "iadd"@
        || name == "isub"@ || name == "imul"@ || name == "idiv"@ || name == "dadd"@
        || name == "dsub"@ || name == "dmul"@ || name == "ddiv"@ || name == "icst"@
        || name == "dcst"@ || name == "shl"@ || name == "shr"@ || name == "and"@
        || name == "or"@ || name == "neg"@ || name == "icmp"@ || name == "dcmp"@
        || name == "lei"@ || name == "lst"@ || name == "ltt"@ || name == "lsf"@
        || name == "sei"@ || name == "sst"@ || name == "stt"@ || name == "ssf"@
        || name == "bufc"@ || name == "lseq"@ || name == "bseq"@ || name == "pow"@
        || name == "root"@ || name == "call"@ {
        Some(OperandShape::Reg)
    } else if name == "jmp"@ || name == "beq"@ || name == "bne"@ || name == "bgt"@
        || name == "blt"@ || name == "jsr"@ || name == "sys"@ {
        Some(OperandShape::Addr)
    } else if name == "ret"@ || name == "halt"@ {
        Some(OperandShape::Nothing)
    } else {
        None
    }
}

/// Whether an opcode is lowered with a fixed zero operand byte: the
/// control-transfer group and halt take no register operands, so the
/// assembler supplies the operand byte itself.
pub open spec fn padded_opcode(op: u8) -> bool {
    0x19 <= op <= 0x22
}

/// The byte a string-literal character contributes to the image: the low
/// eight bits of its scalar value.
pub open spec fn char_byte(c: char) -> u8 {
    ((c as u32) & 0xff) as u8
}

/// The byte an escape character after a backslash decodes to, or `None` for
/// an unknown escape.
pub open spec fn escape_byte(c: char) -> Option<u8> {
    if c == 'n' {
        Some(0x0au8)
    } else if c == 't' {
        Some(0x09u8)
    } else if c == 'v' {
        Some(0x0bu8)
    } else if c == '"' {
        Some(0x22u8)
    } else if c == 'r' {
        Some(0x0du8)
    } else if c == 'f' {
        Some(0x0cu8)
    } else if c == 'b' {
        Some(0x08u8)
    } else if c == 'a' {
        Some(0x07u8)
    } else if c == 'e' {
        Some(0x1bu8)
    } else if c == '\'' {
        Some(0x27u8)
    } else if c == '\\' {
        Some(0x5cu8)
    } else {
        None
    }
}

/// Whether a character sequence equals a string slice's characters.
pub fn chars_eq(v: &Vec<char>, s: &str) -> (r: bool)
    ensures
        r == (v@ == s@),
{
    let n = s.unicode_len();
    if v.len() != n {
        proof {
            assert(v@ != s@) by {
                assert(v@.len() != s@.len());
            }
        }
        return false;
    }
    let mut i: usize = 0;
    while i < n
        invariant
            n == s@.len(),
            v@.len() == n,
            i <= n,
            forall|j: int| 0 <= j < i ==> v@[j] == s@[j],
        decreases n - i,
    {
        if v[i] != s.get_char(i) {
            return false;
        }
        i += 1;
    }
    proof {
        assert(v@ =~= s@);
    }
    true
}

/// Whether two string slices hold the same characters.
pub fn str_eq(a: &str, b: &str) -> (r: bool)
    ensures
        r == (a@ == b@),
{
    let n = b.unicode_len();
    if a.unicode_len() != n {
        proof {
            assert(a@ != b@) by {
                assert(a@.len() != b@.len());
            }
        }
        return false;
    }
    let mut i: usize = 0;
    while i < n
        invariant
            n == b@.len(),
            a@.len() == n,
            i <= n,
            forall|j: int| 0 <= j < i ==> a@[j] == b@[j],
        decreases n - i,
    {
        if a.get_char(i) != b.get_char(i) {
            return false;
        }
        i += 1;
    }
    proof {
        assert(a@ =~= b@);
    }
    true
}

/// The characters of a string slice as a vector.
pub fn str_chars(s: &str) -> (r: Vec<char>)
    ensures
        r@ == s@,
{
    let n = s.unicode_len();
    let mut v: Vec<char> = Vec::new();
    let mut i: usize = 0;
    while i < n
        invariant
            n == s@.len(),
            i <= n,
            v@ == s@.take(i as int),
        decreases n - i,
    {
        let c = s.get_char(i);
        v.push(c);
        proof {
            assert(v@ =~= s@.take(i + 1));
        }
        i += 1;
    }
    proof {
        assert(s@.take(n as int) =~= s@);
    }
    v
}

/// Look a word up in the mnemonic table: its opcode byte and operand budget.
pub fn instr_lookup(word: &Vec<char>) -> (r: Option<(u8, i64)>)
    ensures
        match instr_info(word@) {
            Some(info) => r matches Some(e) && e.0 == info.0 && e.1 as int == info.1,
            None => r is None,
        },
{
    if chars_eq(word, "mov") {
        Some((0x00, 9))
    } else if chars_eq(word, "ldr") {
        Some((0x01, 5))
    } else if chars_eq(word, "indl") {
        Some((0x02, 9))
    } else if chars_eq(word, "cpy") {
        Some((0x03, 1))
    } else if chars_eq(word, "str") {
        Some((0x04, 5))
    } else if chars_eq(word, "inds") {
        Some((0x05, 5))
    } else if chars_eq(word, "push") {
        Some((0x06, 1))
    } else if chars_eq(word, "pop") {
        Some((0x07, 1))
    } else if chars_eq(word, "iadd") {
        Some((0x08, 1))
    } else if chars_eq(word, "isub") {
        Some((0x09, 1))
    } else if chars_eq(word, "imul") {
        Some((0x0a, 1))
    } else if chars_eq(word, "idiv") {
        Some((0x0b, 1))
    } else if chars_eq(word, "dadd") {
        Some((0x0c, 1))
    } else if chars_eq(word, "dsub") {
        Some((0x0d, 1))
    } else if chars_eq(word, "dmul") {
        Some((0x0e, 1))
    } else if chars_eq(word, "ddiv") {
        Some((0x0f, 1))
    } else if chars_eq(word, "icst") {
        Some((0x10, 1))
    } else if chars_eq(word, "dcst") {
        Some((0x11, 1))
    } else if chars_eq(word, "shl") {
        Some((0x12, 1))
    } else if chars_eq(word, "shr") {
        Some((0x13, 1))
    } else if chars_eq(word, "and") {
        Some((0x14, 1))
    } else if chars_eq(word, "or") {
        Some((0x15, 1))
    } else if chars_eq(word, "neg") {
        Some((0x16, 1))
    } else if chars_eq(word, "icmp") {
        Some((0x17, 1))
    } else if chars_eq(word, "dcmp") {
        Some((0x18, 1))
    } else if chars_eq(word, "jmp") {
        Some((0x19, 4))
    } else if chars_eq(word, "beq") {
        Some((0x1a, 4))
    } else if chars_eq(word, "bne") {
        Some((0x1b, 4))
    } else if chars_eq(word, "bgt") {
        Some((0x1c, 4))
    } else if chars_eq(word, "blt") {
        Some((0x1d, 4))
    } else if chars_eq(word, "jsr") {
        Some((0x1e, 4))
    } else if chars_eq(word, "ret") {
        Some((0x1f, 0))
    } else if chars_eq(word, "sys") {
        Some((0x20, 4))
    } else if chars_eq(word, "halt") {
        Some((0x22, 0))
    } else if chars_eq(word, "adr") {
        Some((0x23, 5))
    } else if chars_eq(word, "lei") {
        Some((0x24, 1))
    } else if chars_eq(word, "lst") {
        Some((0x25, 1))
    } else if chars_eq(word, "ltt") {
        Some((0x26, 1))
    } else if chars_eq(word, "lsf") {
        Some((0x27, 1))
    } else if chars_eq(word, "sei") {
        Some((0x28, 1))
    } else if chars_eq(word, "sst") {
        Some((0x29, 1))
    } else if chars_eq(word, "stt") {
        Some((0x2a, 1))
    } else if chars_eq(word, "ssf") {
        Some((0x2b, 1))
    } else if chars_eq(word, "bufc") {
        Some((0x2c, 1))
    } else if chars_eq(word, "lseq") {
        Some((0x2d, 1))
    } else if chars_eq(word, "bseq") {
        Some((0x2e, 1))
    } else if chars_eq(word, "pow") {
        Some((0x2f, 1))
    } else if chars_eq(word, "root") {
        Some((0x30, 1))
    } else if chars_eq(word, "call") {
        Some((0x31, 1))
    } else {
        None
    }
}

/// Decode an opcode byte back to its mnemonic.
pub fn mnemonic_for(op: u8) -> (r: Option<&'static str>)
    ensures
        match mnemonic_of(op) {
            Some(name) => r matches Some(s) && s@ == name,
            None => r is None,
        },
{
    if op == 0x00 {
        Some("mov")
    } else if op == 0x01 {
        Some("ldr")
    } else if op == 0x02 {
        Some("indl")
    } else if op == 0x03 {
        Some("cpy")
    } else if op == 0x04 {
        Some("str")
    } else if op == 0x05 {
        Some("inds")
    } else if op == 0x06 {
        Some("push")
    } else if op == 0x07 {
        Some("pop")
    } else if op == 0x08 {
        Some("iadd")
    } else if op == 0x09 {
        Some("isub")
    } else if op == 0x0a {
        Some("imul")
    } else if op == 0x0b {
        Some("idiv")
    } else if op == 0x0c {
        Some("dadd")
    } else if op == 0x0d {
        Some("dsub")
    } else if op == 0x0e {
        Some("dmul")
    } else if op == 0x0f {
        Some("ddiv")
    } else if op == 0x10 {
        Some("icst")
    } else if op == 0x11 {
        Some("dcst")
    } else if op == 0x12 {
        Some("shl")
    } else if op == 0x13 {
        Some("shr")
    } else if op == 0x14 {
        Some("and")
    } else if op == 0x15 {
        Some("or")
    } else if op == 0x16 {
        Some("neg")
    } else if op == 0x17 {
        Some("icmp")
    } else if op == 0x18 {
        Some("dcmp")
    } else if op == 0x19 {
        Some("jmp")
    } else if op == 0x1a {
        Some("beq")
    } else if op == 0x1b {
        Some("bne")
    } else if op == 0x1c {
        Some("bgt")
    } else if op == 0x1d {
        Some("blt")
    } else if op == 0x1e {
        Some("jsr")
    } else if op == 0x1f {
        Some("ret")
    } else if op == 0x20 {
        Some("sys")
    } else if op == 0x22 {
        Some("halt")
    } else if op == 0x23 {
        Some("adr")
    } else if op == 0x24 {
        Some("lei")
    } else if op == 0x25 {
        Some("lst")
    } else if op == 0x26 {
        Some("ltt")
    } else if op == 0x27 {
        Some("lsf")
    } else if op == 0x28 {
        Some("sei")
    } else if op == 0x29 {
        Some("sst")
    } else if op == 0x2a {
        Some("stt")
    } else if op == 0x2b {
        Some("ssf")
    } else if op == 0x2c {
        Some("bufc")
    } else if op == 0x2d {
        Some("lseq")
    } else if op == 0x2e {
        Some("bseq")
    } else if op == 0x2f {
        Some("pow")
    } else if op == 0x30 {
        Some("root")
    } else if op == 0x31 {
        Some("call")
    } else {
        None
    }
}

/// The byte an escape character decodes to, or `None` for an unknown escape.
pub fn escape_for(c: char) -> (r: Option<u8>)
    ensures
        r == escape_byte(c),
{
    if c == 'n' {
        Some(0x0a)
    } else if c == 't' {
        Some(0x09)
    } else if c == 'v' {
        Some(0x0b)
    } else if c == '"' {
        Some(0x22)
    } else if c == 'r' {
        Some(0x0d)
    } else if c == 'f' {
        Some(0x0c)
    } else if c == 'b' {
        Some(0x08)
    } else if c == 'a' {
        Some(0x07)
    } else if c == 'e' {
        Some(0x1b)
    } else if c == '\'' {
        Some(0x27)
    } else if c == '\\' {
        Some(0x5c)
    } else {
        None
    }
}

/// The image byte of a string-literal character.
pub fn char_byte_of(c: char) -> (r: u8)
    ensures
        r == char_byte(c),
{
    ((c as u32) & 0xff) as u8
}

/// The characters of every mnemonic in the table, spelled out so that the
/// table's names can be told apart.
pub proof fn lemma_table_chars()
    ensures
        "mov"@.len() == 3,
        "mov"@[0] == 'm',
        "mov"@[1] == 'o',
        "mov"@[2] == 'v',
        "ldr"@.len() == 3,
        "ldr"@[0] == 'l',
        "ldr"@[1] == 'd',
        "ldr"@[2] == 'r',
        "indl"@.len() == 4,
        "indl"@[0] == 'i',
        "indl"@[1] == 'n',
        "indl"@[2] == 'd',
        "indl"@[3] == 'l',
        "cpy"@.len() == 3,
        "cpy"@[0] == 'c',
        "cpy"@[1] == 'p',
        "cpy"@[2] == 'y',
        "str"@.len() == 3,
        "str"@[0] == 's',
        "str"@[1] == 't',
        "str"@[2] == 'r',
        "inds"@.len() == 4,
        "inds"@[0] == 'i',
        "inds"@[1] == 'n',
        "inds"@[2] == 'd',
        "inds"@[3] == 's',
        "push"@.len() == 4,
        "push"@[0] == 'p',
        "push"@[1] == 'u',
        "push"@[2] == 's',
        "push"@[3] == 'h',
        "pop"@.len() == 3,
        "pop"@[0] == 'p',
        "pop"@[1] == 'o',
        "pop"@[2] == 'p',
        "iadd"@.len() == 4,
        "iadd"@[0] == 'i',
        "iadd"@[1] == 'a',
        "iadd"@[2] == 'd',
        "iadd"@[3] == 'd',
        "isub"@.len() == 4,
        "isub"@[0] == 'i',
        "isub"@[1] == 's',
        "isub"@[2] == 'u',
        "isub"@[3] == 'b',
        "imul"@.len() == 4,
        "imul"@[0] == 'i',
        "imul"@[1] == 'm',
        "imul"@[2] == 'u',
        "imul"@[3] == 'l',
        "idiv"@.len() == 4,
        "idiv"@[0] == 'i',
        "idiv"@[1] == 'd',
        "idiv"@[2] == 'i',
        "idiv"@[3] == 'v',
        "dadd"@.len() == 4,
        "dadd"@[0] == 'd',
        "dadd"@[1] == 'a',
        "dadd"@[2] == 'd',
        "dadd"@[3] == 'd',
        "dsub"@.len() == 4,
        "dsub"@[0] == 'd',
        "dsub"@[1] == 's',
        "dsub"@[2] == 'u',
        "dsub"@[3] == 'b',
        "dmul"@.len() == 4,
        "dmul"@[0] == 'd',
        "dmul"@[1] == 'm',
        "dmul"@[2] == 'u',
        "dmul"@[3] == 'l',
        "ddiv"@.len() == 4,
        "ddiv"@[0] == 'd',
        "ddiv"@[1] == 'd',
        "ddiv"@[2] == 'i',
        "ddiv"@[3] == 'v',
        "icst"@.len() == 4,
        "icst"@[0] == 'i',
        "icst"@[1] == 'c',
        "icst"@[2] == 's',
        "icst"@[3] == 't',
        "dcst"@.len() == 4,
        "dcst"@[0] == 'd',
        "dcst"@[1] == 'c',
        "dcst"@[2] == 's',
        "dcst"@[3] == 't',
        "shl"@.len() == 3,
        "shl"@[0] == 's',
        "shl"@[1] == 'h',
        "shl"@[2] == 'l',
        "shr"@.len() == 3,
        "shr"@[0] == 's',
        "shr"@[1] == 'h',
        "shr"@[2] == 'r',
        "and"@.len() == 3,
        "and"@[0] == 'a',
        "and"@[1] == 'n',
        "and"@[2] == 'd',
        "or"@.len() == 2,
        "or"@[0] == 'o',
        "or"@[1] == 'r',
        "neg"@.len() == 3,
        "neg"@[0] == 'n',
        "neg"@[1] == 'e',
        "neg"@[2] == 'g',
        "icmp"@.len() == 4,
        "icmp"@[0] == 'i',
        "icmp"@[1] == 'c',
        "icmp"@[2] == 'm',
        "icmp"@[3] == 'p',
        "dcmp"@.len() == 4,
        "dcmp"@[0] == 'd',
        "dcmp"@[1] == 'c',
        "dcmp"@[2] == 'm',
        "dcmp"@[3] == 'p',
        "jmp"@.len() == 3,
        "jmp"@[0] == 'j',
        "jmp"@[1] == 'm',
        "jmp"@[2] == 'p',
        "beq"@.len() == 3,
        "beq"@[0] == 'b',
        "beq"@[1] == 'e',
        "beq"@[2] == 'q',
        "bne"@.len() == 3,
        "bne"@[0] == 'b',
        "bne"@[1] == 'n',
        "bne"@[2] == 'e',
        "bgt"@.len() == 3,
        "bgt"@[0] == 'b',
        "bgt"@[1] == 'g',
        "bgt"@[2] == 't',
        "blt"@.len() == 3,
        "blt"@[0] == 'b',
        "blt"@[1] == 'l',
        "blt"@[2] == 't',
        "jsr"@.len() == 3,
        "jsr"@[0] == 'j',
        "jsr"@[1] == 's',
        "jsr"@[2] == 'r',
        "ret"@.len() == 3,
        "ret"@[0] == 'r',
        "ret"@[1] == 'e',
        "ret"@[2] == 't',
        "sys"@.len() == 3,
        "sys"@[0] == 's',
        "sys"@[1] == 'y',
        "sys"@[2] == 's',
        "halt"@.len() == 4,
        "halt"@[0] == 'h',
        "halt"@[1] == 'a',
        "halt"@[2] == 'l',
        "halt"@[3] == 't',
        "adr"@.len() == 3,
        "adr"@[0] == 'a',
        "adr"@[1] == 'd',
        "adr"@[2] == 'r',
        "lei"@.len() == 3,
        "lei"@[0] == 'l',
        "lei"@[1] == 'e',
        "lei"@[2] == 'i',
        "lst"@.len() == 3,
        "lst"@[0] == 'l',
        "lst"@[1] == 's',
        "lst"@[2] == 't',
        "ltt"@.len() == 3,
        "ltt"@[0] == 'l',
        "ltt"@[1] == 't',
        "ltt"@[2] == 't',
        "lsf"@.len() == 3,
        "lsf"@[0] == 'l',
        "lsf"@[1] == 's',
        "lsf"@[2] == 'f',
        "sei"@.len() == 3,
        "sei"@[0] == 's',
        "sei"@[1] == 'e',
        "sei"@[2] == 'i',
        "sst"@.len() == 3,
        "sst"@[0] == 's',
        "sst"@[1] == 's',
        "sst"@[2] == 't',
        "stt"@.len() == 3,
        "stt"@[0] == 's',
        "stt"@[1] == 't',
        "stt"@[2] == 't',
        "ssf"@.len() == 3,
        "ssf"@[0] == 's',
        "ssf"@[1] == 's',
        "ssf"@[2] == 'f',
        "bufc"@.len() == 4,
        "bufc"@[0] == 'b',
        "bufc"@[1] == 'u',
        "bufc"@[2] == 'f',
        "bufc"@[3] == 'c',
        "lseq"@.len() == 4,
        "lseq"@[0] == 'l',
        "lseq"@[1] == 's',
        "lseq"@[2] == 'e',
        "lseq"@[3] == 'q',
        "bseq"@.len() == 4,
        "bseq"@[0] == 'b',
        "bseq"@[1] == 's',
        "bseq"@[2] == 'e',
        "bseq"@[3] == 'q',
        "pow"@.len() == 3,
        "pow"@[0] == 'p',
        "pow"@[1] == 'o',
        "pow"@[2] == 'w',
        "root"@.len() == 4,
        "root"@[0] == 'r',
        "root"@[1] == 'o',
        "root"@[2] == 'o',
        "root"@[3] == 't',
        "call"@.len() == 4,
        "call"@[0] == 'c',
        "call"@[1] == 'a',
        "call"@[2] == 'l',
        "call"@[3] == 'l',
{
    reveal_strlit("mov");
    reveal_strlit("ldr");
    reveal_strlit("indl");
    reveal_strlit("cpy");
    reveal_strlit("str");
    reveal_strlit("inds");
    reveal_strlit("push");
    reveal_strlit("pop");
    reveal_strlit("iadd");
    reveal_strlit("isub");
    reveal_strlit("imul");
    reveal_strlit("idiv");
    reveal_strlit("dadd");
    reveal_strlit("dsub");
    reveal_strlit("dmul");
    reveal_strlit("ddiv");
    reveal_strlit("icst");
    reveal_strlit("dcst");
    reveal_strlit("shl");
    reveal_strlit("shr");
    reveal_strlit("and");
    reveal_strlit("or");
    reveal_strlit("neg");
    reveal_strlit("icmp");
    reveal_strlit("dcmp");
    reveal_strlit("jmp");
    reveal_strlit("beq");
    reveal_strlit("bne");
    reveal_strlit("bgt");
    reveal_strlit("blt");
    reveal_strlit("jsr");
    reveal_strlit("ret");
    reveal_strlit("sys");
    reveal_strlit("halt");
    reveal_strlit("adr");
    reveal_strlit("lei");
    reveal_strlit("lst");
    reveal_strlit("ltt");
    reveal_strlit("lsf");
    reveal_strlit("sei");
    reveal_strlit("sst");
    reveal_strlit("stt");
    reveal_strlit("ssf");
    reveal_strlit("bufc");
    reveal_strlit("lseq");
    reveal_strlit("bseq");
    reveal_strlit("pow");
    reveal_strlit("root");
    reveal_strlit("call");
}

/// Encoding then decoding recovers every mnemonic of the opcode table: a
/// word that encodes to an opcode byte is exactly what that byte decodes
/// back to, and every decodable opcode byte encodes back to itself.
pub proof fn lemma_mnemonic_opcode_round_trip()
    ensures
        forall|name: Seq<char>|
            (#[trigger] opcode_of(name)) matches Some(op) ==> mnemonic_of(op) == Some(name),
        forall|op: u8| (#[trigger] mnemonic_of(op)) matches Some(name) ==> opcode_of(name)
            == Some(op),
{
    lemma_table_chars();
}

/// Packing a destination and a source register index into one operand byte
/// and reading the nibbles back recovers both indices.
pub proof fn lemma_operand_byte_round_trip(lo: u8, hi: u8)
    requires
        lo < 16,
        hi < 16,
    ensures
        ((lo + hi * 16) as u8) & 0x0f == lo,
        (((lo + hi * 16) as u8) & 0xf0) >> 4 == hi,
{
    assert(lo < 16 && hi < 16 ==> ((lo + hi * 16) as u8) & 0x0f == lo && (((lo + hi * 16) as u8)
        & 0xf0) >> 4 == hi) by (bit_vector);
}

/// The operand budget the tokenizer charges for every mnemonic equals the
/// byte-cost of the operand shape the opcode table declares for it.
pub proof fn lemma_budget_matches_declared_shape()
    ensures
        forall|name: Seq<char>|
            (#[trigger] shape_of(name)) matches Some(s) ==> budget_of(name) == Some(shape_cost(s)),
{
    lemma_table_chars();
}

} // verus!

