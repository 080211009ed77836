//! The tokenizer and two-pass assembler.
//!
//! `lex_asm` scans assembly text into tokens, holding each line to its
//! operand budget; `assemble_asm` lowers the tokens to a provisional image
//! with tagged placeholders and resolves every label use into a 4-byte
//! little-endian offset.

use crate::errors::AsmError;
use crate::errors::AsmErrorModel;
use crate::isa::chars_eq;
use crate::isa::char_byte_of;
use crate::isa::escape_for;
use crate::isa::instr_lookup;
use crate::isa::str_chars;
use crate::isa::str_eq;
use crate::lowering::defs_view;
use crate::lowering::digit_val;
use crate::lowering::le_bytes;
use crate::lowering::lookup;
use crate::lowering::lower_run;
use crate::lowering::lowered_init;
use crate::lowering::lemma_lower_run_wf;
use crate::lowering::lemma_uint_val_from_monotone;
use crate::lowering::resolve_run;
use crate::lowering::spec_assemble;
use crate::lowering::str_bytes_run;
use crate::lowering::string_bytes;
use crate::lowering::uint_val;
use crate::lowering::uint_val_from;
use crate::lowering::uses_wf;
use crate::lowering::Lowered;
use crate::vml_cpu::copy_into;
use crate::lexing::lex_char;
use crate::lexing::lex_init;
use crate::lexing::lex_run;
use crate::lexing::line_of;
use crate::lexing::lines_upto;
use crate::lexing::newline_count;
use crate::lexing::spec_lex;
use crate::lexing::tok;
use crate::lexing::LexIssue;
use crate::lexing::LexState;
use crate::lexing::ScanMode;
use crate::token::chars_to_string;
use crate::token::Token;
use crate::token::TokenModel;
use crate::token::TokenType;
use vstd::prelude::*;

verus! {

/// The tokenizer and assembler's shared state: the token list the scan
/// fills, the two scratch accumulators, the scan-state bits and the operand
/// budget of the line being scanned.
pub struct Lexer {
    tokens: Vec<Token>,
    toks: String,
    expr: String,
    lexer_state: u16,
    expected: i8,
}

/// The mathematical value of a `Lexer`.
#[verifier::ext_equal]
pub struct LexerModel {
    pub tokens: Seq<TokenModel>,
    pub toks: Seq<char>,
    pub expr: Seq<char>,
    pub lexer_state: u16,
    pub expected: i8,
}

impl View for Lexer {
    type V = LexerModel;

    closed spec fn view(&self) -> LexerModel {
        LexerModel {
            tokens: Seq::new(self.tokens@.len(), |i: int| self.tokens@[i]@),
            toks: self.toks@,
            expr: self.expr@,
            lexer_state: self.lexer_state,
            expected: self.expected,
        }
    }
}

impl Lexer {
    /// A fresh tokenizer: no tokens, empty accumulators, clear state.
    pub fn new() -> (r: Self)
        ensures
            r@.tokens =~= Seq::<TokenModel>::empty(),
            r@.toks =~= Seq::<char>::empty(),
            r@.expr =~= Seq::<char>::empty(),
            r@.lexer_state == 0,
            r@.expected == 0,
    {
        Lexer {
            tokens: Vec::new(),
            toks: String::new(),
            expr: String::new(),
            lexer_state: 0,
            expected: 0,
        }
    }

    /// Clear every scan-state bit.
    pub fn clear_state(self: &mut Lexer)
        ensures
            final(self)@ =~= (LexerModel { lexer_state: 0u16, ..old(self)@ }),
    {
        self.lexer_state = 0;
    }

    /// Mark the scan as inside a string literal.
    pub fn set_string_bit(self: &mut Lexer)
        ensures
            final(self)@ =~= (LexerModel {
                lexer_state: old(self)@.lexer_state | 1u16,
                ..old(self)@
            }),
    {
        self.lexer_state = self.lexer_state | 1;
    }

    /// Mark the scan as inside a hex literal.
    pub fn set_int_bit(self: &mut Lexer)
        ensures
            final(self)@ =~= (LexerModel {
                lexer_state: old(self)@.lexer_state | 2u16,
                ..old(self)@
            }),
    {
        self.lexer_state = self.lexer_state | 2;
    }

    /// Mark the scan as inside a label reference.
    pub fn set_label_bit(self: &mut Lexer)
        ensures
            final(self)@ =~= (LexerModel {
                lexer_state: old(self)@.lexer_state | 4u16,
                ..old(self)@
            }),
    {
        self.lexer_state = self.lexer_state | 4;
    }

    /// Mark the scan as just past a register sigil.
    pub fn set_prereg_bit(self: &mut Lexer)
        ensures
            final(self)@ =~= (LexerModel {
                lexer_state: old(self)@.lexer_state | 8u16,
                ..old(self)@
            }),
    {
        self.lexer_state = self.lexer_state | 8;
    }

    /// Mark the scan as inside a comment.
    pub fn set_comment_bit(self: &mut Lexer)
        ensures
            final(self)@ =~= (LexerModel {
                lexer_state: old(self)@.lexer_state | 16u16,
                ..old(self)@
            }),
    {
        self.lexer_state = self.lexer_state | 16;
    }

    /// Mark the scan as inside a method definition.
    pub fn set_method_bit(self: &mut Lexer)
        ensures
            final(self)@ =~= (LexerModel {
                lexer_state: old(self)@.lexer_state | 32u16,
                ..old(self)@
            }),
    {
        self.lexer_state = self.lexer_state | 32;
    }

    /// Mark the scan as inside a variable declaration.
    pub fn set_variable_bit(self: &mut Lexer)
        ensures
            final(self)@ =~= (LexerModel {
                lexer_state: old(self)@.lexer_state | 64u16,
                ..old(self)@
            }),
    {
        self.lexer_state = self.lexer_state | 64;
    }

    /// The scan-state bits.
    pub fn state_bits(&self) -> (r: u16)
        ensures
            r == self@.lexer_state,
    {
        self.lexer_state
    }

    /// The tokens collected so far.
    pub fn token_count(&self) -> (r: usize)
        ensures
            r == self@.tokens.len(),
    {
        self.tokens.len()
    }

    /// Append one token and clear the bare-word accumulator.
    pub fn add_token(self: &mut Lexer, t: TokenType, d: &str)
        ensures
            final(self)@ =~= (LexerModel {
                tokens: old(self)@.tokens.push(tok(t, d@)),
                toks: Seq::<char>::empty(),
                ..old(self)@
            }),
    {
        self.tokens.push(Token::new(t, d.to_owned()));
        self.toks = String::new();
        proof {
            assert(self@.tokens =~= old(self)@.tokens.push(tok(t, d@)));
        }
    }

    /// The text of the 0-based line `line` of `file_data`, without its
    /// newline; empty if the text has fewer lines.
    pub fn read_line_num(self: &Lexer, file_data: &String, line: usize) -> (r: String)
        ensures
            r@ == line_of(file_data@, line as nat),
    {
        let s = file_data.as_str();
        let n = s.unicode_len();
        let mut j: usize = 0;
        let mut m: usize = line;
        proof {
            assert(s@.skip(0) =~= s@);
        }
        while j < n && m > 0
            invariant
                j <= n,
                n == s@.len(),
                s@ == file_data@,
                line_of(file_data@, line as nat) == line_of(s@.skip(j as int), m as nat),
            decreases n - j,
        {
            let c = s.get_char(j);
            proof {
                assert(s@.skip(j as int).drop_first() =~= s@.skip(j + 1));
            }
            if c == '\n' {
                m = m - 1;
            }
            j += 1;
        }
        let mut out: Vec<char> = Vec::new();
        if m > 0 {
            proof {
                assert(s@.skip(j as int).len() == 0);
            }
            return chars_to_string(&out);
        }
        while j < n && s.get_char(j) != '\n'
            invariant
                j <= n,
                n == s@.len(),
                s@ == file_data@,
                line_of(file_data@, line as nat) == out@ + line_of(s@.skip(j as int), 0),
            decreases n - j,
        {
            let c = s.get_char(j);
            proof {
                assert(s@.skip(j as int).drop_first() =~= s@.skip(j + 1));
            }
            out.push(c);
            j += 1;
        }
        proof {
            if j < n {
                assert(line_of(s@.skip(j as int), 0) =~= Seq::<char>::empty());
            } else {
                assert(s@.skip(j as int).len() == 0);
            }
            assert(out@ + Seq::<char>::empty() =~= out@);
        }
        chars_to_string(&out)
    }

    /// Tokenize assembly text, appending to the collected tokens.  The scan
    /// follows [`spec_lex`] exactly: each fatal error is returned with the
    /// 1-based number of its line and that line's text, and the tokens
    /// scanned before the failure remain appended.
    #[verifier::rlimit(100)]
    #[verifier::spinoff_prover]
    pub fn lex_asm(self: &mut Lexer, file_data: String) -> (r: Result<(), AsmError>)
        ensures
            match r {
                Ok(u) => spec_lex(file_data@) matches Ok(st) && final(self)@.tokens == old(
                    self,
                )@.tokens + st.tokens,
                Err(e) => spec_lex(file_data@) matches Err(issue) && final(self)@.tokens.len()
                    >= old(self)@.tokens.len() && final(self)@.tokens.take(
                    old(self)@.tokens.len() as int,
                ) == old(self)@.tokens && match issue {
                    LexIssue::Syntax { line } => e@ matches AsmErrorModel::Syntax {
                        line: l2,
                        excerpt,
                    } && l2 == line + 1 && excerpt == line_of(file_data@, line),
                    LexIssue::Operands { line } => e@ matches AsmErrorModel::Operands {
                        line: l2,
                        excerpt,
                    } && l2 == line + 1 && excerpt == line_of(file_data@, line),
                    LexIssue::Unclosed { line } => e@ matches AsmErrorModel::UnclosedString {
                        line: l2,
                        excerpt,
                    } && l2 == line + 1 && excerpt == line_of(file_data@, line),
                },
            },
    {
        let s = file_data.as_str();
        let n = s.unicode_len();
        let mut mode = ScanMode::Ready;
        let mut toks: Vec<char> = Vec::new();
        let mut expr: Vec<char> = Vec::new();
        let mut esc = false;
        let mut wide = false;
        let mut reg_pair = false;
        let mut expected: i128 = 0;
        let mut line: usize = 0;
        let ghost mut emitted: Seq<TokenModel> = Seq::empty();
        proof {
            assert(lex_init() =~= (LexState {
                mode: mode,
                toks: toks@,
                expr: expr@,
                esc: esc,
                wide: wide,
                reg_pair: reg_pair,
                expected: expected as int,
                line: line as nat,
                tokens: emitted,
            }));
        }
        let mut i: usize = 0;
        while i < n
            invariant
                i <= n,
                n == s@.len(),
                s@ == file_data@,
                line <= i,
                expected <= 9 + 8 * (i as int),
                -(8 * (i as int)) <= expected,
                self@.tokens == old(self)@.tokens + emitted,
                self@.expr == old(self)@.expr,
                self@.lexer_state == old(self)@.lexer_state,
                self@.expected == old(self)@.expected,
                spec_lex(file_data@) == lex_run(
                    s@,
                    i as int,
                    LexState {
                        mode: mode,
                        toks: toks@,
                        expr: expr@,
                        esc: esc,
                        wide: wide,
                        reg_pair: reg_pair,
                        expected: expected as int,
                        line: line as nat,
                        tokens: emitted,
                    },
                ),
            decreases n - i,
        {
            let ghost pre = LexState {
                mode: mode,
                toks: toks@,
                expr: expr@,
                esc: esc,
                wide: wide,
                reg_pair: reg_pair,
                expected: expected as int,
                line: line as nat,
                tokens: emitted,
            };
            let c = s.get_char(i);
            if c != '\n' && c != '\t' && c != ' ' {
                toks.push(c);
            }
            if c == '\n' && mode == ScanMode::Ready && toks.len() > 0 {
                let excerpt = self.read_line_num(&file_data, line);
                proof {
                    assert(self@.tokens.take(old(self)@.tokens.len() as int) =~= old(
                        self,
                    )@.tokens);
                }
                return Err(AsmError::Syntax { line: line + 1, excerpt });
            }
            match mode {
                ScanMode::Ready => {
                    let info = instr_lookup(&toks);
                    match info {
                        Some(entry) => {
                            let name = chars_to_string(&toks);
                            self.add_token(TokenType::INSTRUCTION, name.as_str());
                            toks.clear();
                            expected = entry.1 as i128;
                            proof {
                                emitted = emitted.push(tok(TokenType::INSTRUCTION, name@));
                            }
                        },
                        None => {
                            if chars_eq(&toks, "$") {
                                wide = true;
                                toks.clear();
                            } else if chars_eq(&toks, "U$") {
                                wide = false;
                                toks.clear();
                            } else if chars_eq(&toks, "0x") {
                                mode = ScanMode::InHex;
                                toks.clear();
                                expr.clear();
                            } else if chars_eq(&toks, "r") {
                                mode = ScanMode::InReg;
                                toks.clear();
                                expr.clear();
                            } else if chars_eq(&toks, ".") {
                                mode = ScanMode::InLabel;
                                toks.clear();
                                expr.clear();
                            } else if chars_eq(&toks, "\"") {
                                mode = ScanMode::InString;
                                toks.clear();
                                expr.clear();
                                esc = false;
                            } else if chars_eq(&toks, ";") {
                                mode = ScanMode::InComment;
                            }
                        },
                    }
                },
                ScanMode::InHex => {
                    if c != '\n' && c != ' ' && c != '\t' {
                        expr.push(c);
                    } else {
                        let mut payload: Vec<char> = Vec::new();
                        payload.push(if wide { 'L' } else { 'U' });
                        payload.append(&mut expr);
                        let pstr = chars_to_string(&payload);
                        self.add_token(TokenType::INTEGER, pstr.as_str());
                        toks.clear();
                        expected = expected - if wide { 8 } else { 4 };
                        wide = false;
                        mode = ScanMode::Ready;
                        proof {
                            emitted = emitted.push(tok(TokenType::INTEGER, pstr@));
                        }
                    }
                },
                ScanMode::InReg => {
                    if chars_eq(&toks, "e") {
                        mode = ScanMode::Ready;
                        toks.clear();
                        toks.push('r');
                        toks.push('e');
                        proof {
                            assert(toks@ =~= seq!['r', 'e']);
                        }
                    } else if chars_eq(&toks, "o") {
                        mode = ScanMode::Ready;
                        toks.clear();
                        toks.push('r');
                        toks.push('o');
                        proof {
                            assert(toks@ =~= seq!['r', 'o']);
                        }
                    } else if c != '\n' && c != ',' && c != '\t' && c != ' ' {
                        expr.push(c);
                    } else {
                        let pstr = chars_to_string(&expr);
                        self.add_token(TokenType::REGISTER, pstr.as_str());
                        toks.clear();
                        expr.clear();
                        mode = ScanMode::Ready;
                        if !reg_pair {
                            expected = expected - 1;
                            reg_pair = true;
                        } else {
                            reg_pair = false;
                        }
                        proof {
                            emitted = emitted.push(tok(TokenType::REGISTER, pstr@));
                        }
                    }
                },
                ScanMode::InLabel => {
                    if c != ':' && c != ' ' && c != '\t' && c != ',' && c != '\n' {
                        expr.push(c);
                    } else {
                        let mut payload: Vec<char> = Vec::new();
                        payload.push(if c == ':' { 'D' } else { 'U' });
                        payload.append(&mut expr);
                        let pstr = chars_to_string(&payload);
                        self.add_token(TokenType::LABEL, pstr.as_str());
                        toks.clear();
                        mode = ScanMode::Ready;
                        if c != ':' {
                            expected = expected - 4;
                        }
                        proof {
                            emitted = emitted.push(tok(TokenType::LABEL, pstr@));
                        }
                    }
                },
                ScanMode::InComment => {
                    if c == '\n' {
                        toks.clear();
                        mode = ScanMode::Ready;
                    }
                },
                ScanMode::InString => {
                    if esc {
                        expr.push(c);
                        esc = false;
                    } else if c == '\\' {
                        expr.push(c);
                        esc = true;
                    } else if c == '"' {
                        let pstr = chars_to_string(&expr);
                        self.add_token(TokenType::STRING, pstr.as_str());
                        toks.clear();
                        expr.clear();
                        mode = ScanMode::Ready;
                        proof {
                            emitted = emitted.push(tok(TokenType::STRING, pstr@));
                        }
                    } else {
                        expr.push(c);
                    }
                },
            }
            if c == '\n' {
                reg_pair = false;
                if expected != 0 {
                    let excerpt = self.read_line_num(&file_data, line);
                    proof {
                        assert(self@.tokens.take(old(self)@.tokens.len() as int) =~= old(
                            self,
                        )@.tokens);
                    }
                    return Err(AsmError::Operands { line: line + 1, excerpt });
                }
                if mode == ScanMode::InString {
                    let excerpt = self.read_line_num(&file_data, line);
                    proof {
                        assert(self@.tokens.take(old(self)@.tokens.len() as int) =~= old(
                            self,
                        )@.tokens);
                    }
                    return Err(AsmError::UnclosedString { line: line + 1, excerpt });
                }
                line += 1;
            }
            proof {
                let next = LexState {
                    mode: mode,
                    toks: toks@,
                    expr: expr@,
                    esc: esc,
                    wide: wide,
                    reg_pair: reg_pair,
                    expected: expected as int,
                    line: line as nat,
                    tokens: emitted,
                };
                assert(lex_char(pre, c) matches Ok(st2) && st2 =~= next);
            }
            i += 1;
        }
        Ok(())
    }

    /// Assemble the collected tokens into the final binary image, exactly as
    /// [`spec_assemble`] describes it: pass one lowers each token to its
    /// bytes and records label definitions and placeholder positions; pass
    /// two substitutes each placeholder with the defining label's 4-byte
    /// little-endian offset.  Every error is reported in place of an image,
    /// and the token list is left as it was.
    #[verifier::rlimit(100)]
    #[verifier::spinoff_prover]
    pub fn assemble_asm(self: &mut Lexer) -> (r: Result<Vec<u8>, AsmError>)
        ensures
            final(self)@ =~= old(self)@,
            match r {
                Ok(v) => spec_assemble(old(self)@.tokens) matches Ok(img) && v@ == img,
                Err(e) => spec_assemble(old(self)@.tokens) matches Err(em) && e@ == em,
            },
    {
        let ghost toksv = self@.tokens;
        let mut out: Vec<u8> = Vec::new();
        let mut defs: Vec<(String, usize)> = Vec::new();
        let mut uses: Vec<(String, usize)> = Vec::new();
        let n = self.tokens.len();
        proof {
            assert(defs_view(defs@) =~= Seq::<(Seq<char>, int)>::empty());
            assert(defs_view(uses@) =~= Seq::<(Seq<char>, int)>::empty());
            assert((Lowered { bytes: out@, defs: defs_view(defs@), uses: defs_view(uses@) })
                =~= lowered_init());
        }
        let mut ind: usize = 0;
        while ind < n
            invariant
                ind <= n,
                self@ =~= old(self)@,
                n == self@.tokens.len(),
                toksv == self@.tokens,
                lower_run(
                    toksv,
                    ind as int,
                    Lowered { bytes: out@, defs: defs_view(defs@), uses: defs_view(uses@) },
                ) == lower_run(toksv, 0, lowered_init()),
            decreases n - ind,
        {
            let ghost pre = Lowered {
                bytes: out@,
                defs: defs_view(defs@),
                uses: defs_view(uses@),
            };
            let t_type = self.tokens[ind].token_t;
            proof {
                assert(toksv[ind as int] == self.tokens@[ind as int]@);
            }
            match t_type {
                TokenType::INSTRUCTION => {
                    let word = str_chars(self.tokens[ind].data.as_str());
                    match instr_lookup(&word) {
                        Some(entry) => {
                            out.push(entry.0);
                            if entry.0 >= 0x19 && entry.0 <= 0x22 {
                                out.push(0);
                                proof {
                                    assert(out@ =~= pre.bytes + seq![entry.0, 0u8]);
                                }
                            } else {
                                proof {
                                    assert(out@ =~= pre.bytes + seq![entry.0]);
                                }
                            }
                        },
                        None => {
                            return Err(
                                AsmError::UnknownMnemonic { name: self.tokens[ind].data.clone() },
                            );
                        },
                    }
                    ind += 1;
                },
                TokenType::REGISTER => {
                    proof {
                        assert(self.tokens@[ind as int].data@.skip(0) =~= self.tokens@[
                            ind as int
                        ].data@);
                    }
                    let r1 = match parse_uint(self.tokens[ind].data.as_str(), 0, 10, 15) {
                        Some(v) => v as u8,
                        None => {
                            return Err(
                                AsmError::BadRegister { data: self.tokens[ind].data.clone() },
                            );
                        },
                    };
                    if ind + 1 < n && self.tokens[ind + 1].token_t == TokenType::REGISTER {
                        proof {
                            assert(toksv[ind + 1] == self.tokens@[ind + 1]@);
                            assert(self.tokens@[ind + 1].data@.skip(0) =~= self.tokens@[ind
                                + 1].data@);
                        }
                        let r2 = match parse_uint(self.tokens[ind + 1].data.as_str(), 0, 10, 15) {
                            Some(v) => v as u8,
                            None => {
                                return Err(
                                    AsmError::BadRegister {
                                        data: self.tokens[ind + 1].data.clone(),
                                    },
                                );
                            },
                        };
                        out.push(r1 + r2 * 16);
                        ind += 2;
                    } else {
                        out.push(r1);
                        ind += 1;
                    }
                },
                TokenType::INTEGER => {
                    let dn = self.tokens[ind].data.as_str().unicode_len();
                    if dn == 0 {
                        return Err(AsmError::BadInteger { data: self.tokens[ind].data.clone() });
                    }
                    proof {
                        assert(self.tokens@[ind as int].data@.skip(1) =~= self.tokens@[
                            ind as int
                        ].data@.drop_first());
                    }
                    let first = self.tokens[ind].data.as_str().get_char(0);
                    if first == 'L' {
                        match parse_uint(
                            self.tokens[ind].data.as_str(),
                            1,
                            16,
                            0xffff_ffff_ffff_ffff,
                        ) {
                            Some(v) => {
                                push_le_bytes(&mut out, v, 8);
                            },
                            None => {
                                return Err(
                                    AsmError::BadInteger { data: self.tokens[ind].data.clone() },
                                );
                            },
                        }
                    } else {
                        match parse_uint(self.tokens[ind].data.as_str(), 1, 16, 0xffff_ffff) {
                            Some(v) => {
                                push_le_bytes(&mut out, v, 4);
                            },
                            None => {
                                return Err(
                                    AsmError::BadInteger { data: self.tokens[ind].data.clone() },
                                );
                            },
                        }
                    }
                    ind += 1;
                },
                TokenType::LABEL => {
                    let dn = self.tokens[ind].data.as_str().unicode_len();
                    if dn == 0 {
                        return Err(AsmError::BadLabel { data: self.tokens[ind].data.clone() });
                    }
                    let first = self.tokens[ind].data.as_str().get_char(0);
                    let name = tail_string(self.tokens[ind].data.as_str());
                    proof {
                        assert(self.tokens@[ind as int].data@.skip(1) =~= self.tokens@[
                            ind as int
                        ].data@.drop_first());
                    }
                    if first == 'D' {
                        if lookup_def(&defs, name.as_str()).is_some() {
                            return Err(AsmError::DuplicateLabel { name });
                        }
                        let off = out.len();
                        defs.push((name, off));
                        proof {
                            assert(defs_view(defs@) =~= pre.defs.push(
                                (self.tokens@[ind as int].data@.drop_first(), out@.len() as int),
                            ));
                        }
                        ind += 1;
                    } else if first == 'U' {
                        let pos = out.len();
                        uses.push((name, pos));
                        out.push(0);
                        out.push(0);
                        out.push(0);
                        out.push(0);
                        proof {
                            assert(defs_view(uses@) =~= pre.uses.push(
                                (self.tokens@[ind as int].data@.drop_first(), pre.bytes.len() as int),
                            ));
                            assert(out@ =~= pre.bytes + seq![0u8, 0u8, 0u8, 0u8]);
                        }
                        ind += 1;
                    } else {
                        return Err(AsmError::BadLabel { data: self.tokens[ind].data.clone() });
                    }
                },
                TokenType::STRING => {
                    match push_string_bytes(&mut out, self.tokens[ind].data.as_str()) {
                        Ok(u) => {
                            proof {
                                let bs = string_bytes(self.tokens@[ind as int].data@)->Ok_0;
                                assert(out@ =~= pre.bytes + bs + seq![0u8]);
                            }
                        },
                        Err(c) => {
                            return Err(AsmError::UnknownEscape { escape: c });
                        },
                    }
                    ind += 1;
                },
                _ => {
                    ind += 1;
                },
            }
        }
        let ghost low = Lowered { bytes: out@, defs: defs_view(defs@), uses: defs_view(uses@) };
        proof {
            lemma_lower_run_wf(toksv, 0, lowered_init());
            assert(lower_run(toksv, 0, lowered_init()) == Ok::<Lowered, AsmErrorModel>(low));
            assert(uses_wf(low.uses, low.bytes.len() as int));
        }
        let un = uses.len();
        let mut k: usize = 0;
        while k < un
            invariant
                k <= un,
                self@ =~= old(self)@,
                toksv == old(self)@.tokens,
                un == uses@.len(),
                defs_view(uses@) == low.uses,
                defs_view(defs@) == low.defs,
                uses_wf(low.uses, low.bytes.len() as int),
                out@.len() == low.bytes.len(),
                lower_run(toksv, 0, lowered_init()) == Ok::<Lowered, AsmErrorModel>(low),
                resolve_run(low.bytes, low.uses, 0, low.defs) == resolve_run(
                    out@,
                    low.uses,
                    k as int,
                    low.defs,
                ),
            decreases un - k,
        {
            proof {
                assert(low.uses[k as int] == (uses@[k as int].0@, uses@[k as int].1 as int));
            }
            let pos = uses[k].1;
            let off = match lookup_def(&defs, uses[k].0.as_str()) {
                Some(o) => o,
                None => {
                    return Err(AsmError::UnresolvedLabel { name: uses[k].0.clone() });
                },
            };
            let mut tmp: Vec<u8> = Vec::new();
            push_le_bytes(&mut tmp, off as u64, 4);
            proof {
                crate::lowering::lemma_le_bytes_len(off as int, 4);
                assert(tmp@ =~= le_bytes(off as int, 4));
            }
            let ghost prev = out@;
            let olen = out.len();
            let mut j: usize = 0;
            while j < 4
                invariant
                    j <= 4,
                    pos + 4 <= olen,
                    out@.len() == olen,
                    out@.len() == prev.len(),
                    tmp@.len() == 4,
                    tmp@ == le_bytes(off as int, 4),
                    out@ =~= copy_into(prev, pos as int, tmp@.take(j as int)),
                decreases 4 - j,
            {
                out.set(pos + j, tmp[j]);
                proof {
                    assert(out@ =~= copy_into(prev, pos as int, tmp@.take(j + 1)));
                }
                j += 1;
            }
            proof {
                assert(tmp@.take(4) =~= tmp@);
                assert(out@ =~= copy_into(prev, pos as int, le_bytes(off as int, 4)));
            }
            k += 1;
        }
        Ok(out)
    }

    /// The text of lines 0 through `line`, rendered with a doubled newline
    /// after each earlier line and a single one after the last.
    pub fn read_chars_upto(self: &Lexer, file_data: &String, line: usize) -> (r: String)
        requires
            newline_count(file_data@) > line,
        ensures
            r@ == lines_upto(file_data@, line as nat),
    {
        let s = file_data.as_str();
        let n = s.unicode_len();
        let mut out: Vec<char> = Vec::new();
        let mut j: usize = 0;
        let mut m: usize = line;
        let mut done = false;
        proof {
            assert(s@.skip(0) =~= s@);
        }
        while j < n && !done
            invariant
                j <= n,
                n == s@.len(),
                s@ == file_data@,
                done ==> out@ == lines_upto(file_data@, line as nat),
                !done ==> lines_upto(file_data@, line as nat) == out@ + lines_upto(
                    s@.skip(j as int),
                    m as nat,
                ),
                !done ==> newline_count(s@.skip(j as int)) > m,
            decreases n - j,
        {
            let c = s.get_char(j);
            proof {
                assert(s@.skip(j as int).drop_first() =~= s@.skip(j + 1));
            }
            if c == '\n' {
                if m == 0 {
                    out.push('\n');
                    done = true;
                } else {
                    out.push('\n');
                    out.push('\n');
                    m = m - 1;
                }
            } else {
                out.push(c);
            }
            j += 1;
        }
        proof {
            if !done {
                assert(s@.skip(j as int).len() == 0);
            }
        }
        chars_to_string(&out)
    }
}

/// The value of one character as a digit of the given base.
fn digit_of(c: char, base: u64) -> (r: Option<u64>)
    requires
        base == 10 || base == 16,
    ensures
        match digit_val(c, base as int) {
            Some(d) => r matches Some(v) && v as int == d,
            None => r is None,
        },
{
    if '0' <= c && c <= '9' {
        let d = (c as u32) - ('0' as u32);
        if (d as u64) < base {
            Some(d as u64)
        } else {
            None
        }
    } else if base == 16 && 'a' <= c && c <= 'f' {
        Some(((c as u32) - ('a' as u32) + 10) as u64)
    } else if base == 16 && 'A' <= c && c <= 'F' {
        Some(((c as u32) - ('A' as u32) + 10) as u64)
    } else {
        None
    }
}

/// The number the digits of `s` from position `start` on denote in the given
/// base, or `None` where a character is no digit, the digits are empty, or
/// the value exceeds `max`.
fn parse_uint(s: &str, start: usize, base: u64, max: u64) -> (r: Option<u64>)
    requires
        base == 10 || base == 16,
        max >= 15,
        start <= s@.len(),
    ensures
        match uint_val(s@.skip(start as int), base as int) {
            Some(x) => if x <= max {
                r matches Some(v) && v as int == x
            } else {
                r is None
            },
            None => r is None,
        },
{
    let n = s.unicode_len();
    let ghost digits = s@.skip(start as int);
    if start == n {
        return None;
    }
    let mut acc: u64 = 0;
    let mut i: usize = start;
    while i < n
        invariant
            base == 10 || base == 16,
            max >= 15,
            start <= i <= n,
            n == s@.len(),
            digits == s@.skip(start as int),
            acc <= max,
            uint_val_from(digits, 0, base as int, 0) == uint_val_from(
                digits,
                i - start,
                base as int,
                acc as int,
            ),
        decreases n - i,
    {
        let c = s.get_char(i);
        proof {
            assert(digits[i - start] == s@[i as int]);
        }
        let d = match digit_of(c, base) {
            Some(d) => d,
            None => {
                return None;
            },
        };
        if acc > (max - d) / base {
            proof {
                assert(acc as int * base as int + d as int > max as int) by (nonlinear_arith)
                    requires
                        base >= 2,
                        0 <= d,
                        d <= max,
                        acc as int > (max as int - d as int) / (base as int),
                ;
                lemma_uint_val_from_monotone(
                    digits,
                    i - start + 1,
                    base as int,
                    acc as int * base as int + d as int,
                );
            }
            return None;
        }
        proof {
            assert(acc as int * base as int + d as int <= max as int) by (nonlinear_arith)
                requires
                    base >= 2,
                    0 <= d,
                    d <= max,
                    0 <= acc,
                    acc as int <= (max as int - d as int) / (base as int),
            ;
        }
        acc = acc * base + d;
        i += 1;
    }
    Some(acc)
}

/// Append the `n` low-order bytes of `v`, little-endian.
fn push_le_bytes(out: &mut Vec<u8>, v: u64, n: usize)
    requires
        n <= 8,
    ensures
        final(out)@ == old(out)@ + le_bytes(v as int, n as nat),
{
    let mut vv = v;
    let mut k: usize = 0;
    while k < n
        invariant
            k <= n <= 8,
            old(out)@ + le_bytes(v as int, n as nat) == out@ + le_bytes(vv as int, (n - k) as nat),
        decreases n - k,
    {
        out.push((vv % 256) as u8);
        vv = vv / 256;
        k += 1;
    }
    proof {
        assert(out@ + le_bytes(vv as int, 0) =~= out@);
        assert(final(out)@ =~= old(out)@ + le_bytes(v as int, n as nat));
    }
}

/// Append a string literal's image bytes and the zero terminator, decoding
/// escapes through the fixed table; an unknown escape is returned instead.
fn push_string_bytes(out: &mut Vec<u8>, data: &str) -> (r: Result<(), char>)
    ensures
        match string_bytes(data@) {
            Ok(bs) => r is Ok && final(out)@ == old(out)@ + bs + seq![0u8],
            Err(c) => r matches Err(c2) && c2 == c,
        },
{
    let n = data.unicode_len();
    let ghost base = out@;
    proof {
        assert(out@.skip(base.len() as int) =~= Seq::<u8>::empty());
    }
    let mut i: usize = 0;
    let mut esc = false;
    while i < n
        invariant
            i <= n,
            n == data@.len(),
            base == old(out)@,
            out@.len() >= base.len(),
            out@.take(base.len() as int) == base,
            string_bytes(data@) == str_bytes_run(
                data@,
                i as int,
                esc,
                out@.skip(base.len() as int),
            ),
        decreases n - i,
    {
        let ghost prev = out@.skip(base.len() as int);
        let c = data.get_char(i);
        if esc {
            match escape_for(c) {
                Some(b) => {
                    out.push(b);
                    esc = false;
                    proof {
                        assert(out@.skip(base.len() as int) =~= prev.push(b));
                        assert(out@.take(base.len() as int) =~= base);
                    }
                },
                None => {
                    return Err(c);
                },
            }
        } else if c == '\\' {
            esc = true;
        } else {
            let b = char_byte_of(c);
            out.push(b);
            proof {
                assert(out@.skip(base.len() as int) =~= prev.push(b));
                assert(out@.take(base.len() as int) =~= base);
            }
        }
        i += 1;
    }
    proof {
        assert(out@ =~= out@.take(base.len() as int) + out@.skip(base.len() as int));
    }
    out.push(0);
    proof {
        let bs = string_bytes(data@)->Ok_0;
        assert(out@ =~= old(out)@ + bs + seq![0u8]);
    }
    Ok(())
}

/// The offset recorded for a label name, scanning the table in order.
fn lookup_def(defs: &Vec<(String, usize)>, name: &str) -> (r: Option<usize>)
    ensures
        match lookup(defs_view(defs@), name@) {
            Some(off) => r matches Some(v) && v as int == off,
            None => r is None,
        },
{
    let n = defs.len();
    let mut i: usize = 0;
    proof {
        assert(defs_view(defs@).skip(0) =~= defs_view(defs@));
    }
    while i < n
        invariant
            i <= n,
            n == defs@.len(),
            lookup(defs_view(defs@), name@) == lookup(
                defs_view(defs@).skip(i as int),
                name@,
            ),
        decreases n - i,
    {
        proof {
            assert(defs_view(defs@).skip(i as int).drop_first() =~= defs_view(defs@).skip(i + 1));
            assert(defs_view(defs@).skip(i as int).first() == (defs@[i as int].0@, defs@[
                i as int
            ].1 as int));
        }
        if str_eq(defs[i].0.as_str(), name) {
            return Some(defs[i].1);
        }
        i += 1;
    }
    proof {
        assert(defs_view(defs@).skip(n as int).len() == 0);
    }
    None
}

/// The characters of a string slice after its first one, as a new string.
fn tail_string(s: &str) -> (r: String)
    requires
        s@.len() >= 1,
    ensures
        r@ == s@.skip(1),
{
    let n = s.unicode_len();
    let mut out: Vec<char> = Vec::new();
    let mut i: usize = 1;
    while i < n
        invariant
            1 <= i <= n,
            n == s@.len(),
            out@ =~= s@.subrange(1, i as int),
        decreases n - i,
    {
        out.push(s.get_char(i));
        proof {
            assert(out@ =~= s@.subrange(1, i + 1));
        }
        i += 1;
    }
    proof {
        assert(s@.subrange(1, n as int) =~= s@.skip(1));
    }
    chars_to_string(&out)
}

} // verus!
