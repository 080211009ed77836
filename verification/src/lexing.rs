//! The tokenizer's specification: a character-at-a-time scan machine.
//!
//! Exactly one scan mode governs the interpretation of each character; a
//! finished bare word is matched against the mnemonic table and charges the
//! line's operand budget, which must return to zero by each end of line.

use crate::isa::instr_info;
use crate::token::TokenModel;
use crate::token::TokenType;
use vstd::prelude::*;

verus! {

/// What governs the next character: ready for a bare word, or inside a
/// string literal, a hex literal, a register reference, a label reference,
/// or a comment.
#[derive(Debug, Clone, Copy, PartialEq, Eq, Structural)]
pub enum ScanMode {
    Ready,
    InString,
    InHex,
    InReg,
    InLabel,
    InComment,
}

/// The scan machine's state between characters.
#[verifier::ext_equal]
pub struct LexState {
    /// The scan mode governing the next character.
    pub mode: ScanMode,
    /// The bare-word accumulator.
    pub toks: Seq<char>,
    /// The payload accumulator of the mode being scanned.
    pub expr: Seq<char>,
    /// Inside a string: the previous character was an unconsumed backslash.
    pub esc: bool,
    /// A 64-bit width sigil is pending for the next hex literal.
    pub wide: bool,
    /// A register was already charged against the budget on this line.
    pub reg_pair: bool,
    /// The operand budget still owed on the current line.
    pub expected: int,
    /// The 0-based scan position: how many lines are complete.
    pub line: nat,
    /// The tokens emitted so far.
    pub tokens: Seq<TokenModel>,
}

/// A fatal scan error and the 0-based scan position of the line it was
/// found on; the reported error carries this position plus one, the 1-based
/// line number.
pub enum LexIssue {
    /// A word matched nothing by the end of a line.
    Syntax { line: nat },
    /// The line ended with a nonzero operand budget.
    Operands { line: nat },
    /// The line ended inside a string literal.
    Unclosed { line: nat },
}

/// The scan state before the first character.
pub open spec fn lex_init() -> LexState {
    LexState {
        mode: ScanMode::Ready,
        toks: Seq::empty(),
        expr: Seq::empty(),
        esc: false,
        wide: false,
        reg_pair: false,
        expected: 0,
        line: 0,
        tokens: Seq::empty(),
    }
}

/// One emitted token.
pub open spec fn tok(t: TokenType, data: Seq<char>) -> TokenModel {
    TokenModel { token_t: t, data }
}

/// A finished bare word in ready mode: a mnemonic emits an instruction token
/// and sets the line's operand budget; a sigil opens the matching scan mode;
/// anything else accumulates on.
pub open spec fn ready_step(st: LexState) -> LexState {
    match instr_info(st.toks) {
        Some(info) => LexState {
            tokens: st.tokens.push(tok(TokenType::INSTRUCTION, st.toks)),
            toks: Seq::empty(),
            expected: info.1,
            ..st
        },
        None => if st.toks == "$"@ {
            LexState { wide: true, toks: Seq::empty(), ..st }
        } else if st.toks == "U$"@ {
            LexState { wide: false, toks: Seq::empty(), ..st }
        } else if st.toks == "0x"@ {
            LexState { mode: ScanMode::InHex, toks: Seq::empty(), expr: Seq::empty(), ..st }
        } else if st.toks == "r"@ {
            LexState { mode: ScanMode::InReg, toks: Seq::empty(), expr: Seq::empty(), ..st }
        } else if st.toks == "."@ {
            LexState { mode: ScanMode::InLabel, toks: Seq::empty(), expr: Seq::empty(), ..st }
        } else if st.toks == "\""@ {
            LexState {
                mode: ScanMode::InString,
                toks: Seq::empty(),
                expr: Seq::empty(),
                esc: false,
                ..st
            }
        } else if st.toks == ";"@ {
            LexState { mode: ScanMode::InComment, ..st }
        } else {
            st
        },
    }
}

/// The scan mode's reaction to one character, before the end-of-line checks.
pub open spec fn mode_step(st: LexState, c: char) -> LexState {
    match st.mode {
        ScanMode::Ready => ready_step(st),
        ScanMode::InHex => if c != '\n' && c != ' ' && c != '\t' {
            LexState { expr: st.expr.push(c), ..st }
        } else {
            LexState {
                mode: ScanMode::Ready,
                tokens: st.tokens.push(
                    tok(
                        TokenType::INTEGER,
                        seq![if st.wide { 'L' } else { 'U' }] + st.expr,
                    ),
                ),
                expected: st.expected - if st.wide { 8int } else { 4int },
                toks: Seq::empty(),
                expr: Seq::empty(),
                wide: false,
                ..st
            }
        },
        ScanMode::InReg => if st.toks == "e"@ {
            LexState { mode: ScanMode::Ready, toks: seq!['r', 'e'], ..st }
        } else if st.toks == "o"@ {
            LexState { mode: ScanMode::Ready, toks: seq!['r', 'o'], ..st }
        } else if c != '\n' && c != ',' && c != '\t' && c != ' ' {
            LexState { expr: st.expr.push(c), ..st }
        } else {
            LexState {
                mode: ScanMode::Ready,
                tokens: st.tokens.push(tok(TokenType::REGISTER, st.expr)),
                toks: Seq::empty(),
                expr: Seq::empty(),
                expected: if !st.reg_pair {
                    st.expected - 1
                } else {
                    st.expected
                },
                reg_pair: !st.reg_pair,
                ..st
            }
        },
        ScanMode::InLabel => if c != ':' && c != ' ' && c != '\t' && c != ',' && c != '\n' {
            LexState { expr: st.expr.push(c), ..st }
        } else if c == ':' {
            LexState {
                mode: ScanMode::Ready,
                tokens: st.tokens.push(tok(TokenType::LABEL, seq!['D'] + st.expr)),
                toks: Seq::empty(),
                expr: Seq::empty(),
                ..st
            }
        } else {
            LexState {
                mode: ScanMode::Ready,
                tokens: st.tokens.push(tok(TokenType::LABEL, seq!['U'] + st.expr)),
                expected: st.expected - 4,
                toks: Seq::empty(),
                expr: Seq::empty(),
                ..st
            }
        },
        ScanMode::InComment => if c == '\n' {
            LexState { mode: ScanMode::Ready, toks: Seq::empty(), ..st }
        } else {
            st
        },
        ScanMode::InString => if st.esc {
            LexState { expr: st.expr.push(c), esc: false, ..st }
        } else if c == '\\' {
            LexState { expr: st.expr.push(c), esc: true, ..st }
        } else if c == '"' {
            LexState {
                mode: ScanMode::Ready,
                tokens: st.tokens.push(tok(TokenType::STRING, st.expr)),
                toks: Seq::empty(),
                expr: Seq::empty(),
                ..st
            }
        } else {
            LexState { expr: st.expr.push(c), ..st }
        },
    }
}

/// One character of input: accumulate it, check for a dangling word at a
/// line end, let the scan mode react, and run the end-of-line checks.
pub open spec fn lex_char(st: LexState, c: char) -> Result<LexState, LexIssue> {
    let st1 = if c != '\n' && c != '\t' && c != ' ' {
        LexState { toks: st.toks.push(c), ..st }
    } else {
        st
    };
    if c == '\n' && st1.mode is Ready && st1.toks.len() > 0 {
        Err(LexIssue::Syntax { line: st1.line })
    } else {
        let st2 = mode_step(st1, c);
        if c == '\n' {
            let st3 = LexState { reg_pair: false, ..st2 };
            if st3.expected != 0 {
                Err(LexIssue::Operands { line: st3.line })
            } else if st3.mode is InString {
                Err(LexIssue::Unclosed { line: st3.line })
            } else {
                Ok(LexState { line: st3.line + 1, ..st3 })
            }
        } else {
            Ok(st2)
        }
    }
}

/// The scan machine run over the characters of `s` from position `i` on.
pub open spec fn lex_run(s: Seq<char>, i: int, st: LexState) -> Result<LexState, LexIssue>
    decreases s.len() - i,
{
    if i < 0 || i >= s.len() {
        Ok(st)
    } else {
        match lex_char(st, s[i]) {
            Ok(st2) => lex_run(s, i + 1, st2),
            Err(e) => Err(e),
        }
    }
}

/// Tokenizing a whole text from the initial state.
pub open spec fn spec_lex(s: Seq<char>) -> Result<LexState, LexIssue> {
    lex_run(s, 0, lex_init())
}

/// A finished mnemonic charges the line exactly its declared operand
/// budget: the instruction token is emitted and the budget is set to the
/// table's figure for it.
pub proof fn lemma_mnemonic_sets_budget(st: LexState)
    requires
        st.mode is Ready,
        instr_info(st.toks) is Some,
    ensures
        ready_step(st).expected == crate::isa::budget_of(st.toks).unwrap(),
        ready_step(st).tokens == st.tokens.push(tok(TokenType::INSTRUCTION, st.toks)),
{
}

/// A finished immediate pays its declared width off the budget: 8 for a
/// 64-bit literal, 4 for a 32-bit one.
pub proof fn lemma_immediate_charges_width(st: LexState, c: char)
    requires
        st.mode is InHex,
        c == '\n' || c == ' ' || c == '\t',
    ensures
        mode_step(st, c).expected == st.expected - if st.wide {
            8int
        } else {
            4int
        },
        mode_step(st, c).tokens.len() == st.tokens.len() + 1,
{
}

/// A finished register pays one unit off the budget, and the second
/// register of an adjacent pair is free.
pub proof fn lemma_register_charges_one(st: LexState, c: char)
    requires
        st.mode is InReg,
        st.toks != "e"@,
        st.toks != "o"@,
        c == '\n' || c == ',' || c == '\t' || c == ' ',
    ensures
        mode_step(st, c).expected == if st.reg_pair {
            st.expected
        } else {
            st.expected - 1
        },
        mode_step(st, c).tokens.len() == st.tokens.len() + 1,
{
}

/// A finished label reference pays four bytes off the budget; a label
/// definition pays nothing.
pub proof fn lemma_label_charges(st: LexState, c: char)
    requires
        st.mode is InLabel,
        c == ':' || c == ' ' || c == '\t' || c == ',' || c == '\n',
    ensures
        mode_step(st, c).expected == if c == ':' {
            st.expected
        } else {
            st.expected - 4
        },
        mode_step(st, c).tokens.len() == st.tokens.len() + 1,
{
}

/// At the end of a line with nothing pending, the scan goes on exactly when
/// the operand budget has returned to zero; any leftover budget — an operand
/// short or over — is a fatal error naming the line.
pub proof fn lemma_line_end_budget(st: LexState)
    requires
        st.mode is Ready,
        st.toks.len() == 0,
    ensures
        st.expected == 0 ==> (lex_char(st, '\n') matches Ok(st2) && st2.line == st.line + 1
            && st2.tokens == st.tokens),
        st.expected != 0 ==> lex_char(st, '\n') == Err::<LexState, LexIssue>(
            LexIssue::Operands { line: st.line },
        ),
{
    crate::isa::lemma_table_chars();
    reveal_strlit("$");
    reveal_strlit("U$");
    reveal_strlit("0x");
    reveal_strlit("r");
    reveal_strlit(".");
    reveal_strlit("\"");
    reveal_strlit(";");
    assert(st.toks =~= Seq::<char>::empty());
}

/// The characters of the `n`th line of `s` (0-based, without its newline).
pub open spec fn line_of(s: Seq<char>, n: nat) -> Seq<char>
    decreases s.len(),
{
    if s.len() == 0 {
        Seq::empty()
    } else if n == 0 {
        if s.first() == '\n' {
            Seq::empty()
        } else {
            seq![s.first()] + line_of(s.drop_first(), 0)
        }
    } else {
        if s.first() == '\n' {
            line_of(s.drop_first(), (n - 1) as nat)
        } else {
            line_of(s.drop_first(), n)
        }
    }
}

/// How many newline characters `s` holds.
pub open spec fn newline_count(s: Seq<char>) -> nat
    decreases s.len(),
{
    if s.len() == 0 {
        0
    } else if s.first() == '\n' {
        1 + newline_count(s.drop_first())
    } else {
        newline_count(s.drop_first())
    }
}

/// The characters of lines 0 through `n` joined for an error report: lines
/// before the `n`th are followed by a doubled newline, the `n`th by a
/// single one.
pub open spec fn lines_upto(s: Seq<char>, n: nat) -> Seq<char>
    decreases s.len(),
{
    if s.len() == 0 {
        Seq::empty()
    } else if s.first() == '\n' {
        if n == 0 {
            seq!['\n']
        } else {
            seq!['\n', '\n'] + lines_upto(s.drop_first(), (n - 1) as nat)
        }
    } else {
        seq![s.first()] + lines_upto(s.drop_first(), n)
    }
}

} // verus!
