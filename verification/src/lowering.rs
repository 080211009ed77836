//! The two-pass assembler's specification.
//!
//! Pass one lowers the token sequence to a provisional image: concrete bytes
//! with zero-filled 4-byte placeholders, a table of label definitions with
//! their byte offsets, and the placeholder positions of the label uses.
//! Pass two substitutes each placeholder with the defining label's offset in
//! little-endian form; the image's length never changes.

use crate::errors::AsmErrorModel;
use crate::isa::char_byte;
use crate::isa::escape_byte;
use crate::isa::opcode_of;
use crate::isa::padded_opcode;
use crate::token::TokenModel;
use crate::token::TokenType;
use crate::vml_cpu::copy_into;
use vstd::prelude::*;

verus! {

/// The value of one digit in the given base, or `None` where the character
/// is no digit of that base.
pub open spec fn digit_val(c: char, base: int) -> Option<int> {
    if '0' <= c && c <= '9' && (c as int) - ('0' as int) < base {
        Some((c as int) - ('0' as int))
    } else if base == 16 && 'a' <= c && c <= 'f' {
        Some((c as int) - ('a' as int) + 10)
    } else if base == 16 && 'A' <= c && c <= 'F' {
        Some((c as int) - ('A' as int) + 10)
    } else {
        None
    }
}

/// The number the digits of `s` from position `i` on denote in the given
/// base, accumulated onto `acc`; `None` on any bad digit.
pub open spec fn uint_val_from(s: Seq<char>, i: int, base: int, acc: int) -> Option<int>
    decreases s.len() - i,
{
    if i < 0 || i >= s.len() {
        Some(acc)
    } else {
        match digit_val(s[i], base) {
            Some(d) => uint_val_from(s, i + 1, base, acc * base + d),
            None => None,
        }
    }
}

/// The number a non-empty digit string denotes, or `None`.
pub open spec fn uint_val(s: Seq<char>, base: int) -> Option<int> {
    if s.len() == 0 {
        None
    } else {
        uint_val_from(s, 0, base, 0)
    }
}

/// A register token's index: its payload read as a decimal number, which
/// must name one of the 16 registers.
pub open spec fn parse_reg(s: Seq<char>) -> Option<u8> {
    match uint_val(s, 10) {
        Some(x) => if x <= 15 {
            Some(x as u8)
        } else {
            None
        },
        None => None,
    }
}

/// A hexadecimal payload's value, if it fits the given width.
pub open spec fn parse_hex(s: Seq<char>, max: int) -> Option<int> {
    match uint_val(s, 16) {
        Some(x) => if x <= max {
            Some(x)
        } else {
            None
        },
        None => None,
    }
}

/// The `n` low-order bytes of `v`, little-endian.
pub open spec fn le_bytes(v: int, n: nat) -> Seq<u8>
    decreases n,
{
    if n == 0 {
        Seq::empty()
    } else {
        seq![(v % 256) as u8] + le_bytes(v / 256, (n - 1) as nat)
    }
}

/// A value's little-endian form holds exactly the asked-for byte count.
pub proof fn lemma_le_bytes_len(v: int, n: nat)
    ensures
        le_bytes(v, n).len() == n,
    decreases n,
{
    if n == 0 {
    } else {
        lemma_le_bytes_len(v / 256, (n - 1) as nat);
    }
}

/// Little-endian reading is blind to what stands in front of the bytes.
proof fn lemma_le_val_prepend(b: u8, tail: Seq<u8>, i: int, n: nat)
    requires
        0 <= i,
        i + n <= tail.len(),
    ensures
        crate::vml_cpu::le_val(seq![b] + tail, i + 1, n) == crate::vml_cpu::le_val(tail, i, n),
    decreases n,
{
    if n == 0 {
    } else {
        assert((seq![b] + tail)[i + 1] == tail[i]);
        lemma_le_val_prepend(b, tail, i + 1, (n - 1) as nat);
    }
}

/// An immediate the assembler writes little-endian is read back by the
/// processor as the same value, reduced to what its byte count can hold.
pub proof fn lemma_immediate_round_trip(v: int, n: nat)
    requires
        0 <= v,
    ensures
        crate::vml_cpu::le_val(le_bytes(v, n), 0, n) == v % crate::vml_cpu::pow256(n),
    decreases n,
{
    lemma_le_bytes_len(v, n);
    if n == 0 {
    } else {
        let p = crate::vml_cpu::pow256((n - 1) as nat);
        let tail = le_bytes(v / 256, (n - 1) as nat);
        lemma_le_bytes_len(v / 256, (n - 1) as nat);
        lemma_immediate_round_trip(v / 256, (n - 1) as nat);
        lemma_le_val_prepend((v % 256) as u8, tail, 0, (n - 1) as nat);
        crate::vml_cpu::lemma_pow256_pos((n - 1) as nat);
        assert(p > 0);
        vstd::arithmetic::div_mod::lemma_mod_breakdown(v, 256, p);
        assert((le_bytes(v, n))[0] == (v % 256) as u8);
        assert(crate::vml_cpu::le_val(le_bytes(v, n), 0, n) == v % 256 + 256 * ((v / 256) % p));
        assert(crate::vml_cpu::pow256(n) == 256 * p);
    }
}

/// The image bytes of a string literal's characters from position `i` on:
/// each character contributes its low byte, a backslash escapes the next
/// character through the escape table, and an unknown escape is the error.
/// A backslash at the very end escapes nothing and is dropped.
pub open spec fn str_bytes_run(s: Seq<char>, i: int, esc: bool, acc: Seq<u8>) -> Result<
    Seq<u8>,
    char,
>
    decreases s.len() - i,
{
    if i < 0 || i >= s.len() {
        Ok(acc)
    } else if esc {
        match escape_byte(s[i]) {
            Some(b) => str_bytes_run(s, i + 1, false, acc.push(b)),
            None => Err(s[i]),
        }
    } else if s[i] == '\\' {
        str_bytes_run(s, i + 1, true, acc)
    } else {
        str_bytes_run(s, i + 1, false, acc.push(char_byte(s[i])))
    }
}

/// The image bytes of a whole string literal, without its terminator.
pub open spec fn string_bytes(s: Seq<char>) -> Result<Seq<u8>, char> {
    str_bytes_run(s, 0, false, Seq::empty())
}

/// A digit string's value never falls below what is already accumulated.
pub proof fn lemma_uint_val_from_monotone(s: Seq<char>, i: int, base: int, a: int)
    requires
        base >= 2,
        a >= 0,
    ensures
        uint_val_from(s, i, base, a) matches Some(x) ==> x >= a,
    decreases s.len() - i,
{
    if i < 0 || i >= s.len() {
    } else {
        match digit_val(s[i], base) {
            Some(d) => {
                assert(a * base >= a) by (nonlinear_arith)
                    requires
                        a >= 0,
                        base >= 2,
                ;
                lemma_uint_val_from_monotone(s, i + 1, base, a * base + d);
            },
            None => {},
        }
    }
}

/// The name-and-offset pairs a definition or use table holds, as values.
pub open spec fn defs_view(v: Seq<(String, usize)>) -> Seq<(Seq<char>, int)> {
    Seq::new(v.len(), |i: int| (v[i].0@, v[i].1 as int))
}

/// The relocatable form pass one builds: the provisional image (placeholder
/// contents zero), the label definitions with their offsets, and the label
/// uses with their placeholder positions.
#[verifier::ext_equal]
pub struct Lowered {
    pub bytes: Seq<u8>,
    pub defs: Seq<(Seq<char>, int)>,
    pub uses: Seq<(Seq<char>, int)>,
}

/// An empty relocatable image.
pub open spec fn lowered_init() -> Lowered {
    Lowered { bytes: Seq::empty(), defs: Seq::empty(), uses: Seq::empty() }
}

/// The offset recorded for a label name, scanning the definitions in order.
pub open spec fn lookup(defs: Seq<(Seq<char>, int)>, name: Seq<char>) -> Option<int>
    decreases defs.len(),
{
    if defs.len() == 0 {
        None
    } else if defs.first().0 == name {
        Some(defs.first().1)
    } else {
        lookup(defs.drop_first(), name)
    }
}

/// Pass one over the tokens from position `i` on: each token is lowered to
/// its bytes, definitions record the current offset, uses reserve a 4-byte
/// placeholder, and two adjacent register tokens pack into one byte.
pub open spec fn lower_run(toks: Seq<TokenModel>, i: int, acc: Lowered) -> Result<
    Lowered,
    AsmErrorModel,
>
    decreases toks.len() - i,
{
    if i < 0 || i >= toks.len() {
        Ok(acc)
    } else {
        let t = toks[i];
        match t.token_t {
            TokenType::INSTRUCTION => match opcode_of(t.data) {
                Some(op) => lower_run(
                    toks,
                    i + 1,
                    Lowered {
                        bytes: acc.bytes + if padded_opcode(op) {
                            seq![op, 0u8]
                        } else {
                            seq![op]
                        },
                        ..acc
                    },
                ),
                None => Err(AsmErrorModel::UnknownMnemonic { name: t.data }),
            },
            TokenType::REGISTER => match parse_reg(t.data) {
                Some(r1) => if i + 1 < toks.len() && toks[i + 1].token_t is REGISTER {
                    match parse_reg(toks[i + 1].data) {
                        Some(r2) => lower_run(
                            toks,
                            i + 2,
                            Lowered { bytes: acc.bytes.push((r1 + r2 * 16) as u8), ..acc },
                        ),
                        None => Err(AsmErrorModel::BadRegister { data: toks[i + 1].data }),
                    }
                } else {
                    lower_run(toks, i + 1, Lowered { bytes: acc.bytes.push(r1), ..acc })
                },
                None => Err(AsmErrorModel::BadRegister { data: t.data }),
            },
            TokenType::INTEGER => if t.data.len() == 0 {
                Err(AsmErrorModel::BadInteger { data: t.data })
            } else if t.data.first() == 'L' {
                match parse_hex(t.data.drop_first(), 0xffff_ffff_ffff_ffff) {
                    Some(v) => lower_run(
                        toks,
                        i + 1,
                        Lowered { bytes: acc.bytes + le_bytes(v, 8), ..acc },
                    ),
                    None => Err(AsmErrorModel::BadInteger { data: t.data }),
                }
            } else {
                match parse_hex(t.data.drop_first(), 0xffff_ffff) {
                    Some(v) => lower_run(
                        toks,
                        i + 1,
                        Lowered { bytes: acc.bytes + le_bytes(v, 4), ..acc },
                    ),
                    None => Err(AsmErrorModel::BadInteger { data: t.data }),
                }
            },
            TokenType::LABEL => if t.data.len() == 0 {
                Err(AsmErrorModel::BadLabel { data: t.data })
            } else if t.data.first() == 'D' {
                let name = t.data.drop_first();
                if lookup(acc.defs, name) is Some {
                    Err(AsmErrorModel::DuplicateLabel { name })
                } else {
                    lower_run(
                        toks,
                        i + 1,
                        Lowered { defs: acc.defs.push((name, acc.bytes.len() as int)), ..acc },
                    )
                }
            } else if t.data.first() == 'U' {
                let name = t.data.drop_first();
                lower_run(
                    toks,
                    i + 1,
                    Lowered {
                        bytes: acc.bytes + seq![0u8, 0u8, 0u8, 0u8],
                        uses: acc.uses.push((name, acc.bytes.len() as int)),
                        ..acc
                    },
                )
            } else {
                Err(AsmErrorModel::BadLabel { data: t.data })
            },
            TokenType::STRING => match string_bytes(t.data) {
                Ok(bs) => lower_run(
                    toks,
                    i + 1,
                    Lowered { bytes: acc.bytes + bs + seq![0u8], ..acc },
                ),
                Err(c) => Err(AsmErrorModel::UnknownEscape { escape: c }),
            },
            _ => lower_run(toks, i + 1, acc),
        }
    }
}

/// Pass two over the uses from position `i` on: each placeholder is replaced
/// by the defining label's offset as four little-endian bytes, or resolution
/// fails with the first name that has no definition.
pub open spec fn resolve_run(
    bytes: Seq<u8>,
    uses: Seq<(Seq<char>, int)>,
    i: int,
    defs: Seq<(Seq<char>, int)>,
) -> Result<Seq<u8>, Seq<char>>
    decreases uses.len() - i,
{
    if i < 0 || i >= uses.len() {
        Ok(bytes)
    } else {
        match lookup(defs, uses[i].0) {
            Some(off) => resolve_run(
                copy_into(bytes, uses[i].1, le_bytes(off, 4)),
                uses,
                i + 1,
                defs,
            ),
            None => Err(uses[i].0),
        }
    }
}

/// Assembling a token sequence: lower, then resolve.
pub open spec fn spec_assemble(toks: Seq<TokenModel>) -> Result<Seq<u8>, AsmErrorModel> {
    match lower_run(toks, 0, lowered_init()) {
        Ok(low) => match resolve_run(low.bytes, low.uses, 0, low.defs) {
            Ok(img) => Ok(img),
            Err(name) => Err(AsmErrorModel::UnresolvedLabel { name }),
        },
        Err(e) => Err(e),
    }
}

/// The placeholders of a relocatable image are in bounds, in increasing
/// position order, and do not overlap.
pub open spec fn uses_wf(uses: Seq<(Seq<char>, int)>, len: int) -> bool {
    &&& forall|j: int|
        0 <= j < uses.len() ==> 0 <= (#[trigger] uses[j]).1 && uses[j].1 + 4 <= len
    &&& forall|j: int, k: int|
        0 <= j < k < uses.len() ==> (#[trigger] uses[j]).1 + 4 <= (#[trigger] uses[k]).1
}

/// Pass one only appends: the image grows, existing placeholders stay, and
/// the placeholder list stays well-formed.
pub proof fn lemma_lower_run_wf(toks: Seq<TokenModel>, i: int, acc: Lowered)
    requires
        uses_wf(acc.uses, acc.bytes.len() as int),
        forall|j: int|
            0 <= j < acc.uses.len() ==> (#[trigger] acc.uses[j]).1 + 4 <= acc.bytes.len(),
    ensures
        lower_run(toks, i, acc) matches Ok(low) ==> uses_wf(low.uses, low.bytes.len() as int)
            && low.bytes.len() >= acc.bytes.len(),
    decreases toks.len() - i,
{
    if i < 0 || i >= toks.len() {
    } else {
        let t = toks[i];
        match t.token_t {
            TokenType::INSTRUCTION => {
                match opcode_of(t.data) {
                    Some(op) => {
                        let acc2 = Lowered {
                            bytes: acc.bytes + if padded_opcode(op) {
                                seq![op, 0u8]
                            } else {
                                seq![op]
                            },
                            ..acc
                        };
                        lemma_lower_run_wf(toks, i + 1, acc2);
                    },
                    None => {},
                }
            },
            TokenType::REGISTER => {
                match parse_reg(t.data) {
                    Some(r1) => {
                        if i + 1 < toks.len() && toks[i + 1].token_t is REGISTER {
                            match parse_reg(toks[i + 1].data) {
                                Some(r2) => {
                                    lemma_lower_run_wf(
                                        toks,
                                        i + 2,
                                        Lowered {
                                            bytes: acc.bytes.push((r1 + r2 * 16) as u8),
                                            ..acc
                                        },
                                    );
                                },
                                None => {},
                            }
                        } else {
                            lemma_lower_run_wf(
                                toks,
                                i + 1,
                                Lowered { bytes: acc.bytes.push(r1), ..acc },
                            );
                        }
                    },
                    None => {},
                }
            },
            TokenType::INTEGER => {
                if t.data.len() == 0 {
                } else if t.data.first() == 'L' {
                    match parse_hex(t.data.drop_first(), 0xffff_ffff_ffff_ffff) {
                        Some(v) => {
                            lemma_lower_run_wf(
                                toks,
                                i + 1,
                                Lowered { bytes: acc.bytes + le_bytes(v, 8), ..acc },
                            );
                        },
                        None => {},
                    }
                } else {
                    match parse_hex(t.data.drop_first(), 0xffff_ffff) {
                        Some(v) => {
                            lemma_lower_run_wf(
                                toks,
                                i + 1,
                                Lowered { bytes: acc.bytes + le_bytes(v, 4), ..acc },
                            );
                        },
                        None => {},
                    }
                }
            },
            TokenType::LABEL => {
                if t.data.len() == 0 {
                } else if t.data.first() == 'D' {
                    let name = t.data.drop_first();
                    if lookup(acc.defs, name) is Some {
                    } else {
                        lemma_lower_run_wf(
                            toks,
                            i + 1,
                            Lowered {
                                defs: acc.defs.push((name, acc.bytes.len() as int)),
                                ..acc
                            },
                        );
                    }
                } else if t.data.first() == 'U' {
                    let name = t.data.drop_first();
                    let acc2 = Lowered {
                        bytes: acc.bytes + seq![0u8, 0u8, 0u8, 0u8],
                        uses: acc.uses.push((name, acc.bytes.len() as int)),
                        ..acc
                    };
                    assert(uses_wf(acc2.uses, acc2.bytes.len() as int));
                    lemma_lower_run_wf(toks, i + 1, acc2);
                } else {
                }
            },
            TokenType::STRING => {
                match string_bytes(t.data) {
                    Ok(bs) => {
                        lemma_lower_run_wf(
                            toks,
                            i + 1,
                            Lowered { bytes: acc.bytes + bs + seq![0u8], ..acc },
                        );
                    },
                    Err(c) => {},
                }
            },
            _ => {
                lemma_lower_run_wf(toks, i + 1, acc);
            },
        }
    }
}

/// Resolution from position `i` on, when every remaining use is defined:
/// it succeeds, keeps the image's length, writes each defining offset at its
/// placeholder, and touches nothing below the first remaining placeholder.
proof fn lemma_resolve_run(
    bytes: Seq<u8>,
    uses: Seq<(Seq<char>, int)>,
    i: int,
    defs: Seq<(Seq<char>, int)>,
)
    requires
        0 <= i <= uses.len(),
        uses_wf(uses, bytes.len() as int),
        forall|j: int| i <= j < uses.len() ==> lookup(defs, (#[trigger] uses[j]).0) is Some,
    ensures
        resolve_run(bytes, uses, i, defs) matches Ok(img) && img.len() == bytes.len() && (forall|
            j: int,
        |
            i <= j < uses.len() ==> img.subrange(
                (#[trigger] uses[j]).1,
                uses[j].1 + 4,
            ) == le_bytes(lookup(defs, uses[j].0).unwrap(), 4)) && (forall|k: int|
            0 <= k < (if i < uses.len() {
                uses[i as int].1
            } else {
                bytes.len() as int
            }) ==> #[trigger] resolve_run(bytes, uses, i, defs)->Ok_0[k] == bytes[k]),
    decreases uses.len() - i,
{
    if i >= uses.len() {
    } else {
        let pos = uses[i].1;
        let off = lookup(defs, uses[i].0).unwrap();
        let written = copy_into(bytes, pos, le_bytes(off, 4));
        assert(le_bytes(off, 4).len() == 4) by {
            reveal_with_fuel(le_bytes, 5);
        }
        assert(written.len() == bytes.len());
        lemma_resolve_run(written, uses, i + 1, defs);
        let img = resolve_run(written, uses, i + 1, defs)->Ok_0;
        assert(resolve_run(bytes, uses, i, defs) == Ok::<Seq<u8>, Seq<char>>(img));
        let bound = if i + 1 < uses.len() {
            uses[i + 1].1
        } else {
            bytes.len() as int
        };
        assert(pos + 4 <= bound);
        assert(img.subrange(pos, pos + 4) =~= le_bytes(off, 4)) by {
            assert forall|k: int| pos <= k < pos + 4 implies img[k] == written[k] by {
                assert(k < bound);
            }
            assert(written.subrange(pos, pos + 4) =~= le_bytes(off, 4));
        }
        assert forall|k: int| 0 <= k < pos implies img[k] == bytes[k] by {
            assert(k < bound);
            assert(written[k] == bytes[k]);
        }
    }
}

/// Where every label use has a matching definition, assembly's second pass
/// succeeds, the image's length equals the provisional image's, and each
/// resolved 4-byte reference holds the defining label's byte offset in
/// little-endian form.
pub proof fn lemma_resolution_exact(low: Lowered)
    requires
        uses_wf(low.uses, low.bytes.len() as int),
        forall|j: int|
            0 <= j < low.uses.len() ==> lookup(low.defs, (#[trigger] low.uses[j]).0) is Some,
    ensures
        resolve_run(low.bytes, low.uses, 0, low.defs) matches Ok(img) && img.len()
            == low.bytes.len() && forall|j: int|
            0 <= j < low.uses.len() ==> img.subrange(
                (#[trigger] low.uses[j]).1,
                low.uses[j].1 + 4,
            ) == le_bytes(lookup(low.defs, low.uses[j].0).unwrap(), 4),
{
    lemma_resolve_run(low.bytes, low.uses, 0, low.defs);
}

/// A label use without a definition fails resolution with an
/// unresolved-label error naming the first such label in use order, and no
/// image comes out.
pub proof fn lemma_resolution_fails_on_undefined(low: Lowered, j: int)
    requires
        0 <= j < low.uses.len(),
        lookup(low.defs, low.uses[j].0) is None,
        forall|k: int| 0 <= k < j ==> lookup(low.defs, (#[trigger] low.uses[k]).0) is Some,
    ensures
        resolve_run(low.bytes, low.uses, 0, low.defs) == Err::<Seq<u8>, Seq<char>>(low.uses[j].0),
{
    lemma_resolve_fails(low.bytes, low.uses, 0, low.defs, j);
}

/// Assembling any token sequence whose every label use has a matching
/// definition succeeds, and in the image each resolved 4-byte reference
/// holds the defining label's byte offset, little-endian; the image is as
/// long as the provisional one, placeholders included.
pub proof fn lemma_assemble_resolves_labels(toks: Seq<TokenModel>)
    requires
        lower_run(toks, 0, lowered_init()) is Ok,
        forall|j: int|
            0 <= j < lower_run(toks, 0, lowered_init())->Ok_0.uses.len() ==> lookup(
                lower_run(toks, 0, lowered_init())->Ok_0.defs,
                (#[trigger] lower_run(toks, 0, lowered_init())->Ok_0.uses[j]).0,
            ) is Some,
    ensures
        spec_assemble(toks) matches Ok(img) && {
            let low = lower_run(toks, 0, lowered_init())->Ok_0;
            &&& img.len() == low.bytes.len()
            &&& forall|j: int|
                0 <= j < low.uses.len() ==> img.subrange(
                    (#[trigger] low.uses[j]).1,
                    low.uses[j].1 + 4,
                ) == le_bytes(lookup(low.defs, low.uses[j].0).unwrap(), 4)
        },
{
    lemma_lower_run_wf(toks, 0, lowered_init());
    lemma_resolution_exact(lower_run(toks, 0, lowered_init())->Ok_0);
}

/// Assembling a token sequence with a label use that no definition matches
/// fails with an unresolved-label error naming the first undefined label in
/// use order: no image comes out.
pub proof fn lemma_assemble_fails_on_undefined_label(toks: Seq<TokenModel>, j: int)
    requires
        lower_run(toks, 0, lowered_init()) is Ok,
        0 <= j < lower_run(toks, 0, lowered_init())->Ok_0.uses.len(),
        lookup(
            lower_run(toks, 0, lowered_init())->Ok_0.defs,
            lower_run(toks, 0, lowered_init())->Ok_0.uses[j].0,
        ) is None,
        forall|k: int|
            0 <= k < j ==> lookup(
                lower_run(toks, 0, lowered_init())->Ok_0.defs,
                (#[trigger] lower_run(toks, 0, lowered_init())->Ok_0.uses[k]).0,
            ) is Some,
    ensures
        spec_assemble(toks) == Err::<Seq<u8>, AsmErrorModel>(
            AsmErrorModel::UnresolvedLabel {
                name: lower_run(toks, 0, lowered_init())->Ok_0.uses[j].0,
            },
        ),
{
    lemma_resolution_fails_on_undefined(lower_run(toks, 0, lowered_init())->Ok_0, j);
}

/// Resolution from `i` on fails with the first undefined use from there on.
proof fn lemma_resolve_fails(
    bytes: Seq<u8>,
    uses: Seq<(Seq<char>, int)>,
    i: int,
    defs: Seq<(Seq<char>, int)>,
    j: int,
)
    requires
        0 <= i <= j < uses.len(),
        lookup(defs, uses[j].0) is None,
        forall|k: int| i <= k < j ==> lookup(defs, (#[trigger] uses[k]).0) is Some,
    ensures
        resolve_run(bytes, uses, i, defs) == Err::<Seq<u8>, Seq<char>>(uses[j].0),
    decreases uses.len() - i,
{
    if j == i {
    } else {
        match lookup(defs, uses[i].0) {
            Some(off) => {
                lemma_resolve_fails(
                    copy_into(bytes, uses[i].1, le_bytes(off, 4)),
                    uses,
                    i + 1,
                    defs,
                    j,
                );
            },
            None => {},
        }
    }
}

} // verus!
