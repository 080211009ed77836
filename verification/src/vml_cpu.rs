//! The virtual CPU: a register file of 16 raw 64-bit slots, an operand stack,
//! a return-address stack, a flat byte memory, a program counter and a flags
//! byte.  `step` performs one fetch-decode-execute; `exec` repeats it until
//! the machine halts, runs off the image, faults, or needs the host.
//!
//! The CPU itself is exact integer and bit work.  What only the host can do
//! is handed out as a [`StepEvent`]: floating-point arithmetic on register
//! bit patterns, and the numbered syscalls' console and file effects.  The
//! host performs the event and, where an answer is owed, hands it back
//! through [`VMLCpu::apply_float_value`], [`VMLCpu::apply_float_flags`] or
//! [`VMLCpu::store_bytes`].

use vstd::prelude::*;

verus! {

/// Bytes of flat memory a CPU owns: 128 MiB.
pub const MEM_SIZE: usize = 134217728;

/// The flags bit a compare sets when its operands are equal.
pub const FLAG_EQUAL: u8 = 0x04;

/// The flags bit a compare sets when the first operand is below the second.
pub const FLAG_LESS: u8 = 0x20;

/// The flags bit a compare sets when the first operand is above the second.
pub const FLAG_GREATER: u8 = 0x40;

/// The halt latch: once set, the execute loop stops permanently.
pub const FLAG_HALT: u8 = 0x80;

/// A fault that stops execution: the faulting construct is reported to the
/// caller instead of aborting the host.
#[derive(Debug, Clone, Copy, PartialEq, Eq, Structural)]
pub enum Fault {
    /// An unknown opcode, an operand running past the image's end, or a
    /// malformed syscall argument, at the given program counter.
    Decode { pc: usize },
    /// A memory or image data access outside the valid range.
    MemOutOfBounds,
    /// A pop from an empty operand or return-address stack.
    StackUnderflow,
    /// An integer division by zero.
    DivideByZero,
    /// A syscall number outside the table.
    UnknownSyscall { number: u64 },
}

/// A floating-point operation on two register bit patterns, delegated to the
/// host: both operands are read as IEEE-754 doubles and the result's bit
/// pattern is written back through [`VMLCpu::apply_float_value`].
#[derive(Debug, Clone, Copy, PartialEq, Eq, Structural)]
pub enum FloatBinOp {
    Add,
    Sub,
    Mul,
    Div,
    /// The first operand raised to the second.
    Pow,
    /// The first operand raised to the reciprocal of the second.
    Root,
}

/// What one step of execution asks of the host, beyond the state change the
/// step already made.
#[derive(Debug)]
pub enum StepEvent {
    /// The instruction completed; nothing is owed.
    Ran,
    /// The halt latch is set; the machine will not run again.
    Halted,
    /// The program counter reached the image's end.
    OutOfCode,
    /// A float instruction: the host computes `op` over the bit patterns `a`
    /// and `b` and hands the result's bits to register `dst`.
    FloatBin { op: FloatBinOp, dst: u8, a: u64, b: u64 },
    /// A float-to-integer cast: the host truncates the double with bit
    /// pattern `a` and hands the resulting integer's bits to register `dst`.
    FloatTrunc { dst: u8, a: u64 },
    /// A float compare: the host compares the doubles with bit patterns `a`
    /// and `b` and hands the outcome to [`VMLCpu::apply_float_flags`].
    FloatCmp { a: u64, b: u64 },
    /// Print the value in decimal.
    PrintUnsigned { value: u64 },
    /// Print the value as a signed 64-bit integer, reinterpreting the bits.
    PrintSigned { bits: u64 },
    /// Print the value in binary.
    PrintBinary { value: u64 },
    /// Print the value in hexadecimal.
    PrintHex { value: u64 },
    /// Print the double with this bit pattern.
    PrintFloat { bits: u64 },
    /// Print this text.
    PrintString { text: String },
    /// Read one input line and store its bytes, zero-terminated, at `buffer`
    /// through [`VMLCpu::store_bytes`].
    ReadLine { buffer: u64 },
    /// Read the named file and store its bytes at `buffer` through
    /// [`VMLCpu::store_bytes`].
    ReadFile { filename: String, buffer: u64 },
    /// Write `contents` to the named file.
    WriteFile { filename: String, contents: String },
}

/// The mathematical value of a step event.
pub enum EventModel {
    Ran,
    Halted,
    OutOfCode,
    FloatBin { op: FloatBinOp, dst: u8, a: u64, b: u64 },
    FloatTrunc { dst: u8, a: u64 },
    FloatCmp { a: u64, b: u64 },
    PrintUnsigned { value: u64 },
    PrintSigned { bits: u64 },
    PrintBinary { value: u64 },
    PrintHex { value: u64 },
    PrintFloat { bits: u64 },
    PrintString { text: Seq<char> },
    ReadLine { buffer: u64 },
    ReadFile { filename: Seq<char>, buffer: u64 },
    WriteFile { filename: Seq<char>, contents: Seq<char> },
}

impl View for StepEvent {
    type V = EventModel;

    open spec fn view(&self) -> EventModel {
        match self {
            StepEvent::Ran => EventModel::Ran,
            StepEvent::Halted => EventModel::Halted,
            StepEvent::OutOfCode => EventModel::OutOfCode,
            StepEvent::FloatBin { op, dst, a, b } => EventModel::FloatBin {
                op: *op,
                dst: *dst,
                a: *a,
                b: *b,
            },
            StepEvent::FloatTrunc { dst, a } => EventModel::FloatTrunc { dst: *dst, a: *a },
            StepEvent::FloatCmp { a, b } => EventModel::FloatCmp { a: *a, b: *b },
            StepEvent::PrintUnsigned { value } => EventModel::PrintUnsigned { value: *value },
            StepEvent::PrintSigned { bits } => EventModel::PrintSigned { bits: *bits },
            StepEvent::PrintBinary { value } => EventModel::PrintBinary { value: *value },
            StepEvent::PrintHex { value } => EventModel::PrintHex { value: *value },
            StepEvent::PrintFloat { bits } => EventModel::PrintFloat { bits: *bits },
            StepEvent::PrintString { text } => EventModel::PrintString { text: text@ },
            StepEvent::ReadLine { buffer } => EventModel::ReadLine { buffer: *buffer },
            StepEvent::ReadFile { filename, buffer } => EventModel::ReadFile {
                filename: filename@,
                buffer: *buffer,
            },
            StepEvent::WriteFile { filename, contents } => EventModel::WriteFile {
                filename: filename@,
                contents: contents@,
            },
        }
    }
}

/// The mathematical value of a CPU: its whole state.
#[verifier::ext_equal]
pub struct CpuModel {
    pub regs: Seq<u64>,
    pub ret: Seq<usize>,
    pub mem: Seq<u8>,
    pub stack: Seq<u64>,
    pub pc: nat,
    pub flags: u8,
}

impl CpuModel {
    /// A CPU's structural invariant: 16 registers and the fixed memory size.
    pub open spec fn wf(self) -> bool {
        &&& self.regs.len() == 16
        &&& self.mem.len() == MEM_SIZE
    }
}

/// The little-endian value of `n` bytes starting at `i`.
pub open spec fn le_val(bytes: Seq<u8>, i: int, n: nat) -> int
    decreases n,
{
    if n == 0 {
        0
    } else {
        bytes[i] + 256 * le_val(bytes, i + 1, (n - 1) as nat)
    }
}

/// 256 to the `n`th power: the count of values `n` bytes can hold.
pub open spec fn pow256(n: nat) -> int
    decreases n,
{
    if n == 0 {
        1
    } else {
        256 * pow256((n - 1) as nat)
    }
}

/// Byte counts hold at least one value.
pub proof fn lemma_pow256_pos(n: nat)
    ensures
        pow256(n) >= 1,
    decreases n,
{
    if n > 0 {
        lemma_pow256_pos((n - 1) as nat);
    }
}

/// A little-endian value is bounded by what its byte count can hold.
pub proof fn lemma_le_val_bound(bytes: Seq<u8>, i: int, n: nat)
    ensures
        0 <= le_val(bytes, i, n) < pow256(n),
    decreases n,
{
    if n == 0 {
    } else {
        lemma_le_val_bound(bytes, i + 1, (n - 1) as nat);
    }
}

/// Eight bytes hold no more than a `u64`.
pub proof fn lemma_pow256_u64()
    ensures
        pow256(4) == 0x1_0000_0000,
        pow256(8) == 0x1_0000_0000_0000_0000,
{
    reveal_with_fuel(pow256, 9);
}

/// `mem` with the `n` low-order bytes of `v` stored little-endian at `addr`.
pub open spec fn store_le(mem: Seq<u8>, addr: int, v: int, n: nat) -> Seq<u8>
    decreases n,
{
    if n == 0 {
        mem
    } else {
        store_le(mem.update(addr, (v % 256) as u8), addr + 1, v / 256, (n - 1) as nat)
    }
}

/// Storing bytes keeps the memory's length.
pub proof fn lemma_store_le_len(mem: Seq<u8>, addr: int, v: int, n: nat)
    requires
        0 <= addr,
        addr + n <= mem.len(),
    ensures
        store_le(mem, addr, v, n).len() == mem.len(),
    decreases n,
{
    if n == 0 {
    } else {
        lemma_store_le_len(mem.update(addr, (v % 256) as u8), addr + 1, v / 256, (n - 1) as nat);
    }
}

/// The distance from `start` to the first zero byte at or after it, if one
/// exists before the end.
pub open spec fn nt_len(bytes: Seq<u8>, start: int) -> Option<nat>
    decreases bytes.len() - start,
{
    if start < 0 || start >= bytes.len() {
        None
    } else if bytes[start] == 0 {
        Some(0)
    } else {
        match nt_len(bytes, start + 1) {
            Some(n) => Some((n + 1) as nat),
            None => None,
        }
    }
}

/// The characters of the zero-terminated byte string at `start`, each byte
/// read as the character with that scalar value.  Meaningful when
/// `nt_len(bytes, start)` is `Some`.
pub open spec fn nt_chars(bytes: Seq<u8>, start: int) -> Seq<char> {
    match nt_len(bytes, start) {
        Some(n) => Seq::new(n, |k: int| bytes[start + k] as char),
        None => Seq::empty(),
    }
}

/// The zero-terminated bytes themselves, without the terminator.
pub open spec fn nt_bytes(bytes: Seq<u8>, start: int) -> Seq<u8> {
    match nt_len(bytes, start) {
        Some(n) => bytes.subrange(start, start + n),
        None => Seq::empty(),
    }
}

/// The flags byte a three-way compare produces: the old flags are discarded
/// and exactly one of the equal, greater or less bits is set.
pub open spec fn cmp_flags(a: u64, b: u64) -> u8 {
    if a == b {
        FLAG_EQUAL
    } else if a > b {
        FLAG_GREATER
    } else {
        FLAG_LESS
    }
}

/// The flags byte after a host-decided float compare: the old flags are
/// discarded and the reported outcome bits are set.  Unordered operands
/// report none of the three.
pub open spec fn float_cmp_flags(eq: bool, gt: bool, lt: bool) -> u8 {
    ((if eq {
        FLAG_EQUAL as int
    } else {
        0
    }) + (if gt {
        FLAG_GREATER as int
    } else {
        0
    }) + (if lt {
        FLAG_LESS as int
    } else {
        0
    })) as u8
}

/// An input line's content: the bytes without the one trailing newline (and
/// the carriage return before it, where the host supplied one).
pub open spec fn line_content(s: Seq<u8>) -> Seq<u8> {
    if s.len() >= 1 && s.last() == 0x0au8 {
        let t = s.drop_last();
        if t.len() >= 1 && t.last() == 0x0du8 {
            t.drop_last()
        } else {
            t
        }
    } else {
        s
    }
}

/// `mem` with `data` copied in starting at `dst`.
pub open spec fn copy_into(mem: Seq<u8>, dst: int, data: Seq<u8>) -> Seq<u8> {
    Seq::new(mem.len(), |i: int| if dst <= i < dst + data.len() { data[i - dst] } else { mem[i] })
}

/// The outcome one step of execution is specified to have: a fault, or the
/// next machine state together with what the host is asked to do.
pub enum StepModel {
    Fault(Fault),
    Next(CpuModel, EventModel),
}

/// What a numbered syscall does: which operand-stack arguments it pops, in
/// which order, and which host effect it asks for.  `pc2` is the program
/// counter after the invoking instruction.
pub open spec fn spec_syscall(c: CpuModel, rom: Seq<u8>, num: u64, pc2: nat) -> StepModel {
    let len = c.stack.len() as int;
    if num == 0 || num == 2 || num == 3 || num == 6 || num == 7 {
        if len < 1 {
            StepModel::Fault(Fault::StackUnderflow)
        } else {
            let v = c.stack.last();
            let c2 = CpuModel { stack: c.stack.drop_last(), pc: pc2, ..c };
            if num == 0 {
                StepModel::Next(c2, EventModel::PrintUnsigned { value: v })
            } else if num == 2 {
                StepModel::Next(c2, EventModel::PrintBinary { value: v })
            } else if num == 3 {
                StepModel::Next(c2, EventModel::PrintHex { value: v })
            } else if num == 6 {
                StepModel::Next(c2, EventModel::PrintFloat { bits: v })
            } else {
                StepModel::Next(c2, EventModel::PrintSigned { bits: v })
            }
        }
    } else if num == 1 || num == 4 {
        if len < 1 {
            StepModel::Fault(Fault::StackUnderflow)
        } else {
            let addr = c.stack.last() as int;
            let bytes = if num == 1 {
                rom
            } else {
                c.mem
            };
            if nt_len(bytes, addr) is Some {
                StepModel::Next(
                    CpuModel { stack: c.stack.drop_last(), pc: pc2, ..c },
                    EventModel::PrintString { text: nt_chars(bytes, addr) },
                )
            } else {
                StepModel::Fault(Fault::MemOutOfBounds)
            }
        }
    } else if num == 5 {
        if len < 1 {
            StepModel::Fault(Fault::StackUnderflow)
        } else {
            StepModel::Next(
                CpuModel { stack: c.stack.drop_last(), pc: pc2, ..c },
                EventModel::ReadLine { buffer: c.stack.last() },
            )
        }
    } else if num == 8 || num == 9 {
        if len < 3 {
            StepModel::Fault(Fault::StackUnderflow)
        } else {
            let file_addr = c.stack[len - 1];
            let buffer = c.stack[len - 2];
            let context = c.stack[len - 3];
            let c2 = CpuModel { stack: c.stack.take(len - 3), pc: pc2, ..c };
            let name_bytes = if context == 0 {
                rom
            } else {
                c.mem
            };
            if context != 0 && context != 1 {
                StepModel::Fault(Fault::Decode { pc: c.pc as usize })
            } else if nt_len(name_bytes, file_addr as int) is None {
                StepModel::Fault(Fault::MemOutOfBounds)
            } else {
                let filename = nt_chars(name_bytes, file_addr as int);
                if num == 8 {
                    StepModel::Next(c2, EventModel::ReadFile { filename, buffer })
                } else {
                    if nt_len(c.mem, buffer as int) is Some {
                        StepModel::Next(
                            c2,
                            EventModel::WriteFile {
                                filename,
                                contents: nt_chars(c.mem, buffer as int),
                            },
                        )
                    } else {
                        StepModel::Fault(Fault::MemOutOfBounds)
                    }
                }
            }
        }
    } else {
        StepModel::Fault(Fault::UnknownSyscall { number: num })
    }
}

/// One fetch-decode-execute step.  A halted machine or one whose program
/// counter left the image reports so without change; an unknown or truncated
/// instruction is a decode fault; every bounds violation is a fault and
/// leaves the state unchanged.
pub open spec fn spec_step(c: CpuModel, rom: Seq<u8>) -> StepModel {
    if c.flags & FLAG_HALT != 0 {
        StepModel::Next(c, EventModel::Halted)
    } else if c.pc + 1 >= rom.len() {
        StepModel::Next(c, EventModel::OutOfCode)
    } else {
        let pc = c.pc as int;
        let op = rom[pc];
        let args = rom[pc + 1];
        let d = (args & 0x0f) as int;
        let s = ((args & 0xf0) >> 4) as int;
        let dn = args & 0x0f;
        let decode = StepModel::Fault(Fault::Decode { pc: c.pc as usize });
        if op == 0x00 {
            // mov: a 64-bit immediate into a register
            if pc + 10 <= rom.len() {
                StepModel::Next(
                    CpuModel {
                        regs: c.regs.update(d, le_val(rom, pc + 2, 8) as u64),
                        pc: (pc + 10) as nat,
                        ..c
                    },
                    EventModel::Ran,
                )
            } else {
                decode
            }
        } else if op == 0x01 || op == 0x02 {
            // ldr / indl: a byte from memory at an absolute or register-offset address
            if pc + 6 <= rom.len() {
                let a = le_val(rom, pc + 2, 4) + if op == 0x02 {
                    c.regs[s] as int
                } else {
                    0
                };
                if a < c.mem.len() {
                    StepModel::Next(
                        CpuModel {
                            regs: c.regs.update(d, c.mem[a] as u64),
                            pc: (pc + 6) as nat,
                            ..c
                        },
                        EventModel::Ran,
                    )
                } else {
                    StepModel::Fault(Fault::MemOutOfBounds)
                }
            } else {
                decode
            }
        } else if op == 0x03 {
            // cpy: register to register
            StepModel::Next(
                CpuModel { regs: c.regs.update(d, c.regs[s]), pc: (pc + 2) as nat, ..c },
                EventModel::Ran,
            )
        } else if op == 0x04 || op == 0x05 {
            // str / inds: a register's low byte into memory
            if pc + 6 <= rom.len() {
                let a = le_val(rom, pc + 2, 4) + if op == 0x05 {
                    c.regs[s] as int
                } else {
                    0
                };
                if a < c.mem.len() {
                    StepModel::Next(
                        CpuModel {
                            mem: c.mem.update(a, (c.regs[d] & 0xff) as u8),
                            pc: (pc + 6) as nat,
                            ..c
                        },
                        EventModel::Ran,
                    )
                } else {
                    StepModel::Fault(Fault::MemOutOfBounds)
                }
            } else {
                decode
            }
        } else if op == 0x06 {
            // push: a register onto the operand stack
            StepModel::Next(
                CpuModel { stack: c.stack.push(c.regs[d]), pc: (pc + 2) as nat, ..c },
                EventModel::Ran,
            )
        } else if op == 0x07 {
            // pop: the operand stack's top into a register
            if c.stack.len() > 0 {
                StepModel::Next(
                    CpuModel {
                        regs: c.regs.update(d, c.stack.last()),
                        stack: c.stack.drop_last(),
                        pc: (pc + 2) as nat,
                        ..c
                    },
                    EventModel::Ran,
                )
            } else {
                StepModel::Fault(Fault::StackUnderflow)
            }
        } else if op == 0x08 || op == 0x09 || op == 0x0a {
            // iadd / isub / imul: wrapping integer arithmetic
            let v = if op == 0x08 {
                vstd::wrapping::u64_specs::wrapping_add(c.regs[d], c.regs[s])
            } else if op == 0x09 {
                vstd::wrapping::u64_specs::wrapping_sub(c.regs[d], c.regs[s])
            } else {
                vstd::wrapping::u64_specs::wrapping_mul(c.regs[d], c.regs[s])
            };
            StepModel::Next(
                CpuModel { regs: c.regs.update(d, v), pc: (pc + 2) as nat, ..c },
                EventModel::Ran,
            )
        } else if op == 0x0b {
            // idiv: integer division
            if c.regs[s] == 0 {
                StepModel::Fault(Fault::DivideByZero)
            } else {
                StepModel::Next(
                    CpuModel {
                        regs: c.regs.update(d, c.regs[d] / c.regs[s]),
                        pc: (pc + 2) as nat,
                        ..c
                    },
                    EventModel::Ran,
                )
            }
        } else if op == 0x0c || op == 0x0d || op == 0x0e || op == 0x0f || op == 0x2f || op
            == 0x30 {
            // dadd / dsub / dmul / ddiv / pow / root: host float arithmetic
            let fop = if op == 0x0c {
                FloatBinOp::Add
            } else if op == 0x0d {
                FloatBinOp::Sub
            } else if op == 0x0e {
                FloatBinOp::Mul
            } else if op == 0x0f {
                FloatBinOp::Div
            } else if op == 0x2f {
                FloatBinOp::Pow
            } else {
                FloatBinOp::Root
            };
            StepModel::Next(
                CpuModel { pc: (pc + 2) as nat, ..c },
                EventModel::FloatBin { op: fop, dst: dn, a: c.regs[d], b: c.regs[s] },
            )
        } else if op == 0x10 {
            // icst: the bit pattern reinterpreted and back; the register keeps its bits
            StepModel::Next(CpuModel { pc: (pc + 2) as nat, ..c }, EventModel::Ran)
        } else if op == 0x11 {
            // dcst: truncate the double with these bits to a signed integer
            StepModel::Next(
                CpuModel { pc: (pc + 2) as nat, ..c },
                EventModel::FloatTrunc { dst: dn, a: c.regs[d] },
            )
        } else if op == 0x12 || op == 0x13 {
            // shl / shr: shift by the source register, amount taken modulo 64
            let sh = (c.regs[s] & 63) as u64;
            let v = if op == 0x12 {
                c.regs[d] << sh
            } else {
                c.regs[d] >> sh
            };
            StepModel::Next(
                CpuModel { regs: c.regs.update(d, v), pc: (pc + 2) as nat, ..c },
                EventModel::Ran,
            )
        } else if op == 0x14 || op == 0x15 {
            // and / or: bitwise
            let v = if op == 0x14 {
                c.regs[d] & c.regs[s]
            } else {
                c.regs[d] | c.regs[s]
            };
            StepModel::Next(
                CpuModel { regs: c.regs.update(d, v), pc: (pc + 2) as nat, ..c },
                EventModel::Ran,
            )
        } else if op == 0x16 {
            // neg: bitwise complement
            StepModel::Next(
                CpuModel { regs: c.regs.update(d, !c.regs[d]), pc: (pc + 2) as nat, ..c },
                EventModel::Ran,
            )
        } else if op == 0x17 {
            // icmp: three-way unsigned compare into the flags
            StepModel::Next(
                CpuModel { flags: cmp_flags(c.regs[d], c.regs[s]), pc: (pc + 2) as nat, ..c },
                EventModel::Ran,
            )
        } else if op == 0x18 {
            // dcmp: host float compare; the host hands the flags back
            StepModel::Next(
                CpuModel { pc: (pc + 2) as nat, ..c },
                EventModel::FloatCmp { a: c.regs[d], b: c.regs[s] },
            )
        } else if op == 0x19 || op == 0x1a || op == 0x1b || op == 0x1c || op == 0x1d {
            // jmp / beq / bne / bgt / blt: absolute branches
            if pc + 6 <= rom.len() {
                let taken = if op == 0x19 {
                    true
                } else if op == 0x1a {
                    c.flags & FLAG_EQUAL != 0
                } else if op == 0x1b {
                    c.flags & FLAG_EQUAL == 0
                } else if op == 0x1c {
                    c.flags & FLAG_GREATER != 0
                } else {
                    c.flags & FLAG_LESS != 0
                };
                let pc2 = if taken {
                    le_val(rom, pc + 2, 4) as nat
                } else {
                    (pc + 6) as nat
                };
                StepModel::Next(CpuModel { pc: pc2, ..c }, EventModel::Ran)
            } else {
                decode
            }
        } else if op == 0x1e {
            // jsr: push the return address, jump
            if pc + 6 <= rom.len() {
                StepModel::Next(
                    CpuModel {
                        ret: c.ret.push((pc + 6) as usize),
                        pc: le_val(rom, pc + 2, 4) as nat,
                        ..c
                    },
                    EventModel::Ran,
                )
            } else {
                decode
            }
        } else if op == 0x1f {
            // ret: pop the return-address stack into the program counter
            if c.ret.len() > 0 {
                StepModel::Next(
                    CpuModel { ret: c.ret.drop_last(), pc: c.ret.last() as nat, ..c },
                    EventModel::Ran,
                )
            } else {
                StepModel::Fault(Fault::StackUnderflow)
            }
        } else if op == 0x20 {
            // sys: syscall by 32-bit immediate number
            if pc + 6 <= rom.len() {
                spec_syscall(c, rom, le_val(rom, pc + 2, 4) as u64, (pc + 6) as nat)
            } else {
                decode
            }
        } else if op == 0x22 {
            // halt: set the halt latch
            StepModel::Next(
                CpuModel { flags: c.flags | FLAG_HALT, pc: (pc + 2) as nat, ..c },
                EventModel::Ran,
            )
        } else if op == 0x23 {
            // adr: a 32-bit immediate image address into a register
            if pc + 6 <= rom.len() {
                StepModel::Next(
                    CpuModel {
                        regs: c.regs.update(d, le_val(rom, pc + 2, 4) as u64),
                        pc: (pc + 6) as nat,
                        ..c
                    },
                    EventModel::Ran,
                )
            } else {
                decode
            }
        } else if op == 0x24 || op == 0x25 || op == 0x26 || op == 0x27 {
            // lei / lst / ltt / lsf: sized little-endian loads from memory
            let n: nat = if op == 0x24 {
                1
            } else if op == 0x25 {
                2
            } else if op == 0x26 {
                4
            } else {
                8
            };
            let a = c.regs[s] as int;
            if a + n <= c.mem.len() {
                StepModel::Next(
                    CpuModel {
                        regs: c.regs.update(d, le_val(c.mem, a, n) as u64),
                        pc: (pc + 2) as nat,
                        ..c
                    },
                    EventModel::Ran,
                )
            } else {
                StepModel::Fault(Fault::MemOutOfBounds)
            }
        } else if op == 0x28 || op == 0x29 || op == 0x2a || op == 0x2b {
            // sei / sst / stt / ssf: sized little-endian stores into memory
            let n: nat = if op == 0x28 {
                1
            } else if op == 0x29 {
                2
            } else if op == 0x2a {
                4
            } else {
                8
            };
            let a = c.regs[s] as int;
            if a + n <= c.mem.len() {
                StepModel::Next(
                    CpuModel {
                        mem: store_le(c.mem, a, c.regs[d] as int, n),
                        pc: (pc + 2) as nat,
                        ..c
                    },
                    EventModel::Ran,
                )
            } else {
                StepModel::Fault(Fault::MemOutOfBounds)
            }
        } else if op == 0x2c {
            // bufc: copy the zero-terminated image bytes at the destination
            // register's address into memory at the source register's address
            let src = c.regs[d] as int;
            let dst = c.regs[s] as int;
            match nt_len(rom, src) {
                Some(n) => if dst + n <= c.mem.len() {
                    StepModel::Next(
                        CpuModel {
                            mem: copy_into(c.mem, dst, rom.subrange(src, src + n)),
                            pc: (pc + 2) as nat,
                            ..c
                        },
                        EventModel::Ran,
                    )
                } else {
                    StepModel::Fault(Fault::MemOutOfBounds)
                },
                None => StepModel::Fault(Fault::MemOutOfBounds),
            }
        } else if op == 0x2d || op == 0x2e {
            // lseq / bseq: zero-terminated string equality over memory or image
            let bytes = if op == 0x2d {
                c.mem
            } else {
                rom
            };
            let a = c.regs[d] as int;
            let b = c.regs[s] as int;
            if nt_len(bytes, a) is Some && nt_len(bytes, b) is Some {
                let eq = nt_bytes(bytes, a) == nt_bytes(bytes, b);
                StepModel::Next(
                    CpuModel {
                        flags: if eq {
                            FLAG_EQUAL
                        } else {
                            0
                        },
                        pc: (pc + 2) as nat,
                        ..c
                    },
                    EventModel::Ran,
                )
            } else {
                StepModel::Fault(Fault::MemOutOfBounds)
            }
        } else if op == 0x31 {
            // call: syscall by register-held number
            spec_syscall(c, rom, c.regs[d], (pc + 2) as nat)
        } else {
            decode
        }
    }
}

/// Raising 256 to a higher power never shrinks it.
pub proof fn lemma_pow256_mono(a: nat, b: nat)
    requires
        a <= b,
    ensures
        pow256(a) <= pow256(b),
    decreases b,
{
    if a < b {
        lemma_pow256_mono(a, (b - 1) as nat);
        lemma_pow256_pos((b - 1) as nat);
        assert(pow256(b) == 256 * pow256((b - 1) as nat));
    }
}

/// The register-file nibbles of an operand byte are register indices.
pub proof fn lemma_nibbles(args: u8)
    ensures
        (args & 0x0f) < 16,
        ((args & 0xf0) >> 4) < 16,
{
    assert((args & 0x0f) < 16 && ((args & 0xf0) >> 4) < 16) by (bit_vector);
}

/// The virtual CPU: 16 raw 64-bit registers, a return-address stack, the
/// flat memory, the operand stack, the program counter and the flags byte.
pub struct VMLCpu {
    registers: Vec<u64>,
    return_stack: Vec<usize>,
    memory: Vec<u8>,
    stack: Vec<u64>,
    pc: usize,
    flags: u8,
}

impl View for VMLCpu {
    type V = CpuModel;

    closed spec fn view(&self) -> CpuModel {
        CpuModel {
            regs: self.registers@,
            ret: self.return_stack@,
            mem: self.memory@,
            stack: self.stack@,
            pc: self.pc as nat,
            flags: self.flags,
        }
    }
}

/// The little-endian value of `n` bytes at `index`.
fn le_load(bytes: &Vec<u8>, index: usize, n: usize) -> (r: u64)
    requires
        index + n <= bytes@.len(),
        n <= 8,
    ensures
        r as int == le_val(bytes@, index as int, n as nat),
{
    let len = bytes.len();
    let mut val: u64 = 0;
    let mut k: usize = n;
    while k > 0
        invariant
            index + n <= len == bytes@.len(),
            k <= n <= 8,
            val as int == le_val(bytes@, index + k, (n - k) as nat),
        decreases k,
    {
        let b = bytes[index + k - 1];
        proof {
            lemma_le_val_bound(bytes@, index + k, (n - k) as nat);
            lemma_pow256_mono((n - k) as nat, 7);
            lemma_pow256_u64();
            assert(pow256(7) * 256 == pow256(8));
        }
        k = k - 1;
        val = b as u64 + 256 * val;
    }
    val
}

impl VMLCpu {
    /// A fresh machine: registers, memory and flags all zero, both stacks
    /// empty, the program counter at the image's start.
    pub fn new() -> (r: Self)
        ensures
            r@.wf(),
            r@.regs =~= Seq::new(16, |i: int| 0u64),
            r@.mem =~= Seq::new(MEM_SIZE as nat, |i: int| 0u8),
            r@.stack =~= Seq::<u64>::empty(),
            r@.ret =~= Seq::<usize>::empty(),
            r@.pc == 0,
            r@.flags == 0,
    {
        let mut registers: Vec<u64> = Vec::new();
        let mut k: usize = 0;
        while k < 16
            invariant
                k <= 16,
                registers@.len() == k,
                forall|i: int| 0 <= i < k ==> registers@[i] == 0u64,
            decreases 16 - k,
        {
            registers.push(0);
            k += 1;
        }
        let memory: Vec<u8> = vec![0u8; MEM_SIZE];
        VMLCpu {
            registers,
            memory,
            stack: Vec::new(),
            return_stack: Vec::new(),
            pc: 0,
            flags: 0,
        }
    }

    /// The little-endian 64-bit value of the eight bytes at `index`.
    pub fn read_u64(self: &VMLCpu, index: usize, rom: &Vec<u8>) -> (r: u64)
        requires
            index + 8 <= rom@.len(),
        ensures
            r as int == le_val(rom@, index as int, 8),
    {
        le_load(rom, index, 8)
    }

    /// The little-endian 32-bit value of the four bytes at `index`.
    pub fn read_usize(self: &VMLCpu, index: usize, rom: &Vec<u8>) -> (r: usize)
        requires
            index + 4 <= rom@.len(),
        ensures
            r as int == le_val(rom@, index as int, 4),
    {
        proof {
            lemma_le_val_bound(rom@, index as int, 4);
            lemma_pow256_u64();
        }
        le_load(rom, index, 4) as usize
    }

    /// The zero-terminated string at `index` in the image, each byte read as
    /// the character with its scalar value.
    #[allow(non_snake_case)]
    pub fn read_NTString(self: &VMLCpu, index: usize, rom: &Vec<u8>) -> (r: String)
        requires
            nt_len(rom@, index as int) is Some,
        ensures
            r@ == nt_chars(rom@, index as int),
    {
        read_nt_string(rom, index as u64)
    }

    /// The zero-terminated string at `index` in this machine's memory.
    #[allow(non_snake_case)]
    pub fn read_buffered_NTString(self: &VMLCpu, index: usize) -> (r: String)
        requires
            nt_len(self@.mem, index as int) is Some,
        ensures
            r@ == nt_chars(self@.mem, index as int),
    {
        read_nt_string(&self.memory, index as u64)
    }

    /// One register's current bits.
    pub fn register(&self, i: usize) -> (r: u64)
        requires
            self@.wf(),
            i < 16,
        ensures
            r == self@.regs[i as int],
    {
        self.registers[i]
    }

    /// The flags byte.
    pub fn flag_bits(&self) -> (r: u8)
        ensures
            r == self@.flags,
    {
        self.flags
    }

    /// The program counter.
    pub fn program_counter(&self) -> (r: usize)
        ensures
            r == self@.pc,
    {
        self.pc
    }

    /// How many values the operand stack holds.
    pub fn stack_len(&self) -> (r: usize)
        ensures
            r == self@.stack.len(),
    {
        self.stack.len()
    }

    /// The operand-stack value at depth `i`, counted from the bottom.
    pub fn stack_at(&self, i: usize) -> (r: u64)
        requires
            i < self@.stack.len(),
        ensures
            r == self@.stack[i as int],
    {
        self.stack[i]
    }

    /// One memory byte.
    pub fn mem_at(&self, addr: usize) -> (r: u8)
        requires
            addr < self@.mem.len(),
        ensures
            r == self@.mem[addr as int],
    {
        self.memory[addr]
    }

    /// Hand back the bits a host float operation produced for a register.
    pub fn apply_float_value(&mut self, dst: u8, bits: u64)
        requires
            old(self)@.wf(),
            dst < 16,
        ensures
            final(self)@ =~= (CpuModel {
                regs: old(self)@.regs.update(dst as int, bits),
                ..old(self)@
            }),
    {
        self.registers.set(dst as usize, bits);
    }

    /// Hand back a host float compare's outcome: the flags are recomputed
    /// from it, the old flags discarded.
    pub fn apply_float_flags(&mut self, eq: bool, gt: bool, lt: bool)
        ensures
            final(self)@ =~= (CpuModel { flags: float_cmp_flags(eq, gt, lt), ..old(self)@ }),
    {
        let mut f: u8 = 0;
        if eq {
            f = f + FLAG_EQUAL;
        }
        if gt {
            f = f + FLAG_GREATER;
        }
        if lt {
            f = f + FLAG_LESS;
        }
        self.flags = f;
    }

    /// Store bytes the host produced (an input line, a file's contents) into
    /// memory at `addr`, or report the bounds fault and change nothing.
    pub fn store_bytes(&mut self, addr: u64, data: &Vec<u8>) -> (r: Result<(), Fault>)
        requires
            old(self)@.wf(),
        ensures
            final(self)@.wf(),
            match r {
                Ok(u) => addr + data@.len() <= old(self)@.mem.len() && final(self)@ =~= (CpuModel {
                    mem: copy_into(old(self)@.mem, addr as int, data@),
                    ..old(self)@
                }),
                Err(f) => f == Fault::MemOutOfBounds && addr + data@.len() > old(self)@.mem.len()
                    && final(self)@ =~= old(self)@,
            },
    {
        let n = data.len();
        if addr > MEM_SIZE as u64 || n > MEM_SIZE - (addr as usize) {
            return Err(Fault::MemOutOfBounds);
        }
        let a = addr as usize;
        let mut k: usize = 0;
        while k < n
            invariant
                self@.wf(),
                a + n <= MEM_SIZE,
                n == data@.len(),
                k <= n,
                self@.mem =~= copy_into(old(self)@.mem, a as int, data@.take(k as int)),
                self@.regs == old(self)@.regs,
                self@.ret == old(self)@.ret,
                self@.stack == old(self)@.stack,
                self@.pc == old(self)@.pc,
                self@.flags == old(self)@.flags,
            decreases n - k,
        {
            self.memory.set(a + k, data[k]);
            proof {
                assert(self@.mem =~= copy_into(old(self)@.mem, a as int, data@.take(k + 1)));
            }
            k += 1;
        }
        proof {
            assert(data@.take(n as int) =~= data@);
        }
        Ok(())
    }

    /// Store an input line the host read for the line-read syscall: its
    /// bytes without the trailing newline, then one zero terminator, at
    /// `addr`; or report the bounds fault and change nothing.
    pub fn store_line(&mut self, addr: u64, line: &Vec<u8>) -> (r: Result<(), Fault>)
        requires
            old(self)@.wf(),
        ensures
            final(self)@.wf(),
            match r {
                Ok(u) => addr + line_content(line@).len() + 1 <= old(self)@.mem.len()
                    && final(self)@ =~= (CpuModel {
                    mem: copy_into(old(self)@.mem, addr as int, line_content(line@).push(0u8)),
                    ..old(self)@
                }),
                Err(f) => f == Fault::MemOutOfBounds && addr + line_content(line@).len() + 1
                    > old(self)@.mem.len() && final(self)@ =~= old(self)@,
            },
    {
        let mut n = line.len();
        if n >= 1 && line[n - 1] == 0x0a {
            n = n - 1;
            if n >= 1 && line[n - 1] == 0x0d {
                n = n - 1;
            }
        }
        proof {
            assert(line_content(line@) =~= line@.take(n as int));
        }
        let mut buf: Vec<u8> = Vec::new();
        let mut k: usize = 0;
        while k < n
            invariant
                n <= line@.len(),
                k <= n,
                buf@ =~= line@.take(n as int).take(k as int),
            decreases n - k,
        {
            buf.push(line[k]);
            proof {
                assert(buf@ =~= line@.take(n as int).take(k + 1));
            }
            k += 1;
        }
        buf.push(0);
        proof {
            assert(buf@ =~= line_content(line@).push(0u8));
        }
        self.store_bytes(addr, &buf)
    }

    /// Store the `n` low-order bytes of `v` little-endian at `addr`.
    fn mem_store_le(&mut self, addr: usize, v: u64, n: usize)
        requires
            old(self)@.wf(),
            addr + n <= old(self)@.mem.len(),
            n <= 8,
        ensures
            final(self)@ =~= (CpuModel {
                mem: store_le(old(self)@.mem, addr as int, v as int, n as nat),
                ..old(self)@
            }),
    {
        let mut vv = v;
        let mut k: usize = 0;
        while k < n
            invariant
                addr + n <= self@.mem.len(),
                self@.mem.len() == old(self)@.mem.len(),
                self@.mem.len() == MEM_SIZE,
                k <= n <= 8,
                store_le(old(self)@.mem, addr as int, v as int, n as nat) == store_le(
                    self@.mem,
                    addr + k,
                    vv as int,
                    (n - k) as nat,
                ),
                self@.regs == old(self)@.regs,
                self@.ret == old(self)@.ret,
                self@.stack == old(self)@.stack,
                self@.pc == old(self)@.pc,
                self@.flags == old(self)@.flags,
            decreases n - k,
        {
            self.memory.set(addr + k, (vv % 256) as u8);
            vv = vv / 256;
            k += 1;
        }
    }
}

/// The distance from `start` to the first zero byte, if one exists.
fn find_nt(bytes: &Vec<u8>, start: u64) -> (r: Option<usize>)
    ensures
        match nt_len(bytes@, start as int) {
            Some(n) => r matches Some(m) && m as nat == n,
            None => r is None,
        },
{
    if start >= bytes.len() as u64 {
        return None;
    }
    let st = start as usize;
    let mut j: usize = st;
    while j < bytes.len() && bytes[j] != 0
        invariant
            st <= j <= bytes@.len(),
            nt_len(bytes@, st as int) == match nt_len(bytes@, j as int) {
                Some(m) => Some((m + (j - st)) as nat),
                None => None::<nat>,
            },
        decreases bytes@.len() - j,
    {
        j += 1;
    }
    if j < bytes.len() {
        Some(j - st)
    } else {
        None
    }
}

/// The characters of the zero-terminated byte string at `start`: each byte
/// read as the character with its scalar value.
fn read_nt_string(bytes: &Vec<u8>, start: u64) -> (r: String)
    requires
        nt_len(bytes@, start as int) is Some,
    ensures
        r@ == nt_chars(bytes@, start as int),
{
    let n = match find_nt(bytes, start) {
        Some(n) => n,
        None => unreached(),
    };
    let st = start as usize;
    let len = bytes.len();
    proof {
        lemma_nt_len_in_range(bytes@, st as int);
    }
    let mut chars: Vec<char> = Vec::new();
    let mut k: usize = 0;
    while k < n
        invariant
            st + n < len == bytes@.len(),
            k <= n,
            chars@ =~= nt_chars(bytes@, st as int).take(k as int),
            nt_len(bytes@, st as int) == Some(n as nat),
        decreases n - k,
    {
        chars.push(bytes[st + k] as char);
        proof {
            assert(chars@ =~= nt_chars(bytes@, st as int).take(k + 1));
        }
        k += 1;
    }
    proof {
        assert(nt_chars(bytes@, st as int).take(n as int) =~= nt_chars(bytes@, st as int));
    }
    crate::token::chars_to_string(&chars)
}

/// A zero-terminated string's bytes all lie inside the byte sequence.
proof fn lemma_nt_len_in_range(bytes: Seq<u8>, start: int)
    requires
        nt_len(bytes, start) is Some,
    ensures
        0 <= start,
        start + nt_len(bytes, start).unwrap() < bytes.len(),
        forall|k: int|
            0 <= k < nt_len(bytes, start).unwrap() ==> #[trigger] bytes[start + k] != 0,
        bytes[start + nt_len(bytes, start).unwrap()] == 0,
    decreases bytes.len() - start,
{
    if start < 0 || start >= bytes.len() {
    } else if bytes[start] == 0 {
    } else {
        lemma_nt_len_in_range(bytes, start + 1);
        assert forall|k: int| 0 <= k < nt_len(bytes, start).unwrap() implies #[trigger] bytes[start
            + k] != 0 by {
            if k > 0 {
                assert(bytes[(start + 1) + (k - 1)] != 0);
            }
        }
    }
}

impl VMLCpu {
    /// Dispatch one numbered syscall: pop its arguments in the instruction's
    /// fixed order and hand the host effect out, or fault without change.
    fn do_syscall(&mut self, rom: &Vec<u8>, num: u64, pc_after: usize) -> (r: Result<
        StepEvent,
        Fault,
    >)
        requires
            old(self)@.wf(),
        ensures
            final(self)@.wf(),
            match spec_syscall(old(self)@, rom@, num, pc_after as nat) {
                StepModel::Fault(f) => r matches Err(f2) && f2 == f && final(self)@ =~= old(
                    self,
                )@,
                StepModel::Next(c2, ev) => r matches Ok(e) && e@ == ev && final(self)@ =~= c2,
            },
    {
        if num == 0 || num == 2 || num == 3 || num == 6 || num == 7 {
            if self.stack.len() == 0 {
                return Err(Fault::StackUnderflow);
            }
            let v = self.stack.pop().unwrap();
            self.pc = pc_after;
            if num == 0 {
                Ok(StepEvent::PrintUnsigned { value: v })
            } else if num == 2 {
                Ok(StepEvent::PrintBinary { value: v })
            } else if num == 3 {
                Ok(StepEvent::PrintHex { value: v })
            } else if num == 6 {
                Ok(StepEvent::PrintFloat { bits: v })
            } else {
                Ok(StepEvent::PrintSigned { bits: v })
            }
        } else if num == 1 || num == 4 {
            if self.stack.len() == 0 {
                return Err(Fault::StackUnderflow);
            }
            let addr = self.stack[self.stack.len() - 1];
            let text = if num == 1 {
                if find_nt(rom, addr).is_none() {
                    return Err(Fault::MemOutOfBounds);
                }
                read_nt_string(rom, addr)
            } else {
                if find_nt(&self.memory, addr).is_none() {
                    return Err(Fault::MemOutOfBounds);
                }
                read_nt_string(&self.memory, addr)
            };
            self.stack.pop();
            self.pc = pc_after;
            Ok(StepEvent::PrintString { text })
        } else if num == 5 {
            if self.stack.len() == 0 {
                return Err(Fault::StackUnderflow);
            }
            let buffer = self.stack.pop().unwrap();
            self.pc = pc_after;
            Ok(StepEvent::ReadLine { buffer })
        } else if num == 8 || num == 9 {
            if self.stack.len() < 3 {
                return Err(Fault::StackUnderflow);
            }
            let len = self.stack.len();
            let file_addr = self.stack[len - 1];
            let buffer = self.stack[len - 2];
            let context = self.stack[len - 3];
            if context != 0 && context != 1 {
                return Err(Fault::Decode { pc: self.pc });
            }
            let filename = if context == 0 {
                if find_nt(rom, file_addr).is_none() {
                    return Err(Fault::MemOutOfBounds);
                }
                read_nt_string(rom, file_addr)
            } else {
                if find_nt(&self.memory, file_addr).is_none() {
                    return Err(Fault::MemOutOfBounds);
                }
                read_nt_string(&self.memory, file_addr)
            };
            if num == 8 {
                self.stack.truncate(len - 3);
                self.pc = pc_after;
                Ok(StepEvent::ReadFile { filename, buffer })
            } else {
                if find_nt(&self.memory, buffer).is_none() {
                    return Err(Fault::MemOutOfBounds);
                }
                let contents = read_nt_string(&self.memory, buffer);
                self.stack.truncate(len - 3);
                self.pc = pc_after;
                Ok(StepEvent::WriteFile { filename, contents })
            }
        } else {
            Err(Fault::UnknownSyscall { number: num })
        }
    }

    /// One fetch-decode-execute step, exactly as [`spec_step`] specifies it:
    /// the machine advances, or the fault is reported with nothing changed.
    #[verifier::rlimit(100)]
    #[verifier::spinoff_prover]
    pub fn step(&mut self, rom: &Vec<u8>) -> (r: Result<StepEvent, Fault>)
        requires
            old(self)@.wf(),
        ensures
            final(self)@.wf(),
            match spec_step(old(self)@, rom@) {
                StepModel::Fault(f) => r matches Err(f2) && f2 == f && final(self)@ =~= old(
                    self,
                )@,
                StepModel::Next(c2, ev) => r matches Ok(e) && e@ == ev && final(self)@ =~= c2,
            },
    {
        if self.flags & FLAG_HALT != 0 {
            return Ok(StepEvent::Halted);
        }
        let len = rom.len();
        if len < 2 || self.pc >= len - 1 {
            return Ok(StepEvent::OutOfCode);
        }
        let op = rom[self.pc];
        let args = rom[self.pc + 1];
        proof {
            lemma_nibbles(args);
        }
        let d = (args & 0x0f) as usize;
        let s = ((args & 0xf0) >> 4) as usize;
        if op == 0x00 {
            if len - self.pc >= 10 {
                let v = self.read_u64(self.pc + 2, rom);
                proof {
                    lemma_le_val_bound(rom@, self.pc + 2, 8);
                    lemma_pow256_u64();
                }
                self.registers.set(d, v);
                self.pc += 10;
                Ok(StepEvent::Ran)
            } else {
                Err(Fault::Decode { pc: self.pc })
            }
        } else if op == 0x01 || op == 0x02 {
            if len - self.pc >= 6 {
                let base = self.read_usize(self.pc + 2, rom);
                proof {
                    lemma_le_val_bound(rom@, self.pc + 2, 4);
                    lemma_pow256_u64();
                }
                let index = if op == 0x02 {
                    let off = self.registers[s];
                    if off >= MEM_SIZE as u64 || base >= MEM_SIZE - (off as usize) {
                        return Err(Fault::MemOutOfBounds);
                    }
                    base + (off as usize)
                } else {
                    if base >= MEM_SIZE {
                        return Err(Fault::MemOutOfBounds);
                    }
                    base
                };
                let b = self.memory[index];
                self.registers.set(d, b as u64);
                self.pc += 6;
                Ok(StepEvent::Ran)
            } else {
                Err(Fault::Decode { pc: self.pc })
            }
        } else if op == 0x03 {
            let v = self.registers[s];
            self.registers.set(d, v);
            self.pc += 2;
            Ok(StepEvent::Ran)
        } else if op == 0x04 || op == 0x05 {
            if len - self.pc >= 6 {
                let base = self.read_usize(self.pc + 2, rom);
                proof {
                    lemma_le_val_bound(rom@, self.pc + 2, 4);
                    lemma_pow256_u64();
                }
                let index = if op == 0x05 {
                    let off = self.registers[s];
                    if off >= MEM_SIZE as u64 || base >= MEM_SIZE - (off as usize) {
                        return Err(Fault::MemOutOfBounds);
                    }
                    base + (off as usize)
                } else {
                    if base >= MEM_SIZE {
                        return Err(Fault::MemOutOfBounds);
                    }
                    base
                };
                let b = (self.registers[d] & 0xff) as u8;
                self.memory.set(index, b);
                self.pc += 6;
                Ok(StepEvent::Ran)
            } else {
                Err(Fault::Decode { pc: self.pc })
            }
        } else if op == 0x06 {
            let v = self.registers[d];
            self.stack.push(v);
            self.pc += 2;
            Ok(StepEvent::Ran)
        } else if op == 0x07 {
            if self.stack.len() == 0 {
                return Err(Fault::StackUnderflow);
            }
            let v = self.stack.pop().unwrap();
            self.registers.set(d, v);
            self.pc += 2;
            Ok(StepEvent::Ran)
        } else if op == 0x08 || op == 0x09 || op == 0x0a {
            let a = self.registers[d];
            let b = self.registers[s];
            let v = if op == 0x08 {
                a.wrapping_add(b)
            } else if op == 0x09 {
                a.wrapping_sub(b)
            } else {
                a.wrapping_mul(b)
            };
            self.registers.set(d, v);
            self.pc += 2;
            Ok(StepEvent::Ran)
        } else if op == 0x0b {
            let b = self.registers[s];
            if b == 0 {
                return Err(Fault::DivideByZero);
            }
            let v = self.registers[d] / b;
            self.registers.set(d, v);
            self.pc += 2;
            Ok(StepEvent::Ran)
        } else if op == 0x0c || op == 0x0d || op == 0x0e || op == 0x0f || op == 0x2f || op
            == 0x30 {
            let fop = if op == 0x0c {
                FloatBinOp::Add
            } else if op == 0x0d {
                FloatBinOp::Sub
            } else if op == 0x0e {
                FloatBinOp::Mul
            } else if op == 0x0f {
                FloatBinOp::Div
            } else if op == 0x2f {
                FloatBinOp::Pow
            } else {
                FloatBinOp::Root
            };
            let a = self.registers[d];
            let b = self.registers[s];
            self.pc += 2;
            Ok(StepEvent::FloatBin { op: fop, dst: args & 0x0f, a, b })
        } else if op == 0x10 {
            self.pc += 2;
            Ok(StepEvent::Ran)
        } else if op == 0x11 {
            let a = self.registers[d];
            self.pc += 2;
            Ok(StepEvent::FloatTrunc { dst: args & 0x0f, a })
        } else if op == 0x12 || op == 0x13 {
            let a = self.registers[d];
            let b = self.registers[s];
            proof {
                lemma_shift_mask(b);
            }
            let sh = b & 63;
            let v = if op == 0x12 {
                a << sh
            } else {
                a >> sh
            };
            self.registers.set(d, v);
            self.pc += 2;
            Ok(StepEvent::Ran)
        } else if op == 0x14 || op == 0x15 {
            let a = self.registers[d];
            let b = self.registers[s];
            let v = if op == 0x14 {
                a & b
            } else {
                a | b
            };
            self.registers.set(d, v);
            self.pc += 2;
            Ok(StepEvent::Ran)
        } else if op == 0x16 {
            let v = !self.registers[d];
            self.registers.set(d, v);
            self.pc += 2;
            Ok(StepEvent::Ran)
        } else if op == 0x17 {
            let a = self.registers[d];
            let b = self.registers[s];
            self.flags = if a == b {
                FLAG_EQUAL
            } else if a > b {
                FLAG_GREATER
            } else {
                FLAG_LESS
            };
            self.pc += 2;
            Ok(StepEvent::Ran)
        } else if op == 0x18 {
            let a = self.registers[d];
            let b = self.registers[s];
            self.pc += 2;
            Ok(StepEvent::FloatCmp { a, b })
        } else if op == 0x19 || op == 0x1a || op == 0x1b || op == 0x1c || op == 0x1d {
            if len - self.pc >= 6 {
                let taken = if op == 0x19 {
                    true
                } else if op == 0x1a {
                    self.flags & FLAG_EQUAL != 0
                } else if op == 0x1b {
                    self.flags & FLAG_EQUAL == 0
                } else if op == 0x1c {
                    self.flags & FLAG_GREATER != 0
                } else {
                    self.flags & FLAG_LESS != 0
                };
                if taken {
                    self.pc = self.read_usize(self.pc + 2, rom);
                } else {
                    self.pc += 6;
                }
                Ok(StepEvent::Ran)
            } else {
                Err(Fault::Decode { pc: self.pc })
            }
        } else if op == 0x1e {
            if len - self.pc >= 6 {
                let target = self.read_usize(self.pc + 2, rom);
                self.return_stack.push(self.pc + 6);
                self.pc = target;
                Ok(StepEvent::Ran)
            } else {
                Err(Fault::Decode { pc: self.pc })
            }
        } else if op == 0x1f {
            if self.return_stack.len() == 0 {
                return Err(Fault::StackUnderflow);
            }
            self.pc = self.return_stack.pop().unwrap();
            Ok(StepEvent::Ran)
        } else if op == 0x20 {
            if len - self.pc >= 6 {
                let num = self.read_usize(self.pc + 2, rom) as u64;
                let pc_after = self.pc + 6;
                self.do_syscall(rom, num, pc_after)
            } else {
                Err(Fault::Decode { pc: self.pc })
            }
        } else if op == 0x22 {
            self.flags = self.flags | FLAG_HALT;
            self.pc += 2;
            Ok(StepEvent::Ran)
        } else if op == 0x23 {
            if len - self.pc >= 6 {
                let v = self.read_usize(self.pc + 2, rom);
                self.registers.set(d, v as u64);
                self.pc += 6;
                Ok(StepEvent::Ran)
            } else {
                Err(Fault::Decode { pc: self.pc })
            }
        } else if op == 0x24 || op == 0x25 || op == 0x26 || op == 0x27 {
            let n: usize = if op == 0x24 {
                1
            } else if op == 0x25 {
                2
            } else if op == 0x26 {
                4
            } else {
                8
            };
            let a = self.registers[s];
            if a > (MEM_SIZE - n) as u64 {
                return Err(Fault::MemOutOfBounds);
            }
            let v = le_load(&self.memory, a as usize, n);
            proof {
                lemma_le_val_bound(self@.mem, a as int, n as nat);
                lemma_pow256_mono(n as nat, 8);
                lemma_pow256_u64();
            }
            self.registers.set(d, v);
            self.pc += 2;
            Ok(StepEvent::Ran)
        } else if op == 0x28 || op == 0x29 || op == 0x2a || op == 0x2b {
            let n: usize = if op == 0x28 {
                1
            } else if op == 0x29 {
                2
            } else if op == 0x2a {
                4
            } else {
                8
            };
            let a = self.registers[s];
            if a > (MEM_SIZE - n) as u64 {
                return Err(Fault::MemOutOfBounds);
            }
            let v = self.registers[d];
            proof {
                lemma_store_le_len(self@.mem, a as int, v as int, n as nat);
            }
            self.mem_store_le(a as usize, v, n);
            self.pc += 2;
            Ok(StepEvent::Ran)
        } else if op == 0x2c {
            let src = self.registers[d];
            let dst = self.registers[s];
            let n = match find_nt(rom, src) {
                Some(n) => n,
                None => {
                    return Err(Fault::MemOutOfBounds);
                },
            };
            if dst > MEM_SIZE as u64 || n > MEM_SIZE - (dst as usize) {
                return Err(Fault::MemOutOfBounds);
            }
            proof {
                lemma_nt_len_in_range(rom@, src as int);
            }
            let srcu = src as usize;
            let dstu = dst as usize;
            let mut k: usize = 0;
            while k < n
                invariant
                    self@.wf(),
                    srcu + n < len == rom@.len(),
                    dstu + n <= MEM_SIZE,
                    k <= n,
                    self@.mem =~= copy_into(
                        old(self)@.mem,
                        dstu as int,
                        rom@.subrange(srcu as int, srcu + k as int),
                    ),
                    self@.regs == old(self)@.regs,
                    self@.ret == old(self)@.ret,
                    self@.stack == old(self)@.stack,
                    self@.pc == old(self)@.pc,
                    self@.flags == old(self)@.flags,
                decreases n - k,
            {
                let b = rom[srcu + k];
                self.memory.set(dstu + k, b);
                proof {
                    assert(self@.mem =~= copy_into(
                        old(self)@.mem,
                        dstu as int,
                        rom@.subrange(srcu as int, srcu + (k + 1) as int),
                    ));
                }
                k += 1;
            }
            self.pc += 2;
            Ok(StepEvent::Ran)
        } else if op == 0x2d || op == 0x2e {
            let a = self.registers[d];
            let b = self.registers[s];
            let eq = if op == 0x2d {
                let na = match find_nt(&self.memory, a) {
                    Some(v) => v,
                    None => {
                        return Err(Fault::MemOutOfBounds);
                    },
                };
                let nb = match find_nt(&self.memory, b) {
                    Some(v) => v,
                    None => {
                        return Err(Fault::MemOutOfBounds);
                    },
                };
                proof {
                    lemma_nt_len_in_range(self@.mem, a as int);
                    lemma_nt_len_in_range(self@.mem, b as int);
                }
                ranges_equal(&self.memory, a as usize, na, b as usize, nb)
            } else {
                let na = match find_nt(rom, a) {
                    Some(v) => v,
                    None => {
                        return Err(Fault::MemOutOfBounds);
                    },
                };
                let nb = match find_nt(rom, b) {
                    Some(v) => v,
                    None => {
                        return Err(Fault::MemOutOfBounds);
                    },
                };
                proof {
                    lemma_nt_len_in_range(rom@, a as int);
                    lemma_nt_len_in_range(rom@, b as int);
                }
                ranges_equal(rom, a as usize, na, b as usize, nb)
            };
            self.flags = if eq {
                FLAG_EQUAL
            } else {
                0
            };
            self.pc += 2;
            Ok(StepEvent::Ran)
        } else if op == 0x31 {
            let num = self.registers[d];
            let pc_after = self.pc + 2;
            self.do_syscall(rom, num, pc_after)
        } else {
            Err(Fault::Decode { pc: self.pc })
        }
    }
}

/// Where a bounded run ends up: the machine state it stops in, and either
/// the fault or the event that stopped it.  A run that exhausts its step
/// budget stops with [`EventModel::Ran`]: the machine is simply still going.
pub enum RunModel {
    Faulted(CpuModel, Fault),
    Stopped(CpuModel, EventModel),
}

/// Stepping up to `fuel` times, stopping at the first fault or at the first
/// step that asks something of the host.
pub open spec fn spec_exec(c: CpuModel, rom: Seq<u8>, fuel: nat) -> RunModel
    decreases fuel,
{
    if fuel == 0 {
        RunModel::Stopped(c, EventModel::Ran)
    } else {
        match spec_step(c, rom) {
            StepModel::Fault(f) => RunModel::Faulted(c, f),
            StepModel::Next(c2, ev) => if ev is Ran {
                spec_exec(c2, rom, (fuel - 1) as nat)
            } else {
                RunModel::Stopped(c2, ev)
            },
        }
    }
}

impl VMLCpu {
    /// Run the fetch-decode-execute loop for at most `fuel` steps: stop at
    /// the halt latch, at the image's end, at the first fault, or at the
    /// first instruction that needs the host; `Ok(Ran)` means the budget ran
    /// out with the machine still going.
    pub fn exec(&mut self, rom: &Vec<u8>, fuel: u64) -> (r: Result<StepEvent, Fault>)
        requires
            old(self)@.wf(),
        ensures
            final(self)@.wf(),
            match spec_exec(old(self)@, rom@, fuel as nat) {
                RunModel::Faulted(c, f) => r matches Err(f2) && f2 == f && final(self)@ =~= c,
                RunModel::Stopped(c, ev) => r matches Ok(e) && e@ == ev && final(self)@ =~= c,
            },
    {
        let mut remaining: u64 = fuel;
        while remaining > 0
            invariant
                self@.wf(),
                remaining <= fuel,
                spec_exec(old(self)@, rom@, fuel as nat) == spec_exec(
                    self@,
                    rom@,
                    remaining as nat,
                ),
            decreases remaining,
        {
            let outcome = self.step(rom);
            match outcome {
                Ok(StepEvent::Ran) => {
                    remaining = remaining - 1;
                },
                other => {
                    return other;
                },
            }
        }
        Ok(StepEvent::Ran)
    }
}

/// A six-bit mask keeps a shift amount below the register width.
proof fn lemma_shift_mask(x: u64)
    ensures
        x & 63 < 64,
{
    assert(x & 63 < 64) by (bit_vector);
}

/// Whether two byte ranges hold the same bytes.
fn ranges_equal(bytes: &Vec<u8>, a: usize, n: usize, b: usize, m: usize) -> (r: bool)
    requires
        a + n <= bytes@.len(),
        b + m <= bytes@.len(),
    ensures
        r == (bytes@.subrange(a as int, a + n) == bytes@.subrange(b as int, b + m)),
{
    if n != m {
        proof {
            assert(bytes@.subrange(a as int, a + n).len() != bytes@.subrange(b as int, b + m).len());
        }
        return false;
    }
    let len = bytes.len();
    let mut k: usize = 0;
    while k < n
        invariant
            n == m,
            a + n <= len == bytes@.len(),
            b + m <= len,
            k <= n,
            forall|i: int| 0 <= i < k ==> #[trigger] bytes@[a + i] == bytes@[b + i],
        decreases n - k,
    {
        if bytes[a + k] != bytes[b + k] {
            proof {
                assert(bytes@.subrange(a as int, a + n)[k as int] != bytes@.subrange(
                    b as int,
                    b + m,
                )[k as int]);
            }
            return false;
        }
        k += 1;
    }
    proof {
        assert forall|i: int| 0 <= i < n implies #[trigger] bytes@.subrange(a as int, a + n)[i]
            == bytes@.subrange(b as int, b + m)[i] by {
            assert(bytes@[a + i] == bytes@[b + i]);
        }
        assert(bytes@.subrange(a as int, a + n) =~= bytes@.subrange(b as int, b + m));
    }
    true
}

} // verus!
