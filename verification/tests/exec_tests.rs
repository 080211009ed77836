//! More of the instruction set: byte loads and stores, conditional
//! branches, wrapping arithmetic, the float compare path, and the remaining
//! syscall effects.

use vml::assembler::Lexer;
use vml::vml_cpu::{FloatBinOp, StepEvent, VMLCpu, FLAG_EQUAL, FLAG_GREATER, FLAG_LESS};

fn assemble(src: &str) -> Vec<u8> {
    let mut lx = Lexer::new();
    lx.lex_asm(src.to_string()).expect("program lexes");
    lx.assemble_asm().expect("program assembles")
}

fn run(cpu: &mut VMLCpu, rom: &Vec<u8>) -> StepEvent {
    loop {
        match cpu.exec(rom, 100_000).expect("no fault") {
            StepEvent::FloatBin { op, dst, a, b } => {
                let x = f64::from_bits(a);
                let y = f64::from_bits(b);
                let v = match op {
                    FloatBinOp::Add => x + y,
                    FloatBinOp::Sub => x - y,
                    FloatBinOp::Mul => x * y,
                    FloatBinOp::Div => x / y,
                    FloatBinOp::Pow => x.powf(y),
                    FloatBinOp::Root => x.powf(1.0 / y),
                };
                cpu.apply_float_value(dst, v.to_bits());
            }
            StepEvent::FloatTrunc { dst, a } => {
                cpu.apply_float_value(dst, (f64::from_bits(a) as i64) as u64);
            }
            StepEvent::FloatCmp { a, b } => {
                let x = f64::from_bits(a);
                let y = f64::from_bits(b);
                cpu.apply_float_flags(x == y, x > y, x < y);
            }
            other => return other,
        }
    }
}

#[test]
fn absolute_byte_store_and_load_round_trip() {
    let rom = assemble("mov r0,$0x5a\nstr r0,U$0x80\nldr r1,U$0x80\nhalt\n");
    let mut cpu = VMLCpu::new();
    run(&mut cpu, &rom);
    assert_eq!(cpu.mem_at(0x80), 0x5a);
    assert_eq!(cpu.register(1), 0x5a);
}

#[test]
fn register_relative_byte_store_and_load() {
    // Hand-built image: the two indexed forms take a 4-byte base address
    // plus the high-nibble register as an offset.
    let mut rom: Vec<u8> = Vec::new();
    rom.extend_from_slice(&[0x00, 0x01]); // mov r1, 0x10
    rom.extend_from_slice(&0x10u64.to_le_bytes());
    rom.extend_from_slice(&[0x00, 0x00]); // mov r0, 0x77
    rom.extend_from_slice(&0x77u64.to_le_bytes());
    rom.extend_from_slice(&[0x05, 0x10, 0x00, 0x00, 0x00, 0x00]); // inds r0, r1+0
    rom.extend_from_slice(&[0x02, 0x12, 0x00, 0x00, 0x00, 0x00]); // indl r2, r1+0
    rom.extend_from_slice(&[0x22, 0x00]); // halt
    let mut cpu = VMLCpu::new();
    run(&mut cpu, &rom);
    assert_eq!(cpu.mem_at(0x10), 0x77);
    assert_eq!(cpu.register(2), 0x77);
}

#[test]
fn equal_compare_takes_the_equal_branch() {
    let rom = assemble(
        "mov r0,$0x05\nmov r1,$0x05\nicmp r0,r1\nbeq .eq\nmov r2,$0x00\nhalt\n.eq: mov r2,$0x01\nhalt\n",
    );
    let mut cpu = VMLCpu::new();
    run(&mut cpu, &rom);
    assert!(cpu.flag_bits() & FLAG_EQUAL != 0);
    assert_eq!(cpu.register(2), 1);
}

#[test]
fn unequal_compare_takes_the_not_equal_branch() {
    let rom = assemble(
        "mov r0,$0x05\nmov r1,$0x06\nicmp r0,r1\nbne .ne\nmov r2,$0x00\nhalt\n.ne: mov r2,$0x01\nhalt\n",
    );
    let mut cpu = VMLCpu::new();
    run(&mut cpu, &rom);
    assert!(cpu.flag_bits() & FLAG_LESS != 0);
    assert_eq!(cpu.register(2), 1);
}

#[test]
fn lesser_compare_takes_the_less_branch() {
    let rom = assemble(
        "mov r0,$0x02\nmov r1,$0x09\nicmp r0,r1\nblt .lt\nmov r2,$0x00\nhalt\n.lt: mov r2,$0x01\nhalt\n",
    );
    let mut cpu = VMLCpu::new();
    run(&mut cpu, &rom);
    assert_eq!(cpu.register(2), 1);
}

#[test]
fn integer_arithmetic_wraps_on_raw_words() {
    let rom = assemble(
        "mov r0,$0xffffffffffffffff\nmov r1,$0x02\niadd r0,r1\nmov r2,$0x00\nmov r3,$0x01\nisub r2,r3\nhalt\n",
    );
    let mut cpu = VMLCpu::new();
    run(&mut cpu, &rom);
    assert_eq!(cpu.register(0), 1);
    assert_eq!(cpu.register(2), u64::MAX);
}

#[test]
fn multiplication_division_or_and_shift_right() {
    let rom = assemble(
        "mov r0,$0x06\nmov r1,$0x07\nimul r0,r1\nmov r2,$0x54\nmov r3,$0x04\nidiv r2,r3\nmov r4,$0x0f\nmov r5,$0xf0\nor r4,r5\nmov r6,$0x80\nmov r7,$0x03\nshr r6,r7\nhalt\n",
    );
    let mut cpu = VMLCpu::new();
    run(&mut cpu, &rom);
    assert_eq!(cpu.register(0), 42);
    assert_eq!(cpu.register(2), 0x15);
    assert_eq!(cpu.register(4), 0xff);
    assert_eq!(cpu.register(6), 0x10);
}

#[test]
fn float_compare_sets_exactly_one_flag() {
    let src = format!(
        "mov r0,$0x{:x}\nmov r1,$0x{:x}\ndcmp r0,r1\nhalt\n",
        2.5f64.to_bits(),
        1.5f64.to_bits()
    );
    let rom = assemble(&src);
    let mut cpu = VMLCpu::new();
    run(&mut cpu, &rom);
    assert_eq!(
        cpu.flag_bits() & (FLAG_EQUAL | FLAG_GREATER | FLAG_LESS),
        FLAG_GREATER
    );
}

#[test]
fn float_division_through_the_host() {
    let src = format!(
        "mov r0,$0x{:x}\nmov r1,$0x{:x}\nddiv r0,r1\nhalt\n",
        7.0f64.to_bits(),
        2.0f64.to_bits()
    );
    let rom = assemble(&src);
    let mut cpu = VMLCpu::new();
    run(&mut cpu, &rom);
    assert_eq!(cpu.register(0), 3.5f64.to_bits());
}

#[test]
fn the_memory_string_print_syscall_reads_the_buffer() {
    let rom = assemble(
        "adr r0,.s\nmov r1,$0x200\nbufc r0,r1\npush r1\nsys U$0x4\nhalt\n.s: \"buffered\"\n",
    );
    let mut cpu = VMLCpu::new();
    match run(&mut cpu, &rom) {
        StepEvent::PrintString { text } => assert_eq!(text, "buffered"),
        other => panic!("expected the buffered string, got {other:?}"),
    }
}

#[test]
fn the_signed_print_syscall_reinterprets_the_bits() {
    let rom = assemble("mov r0,$0xffffffffffffffff\npush r0\nsys U$0x7\nhalt\n");
    let mut cpu = VMLCpu::new();
    match run(&mut cpu, &rom) {
        StepEvent::PrintSigned { bits } => assert_eq!(bits as i64, -1),
        other => panic!("expected a signed print, got {other:?}"),
    }
}

#[test]
fn the_file_read_syscall_names_file_and_buffer() {
    let rom = assemble(
        "mov r2,$0x00\npush r2\nmov r3,$0x400\npush r3\nadr r4,.name\npush r4\nsys U$0x8\nhalt\n.name: \"in.txt\"\n",
    );
    let mut cpu = VMLCpu::new();
    match run(&mut cpu, &rom) {
        StepEvent::ReadFile { filename, buffer } => {
            assert_eq!(filename, "in.txt");
            assert_eq!(buffer, 0x400);
            cpu.store_bytes(buffer, &vec![1, 2, 3]).unwrap();
        }
        other => panic!("expected a file read, got {other:?}"),
    }
    assert_eq!(cpu.mem_at(0x400), 1);
    assert_eq!(cpu.mem_at(0x402), 3);
}

#[test]
fn the_binary_and_float_print_syscalls_pop_their_values() {
    let rom = assemble("mov r0,$0x05\npush r0\nsys U$0x2\nhalt\n");
    let mut cpu = VMLCpu::new();
    match run(&mut cpu, &rom) {
        StepEvent::PrintBinary { value } => assert_eq!(value, 5),
        other => panic!("expected a binary print, got {other:?}"),
    }
    let bits = 1.5f64.to_bits();
    let rom2 = assemble(&format!("mov r0,$0x{bits:x}\npush r0\nsys U$0x6\nhalt\n"));
    let mut cpu2 = VMLCpu::new();
    match run(&mut cpu2, &rom2) {
        StepEvent::PrintFloat { bits: b } => assert_eq!(b, bits),
        other => panic!("expected a float print, got {other:?}"),
    }
}

#[test]
fn eight_byte_stores_and_loads_round_trip() {
    let rom = assemble(
        "mov r0,$0x1122334455667788\nmov r1,$0x300\nssf r0,r1\nlsf r2,r1\nstt r0,r1\nltt r3,r1\nsei r0,r1\nlei r4,r1\nhalt\n",
    );
    let mut cpu = VMLCpu::new();
    run(&mut cpu, &rom);
    assert_eq!(cpu.register(2), 0x1122334455667788);
    assert_eq!(cpu.register(3), 0x55667788);
    assert_eq!(cpu.register(4), 0x88);
    assert_eq!(cpu.mem_at(0x300), 0x88);
    assert_eq!(cpu.mem_at(0x307), 0x11);
}
