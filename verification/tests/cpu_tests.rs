//! The virtual CPU: whole programs from text to execution, the float path
//! through host-computed bit patterns, syscall effects, and every fault.

use vml::assembler::Lexer;
use vml::vml_cpu::{Fault, FloatBinOp, StepEvent, VMLCpu, FLAG_EQUAL, FLAG_HALT};

fn assemble(src: &str) -> Vec<u8> {
    let mut lx = Lexer::new();
    lx.lex_asm(src.to_string()).expect("program lexes");
    lx.assemble_asm().expect("program assembles")
}

/// Run until something other than plain progress comes back, computing the
/// delegated float work the way the host would.
fn run(cpu: &mut VMLCpu, rom: &Vec<u8>) -> Result<StepEvent, Fault> {
    loop {
        match cpu.exec(rom, 100_000) {
            Ok(StepEvent::FloatBin { op, dst, a, b }) => {
                let x = f64::from_bits(a);
                let y = f64::from_bits(b);
                let v = match op {
                    FloatBinOp::Add => x + y,
                    FloatBinOp::Sub => x - y,
                    FloatBinOp::Mul => x * y,
                    FloatBinOp::Div => x / y,
                    FloatBinOp::Pow => x.powf(y),
                    FloatBinOp::Root => x.powf(1.0 / y),
                };
                cpu.apply_float_value(dst, v.to_bits());
            }
            Ok(StepEvent::FloatTrunc { dst, a }) => {
                let v = f64::from_bits(a) as i64;
                cpu.apply_float_value(dst, v as u64);
            }
            Ok(StepEvent::FloatCmp { a, b }) => {
                let x = f64::from_bits(a);
                let y = f64::from_bits(b);
                cpu.apply_float_flags(x == y, x > y, x < y);
            }
            other => return other,
        }
    }
}

#[test]
fn subtraction_program_leaves_two_on_the_stack() {
    let rom = assemble("mov r0,$0x05\nmov r1,$0x03\nisub r0,r1\npush r0\nhalt\n");
    let mut cpu = VMLCpu::new();
    let r = run(&mut cpu, &rom);
    assert!(matches!(r, Ok(StepEvent::Halted)), "{r:?}");
    assert_eq!(cpu.stack_len(), 1);
    assert_eq!(cpu.stack_at(0), 2);
    assert!(cpu.flag_bits() & FLAG_HALT != 0);
}

#[test]
fn float_addition_round_trips_ieee_bits_exactly() {
    let src = format!(
        "mov r0,$0x{:x}\nmov r1,$0x{:x}\ndadd r0,r1\nhalt\n",
        2.5f64.to_bits(),
        1.25f64.to_bits()
    );
    let rom = assemble(&src);
    let mut cpu = VMLCpu::new();
    let r = run(&mut cpu, &rom);
    assert!(matches!(r, Ok(StepEvent::Halted)), "{r:?}");
    assert_eq!(cpu.register(0), 3.75f64.to_bits());
}

#[test]
fn float_truncation_reinterprets_through_dcst() {
    let src = format!("mov r0,$0x{:x}\ndcst r0\nhalt\n", 3.75f64.to_bits());
    let rom = assemble(&src);
    let mut cpu = VMLCpu::new();
    let r = run(&mut cpu, &rom);
    assert!(matches!(r, Ok(StepEvent::Halted)), "{r:?}");
    assert_eq!(cpu.register(0), 3);
}

#[test]
fn icst_keeps_the_bit_pattern_unchanged() {
    let bits = 2.5f64.to_bits();
    let src = format!("mov r0,$0x{bits:x}\nicst r0\nhalt\n");
    let rom = assemble(&src);
    let mut cpu = VMLCpu::new();
    let r = run(&mut cpu, &rom);
    assert!(matches!(r, Ok(StepEvent::Halted)), "{r:?}");
    assert_eq!(cpu.register(0), bits);
}

#[test]
fn pow_raises_through_the_host() {
    let src = format!(
        "mov r0,$0x{:x}\nmov r1,$0x{:x}\npow r0,r1\nhalt\n",
        2.0f64.to_bits(),
        3.0f64.to_bits()
    );
    let rom = assemble(&src);
    let mut cpu = VMLCpu::new();
    run(&mut cpu, &rom).unwrap();
    assert_eq!(cpu.register(0), 8.0f64.to_bits());
}

#[test]
fn a_taken_jump_skips_the_dead_store() {
    let rom = assemble("mov r0,$0x00\njmp .end\nmov r0,$0x01\n.end: halt\n");
    let mut cpu = VMLCpu::new();
    let r = run(&mut cpu, &rom);
    assert!(matches!(r, Ok(StepEvent::Halted)), "{r:?}");
    assert_eq!(cpu.register(0), 0);
}

#[test]
fn compare_and_branch_take_the_greater_path() {
    let rom = assemble(
        "mov r0,$0x07\nmov r1,$0x02\nicmp r0,r1\nbgt .big\nmov r2,$0x00\nhalt\n.big: mov r2,$0x01\nhalt\n",
    );
    let mut cpu = VMLCpu::new();
    run(&mut cpu, &rom).unwrap();
    assert_eq!(cpu.register(2), 1);
}

#[test]
fn image_string_equality_sets_the_equal_flag() {
    let rom = assemble(
        "adr r0,.s1\nadr r1,.s2\nbseq r0,r1\nhalt\n.s1: \"abc\"\n.s2: \"abc\"\n",
    );
    let mut cpu = VMLCpu::new();
    run(&mut cpu, &rom).unwrap();
    assert!(cpu.flag_bits() & FLAG_EQUAL != 0);
}

#[test]
fn image_string_inequality_clears_the_equal_flag() {
    let rom = assemble(
        "mov r2,$0x01\nmov r3,$0x01\nicmp r2,r3\nadr r0,.s1\nadr r1,.s2\nbseq r0,r1\nhalt\n.s1: \"abc\"\n.s2: \"abd\"\n",
    );
    let mut cpu = VMLCpu::new();
    run(&mut cpu, &rom).unwrap();
    assert!(cpu.flag_bits() & FLAG_EQUAL == 0);
}

#[test]
fn memory_string_equality_after_buffer_copies() {
    let rom = assemble(
        "adr r0,.s1\nmov r1,$0x10\nbufc r0,r1\nadr r0,.s2\nmov r2,$0x40\nbufc r0,r2\nmov r3,$0x10\nmov r4,$0x40\nlseq r3,r4\nhalt\n.s1: \"abc\"\n.s2: \"abc\"\n",
    );
    let mut cpu = VMLCpu::new();
    run(&mut cpu, &rom).unwrap();
    assert!(cpu.flag_bits() & FLAG_EQUAL != 0);
    assert_eq!(cpu.mem_at(0x10), b'a');
    assert_eq!(cpu.mem_at(0x12), b'c');
    assert_eq!(cpu.mem_at(0x13), 0);
}

#[test]
fn memory_string_inequality_clears_the_equal_flag() {
    let rom = assemble(
        "adr r0,.s1\nmov r1,$0x10\nbufc r0,r1\nadr r0,.s2\nmov r2,$0x40\nbufc r0,r2\nmov r3,$0x10\nmov r4,$0x40\nlseq r3,r4\nhalt\n.s1: \"abc\"\n.s2: \"axc\"\n",
    );
    let mut cpu = VMLCpu::new();
    run(&mut cpu, &rom).unwrap();
    assert!(cpu.flag_bits() & FLAG_EQUAL == 0);
}

#[test]
fn the_string_print_syscall_emits_the_decoded_text() {
    let rom = assemble("adr r0,.msg\npush r0\nsys U$0x1\nhalt\n.msg: \"hi\\tthere\\n\"\n");
    let mut cpu = VMLCpu::new();
    match run(&mut cpu, &rom) {
        Ok(StepEvent::PrintString { text }) => assert_eq!(text, "hi\tthere\n"),
        other => panic!("expected the printed string, got {other:?}"),
    }
    let r = run(&mut cpu, &rom);
    assert!(matches!(r, Ok(StepEvent::Halted)), "{r:?}");
}

#[test]
fn the_unsigned_print_syscall_pops_its_argument() {
    let rom = assemble("mov r0,$0x2a\npush r0\nsys U$0x0\nhalt\n");
    let mut cpu = VMLCpu::new();
    match run(&mut cpu, &rom) {
        Ok(StepEvent::PrintUnsigned { value }) => assert_eq!(value, 0x2a),
        other => panic!("expected a printed number, got {other:?}"),
    }
    assert_eq!(cpu.stack_len(), 0);
}

#[test]
fn the_register_held_syscall_number_dispatches_too() {
    let rom = assemble("mov r0,$0x03\nmov r1,$0xff\npush r1\ncall r0\nhalt\n");
    let mut cpu = VMLCpu::new();
    match run(&mut cpu, &rom) {
        Ok(StepEvent::PrintHex { value }) => assert_eq!(value, 0xff),
        other => panic!("expected a printed hex number, got {other:?}"),
    }
}

#[test]
fn the_line_read_syscall_hands_back_a_buffer_address() {
    let rom = assemble("mov r0,$0x20\npush r0\nsys U$0x5\nhalt\n");
    let mut cpu = VMLCpu::new();
    match run(&mut cpu, &rom) {
        Ok(StepEvent::ReadLine { buffer }) => {
            assert_eq!(buffer, 0x20);
            cpu.store_line(buffer, &vec![b'h', b'i', b'\n']).unwrap();
        }
        other => panic!("expected a line read, got {other:?}"),
    }
    assert_eq!(cpu.read_buffered_NTString(0x20), "hi");
    let r = run(&mut cpu, &rom);
    assert!(matches!(r, Ok(StepEvent::Halted)), "{r:?}");
}

#[test]
fn the_file_write_syscall_names_file_and_contents() {
    let rom = assemble(
        "adr r0,.data\nmov r1,$0x30\nbufc r0,r1\nmov r2,$0x00\npush r2\nmov r3,$0x30\npush r3\nadr r4,.name\npush r4\nsys U$0x9\nhalt\n.name: \"out.txt\"\n.data: \"hello\"\n",
    );
    let mut cpu = VMLCpu::new();
    match run(&mut cpu, &rom) {
        Ok(StepEvent::WriteFile { filename, contents }) => {
            assert_eq!(filename, "out.txt");
            assert_eq!(contents, "hello");
        }
        other => panic!("expected a file write, got {other:?}"),
    }
    assert_eq!(cpu.stack_len(), 0);
}

#[test]
fn sized_stores_and_loads_round_trip_little_endian() {
    let rom = assemble(
        "mov r0,$0x1234\nmov r1,$0x100\nsst r0,r1\nlst r2,r1\nlei r3,r1\nhalt\n",
    );
    let mut cpu = VMLCpu::new();
    run(&mut cpu, &rom).unwrap();
    assert_eq!(cpu.register(2), 0x1234);
    assert_eq!(cpu.register(3), 0x34);
    assert_eq!(cpu.mem_at(0x100), 0x34);
    assert_eq!(cpu.mem_at(0x101), 0x12);
}

#[test]
fn subroutine_call_and_return_resume_after_the_call() {
    let rom = assemble("jsr .sub\nmov r1,$0x07\nhalt\n.sub: mov r0,$0x05\nret\n");
    let mut cpu = VMLCpu::new();
    let r = run(&mut cpu, &rom);
    assert!(matches!(r, Ok(StepEvent::Halted)), "{r:?}");
    assert_eq!(cpu.register(0), 5);
    assert_eq!(cpu.register(1), 7);
}

#[test]
fn shifts_bitwise_ops_and_complement_work_on_raw_words() {
    let rom = assemble(
        "mov r0,$0x01\nmov r1,$0x04\nshl r0,r1\nmov r2,$0xf0\nmov r3,$0x1e\nand r2,r3\nneg r3\nhalt\n",
    );
    let mut cpu = VMLCpu::new();
    run(&mut cpu, &rom).unwrap();
    assert_eq!(cpu.register(0), 0x10);
    assert_eq!(cpu.register(2), 0x10);
    assert_eq!(cpu.register(3), !0x1eu64);
}

#[test]
fn an_unknown_opcode_is_a_decode_fault() {
    let rom = vec![0x21, 0x00];
    let mut cpu = VMLCpu::new();
    assert!(matches!(cpu.exec(&rom, 10), Err(Fault::Decode { pc: 0 })));
}

#[test]
fn a_truncated_instruction_is_a_decode_fault() {
    let rom = vec![0x00, 0x00, 0x05];
    let mut cpu = VMLCpu::new();
    assert!(matches!(cpu.exec(&rom, 10), Err(Fault::Decode { pc: 0 })));
}

#[test]
fn popping_an_empty_stack_is_an_underflow_fault() {
    let rom = assemble("pop r0\nhalt\n");
    let mut cpu = VMLCpu::new();
    assert!(matches!(cpu.exec(&rom, 10), Err(Fault::StackUnderflow)));
}

#[test]
fn returning_without_a_call_is_an_underflow_fault() {
    let rom = assemble("ret\nhalt\n");
    let mut cpu = VMLCpu::new();
    assert!(matches!(cpu.exec(&rom, 10), Err(Fault::StackUnderflow)));
}

#[test]
fn dividing_by_zero_is_a_fault() {
    let rom = assemble("mov r0,$0x08\nmov r1,$0x00\nidiv r0,r1\nhalt\n");
    let mut cpu = VMLCpu::new();
    assert!(matches!(cpu.exec(&rom, 10), Err(Fault::DivideByZero)));
}

#[test]
fn an_out_of_range_memory_access_is_a_bounds_fault() {
    let rom = assemble("mov r0,$0xffffffffffffffff\nlei r1,r0\nhalt\n");
    let mut cpu = VMLCpu::new();
    assert!(matches!(cpu.exec(&rom, 10), Err(Fault::MemOutOfBounds)));
}

#[test]
fn an_unknown_syscall_number_is_a_fault() {
    let rom = assemble("mov r0,$0x01\npush r0\nsys U$0x7f\nhalt\n");
    let mut cpu = VMLCpu::new();
    assert!(matches!(cpu.exec(&rom, 10), Err(Fault::UnknownSyscall { number: 0x7f })));
}

#[test]
fn a_print_syscall_with_an_empty_stack_underflows() {
    let rom = assemble("sys U$0x0\nhalt\n");
    let mut cpu = VMLCpu::new();
    assert!(matches!(cpu.exec(&rom, 10), Err(Fault::StackUnderflow)));
}

#[test]
fn running_off_the_image_reports_out_of_code() {
    let rom = assemble("mov r0,$0x01\n");
    let mut cpu = VMLCpu::new();
    let r = cpu.exec(&rom, 10);
    assert!(matches!(r, Ok(StepEvent::OutOfCode)), "{r:?}");
}

#[test]
fn an_empty_image_runs_no_instructions() {
    let rom: Vec<u8> = Vec::new();
    let mut cpu = VMLCpu::new();
    let r = cpu.exec(&rom, 10);
    assert!(matches!(r, Ok(StepEvent::OutOfCode)), "{r:?}");
}

#[test]
fn image_readers_decode_little_endian_words() {
    let cpu = VMLCpu::new();
    let rom = vec![0x78, 0x56, 0x34, 0x12, 0xaa, 0xbb, 0xcc, 0xdd];
    assert_eq!(cpu.read_usize(0, &rom), 0x12345678);
    assert_eq!(cpu.read_u64(0, &rom), 0xddccbbaa_12345678);
}

#[test]
fn image_strings_read_to_the_terminator() {
    let cpu = VMLCpu::new();
    let rom = vec![b'o', b'k', 0, b'x'];
    assert_eq!(cpu.read_NTString(0, &rom), "ok");
    assert_eq!(cpu.read_NTString(2, &rom), "");
}

#[test]
fn a_fresh_machine_is_all_zero() {
    let cpu = VMLCpu::new();
    for i in 0..16 {
        assert_eq!(cpu.register(i), 0);
    }
    assert_eq!(cpu.program_counter(), 0);
    assert_eq!(cpu.flag_bits(), 0);
    assert_eq!(cpu.stack_len(), 0);
    assert_eq!(cpu.mem_at(0), 0);
    assert_eq!(cpu.mem_at(vml::vml_cpu::MEM_SIZE - 1), 0);
}

#[test]
fn store_line_trims_the_newline_and_terminates() {
    let mut cpu = VMLCpu::new();
    cpu.store_line(0x50, &vec![b'o', b'k', b'\r', b'\n']).unwrap();
    assert_eq!(cpu.mem_at(0x50), b'o');
    assert_eq!(cpu.mem_at(0x51), b'k');
    assert_eq!(cpu.mem_at(0x52), 0);
    cpu.store_line(0x60, &vec![b'a', b'b']).unwrap();
    assert_eq!(cpu.mem_at(0x60), b'a');
    assert_eq!(cpu.mem_at(0x61), b'b');
    assert_eq!(cpu.mem_at(0x62), 0);
    let r = cpu.store_line(vml::vml_cpu::MEM_SIZE as u64, &vec![b'x', b'\n']);
    assert_eq!(r, Err(Fault::MemOutOfBounds));
}

#[test]
fn store_bytes_rejects_writes_past_the_end() {
    let mut cpu = VMLCpu::new();
    let r = cpu.store_bytes(vml::vml_cpu::MEM_SIZE as u64, &vec![1]);
    assert_eq!(r, Err(Fault::MemOutOfBounds));
    assert!(cpu.store_bytes(0, &vec![7, 8]).is_ok());
    assert_eq!(cpu.mem_at(0), 7);
    assert_eq!(cpu.mem_at(1), 8);
}
