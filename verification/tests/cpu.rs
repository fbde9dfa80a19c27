use hack_interpreter::{Cpu, Rom};

/// Loads `program`, then steps the CPU as many times as the longest list is
/// long, checking each register against its list before each step.
fn check_steps(program: &str, ra: &[u16], pc: &[u16], rd: &[u16]) -> Cpu {
    let rom = Rom::from_str(program).unwrap();
    let mut cpu = Cpu::new(rom);
    let steps = ra.len().max(pc.len()).max(rd.len());
    for i in 0..steps {
        if ra.len() > i && cpu.ra != ra[i] {
            panic!("unexpected `ra` value after `{}` steps. expected `{}`, got `{}`", i, ra[i], cpu.ra);
        }
        if pc.len() > i && cpu.pc != pc[i] {
            panic!("unexpected `pc` value after `{}` steps. expected `{}`, got `{}`", i, pc[i], cpu.pc);
        }
        if rd.len() > i && cpu.rd != rd[i] {
            panic!("unexpected `rd` value after `{}` steps. expected `{}`, got `{}`", i, rd[i], cpu.rd);
        }
        cpu.step();
    }
    cpu
}

fn load(program: &str) -> Cpu {
    check_steps(program, &[], &[], &[])
}

const M1: u16 = 0xFFFF;
const M2: u16 = 0xFFFE;
const M5: u16 = 0xFFFB;
const M10: u16 = 0xFFF6;

#[test]
fn pc_increments() {
    check_steps("", &[], &[0, 1, 2, 3, 4, 5, 6, 7, 8, 9, 10], &[]);
}

#[test]
fn cpu_a_instruction() {
    check_steps(
        "0000000000000001\n\
         0000000000000010\n\
         0000000000000100\n\
         0000000000100000\n\
         0000000001000000\n\
         0000000001111111\n",
        &[0, 1, 2, 4, 32, 64, 127],
        &[0, 1, 2, 3, 4, 5, 6, 7, 8, 9, 10],
        &[0, 0, 0, 0, 0, 0, 0, 0, 0, 0, 0],
    );
}

#[test]
fn jmp() {
    // @32, 0;JMP
    check_steps(
        "0000000000100000\n\
         1000101010000111\n",
        &[0, 32, 32, 0],
        &[0, 1, 32, 33],
        &[0, 0, 0, 0, 0],
    );
    // @32, 1;JMP
    check_steps(
        "0000000000100000\n\
         1000111111000111\n",
        &[0, 32, 32, 0],
        &[0, 1, 32, 33],
        &[0, 0, 0, 0, 0],
    );
    // @32, -1;JMP
    check_steps(
        "0000000000100000\n\
         1000111010000111\n",
        &[0, 32, 32, 0],
        &[0, 1, 32, 33],
        &[0, 0, 0, 0, 0],
    );
}

#[test]
fn jeq() {
    // @32, 0;JEQ
    check_steps(
        "0000000000100000\n\
         1001101010000010\n",
        &[0, 32, 32, 0],
        &[0, 1, 32, 33],
        &[0, 0, 0, 0, 0],
    );
}

#[test]
fn jne() {
    // @32, 1;JNE
    check_steps(
        "0000000000100000\n\
         1000111111000101\n",
        &[0, 32, 32, 0],
        &[0, 1, 32, 33],
        &[0, 0, 0, 0, 0],
    );
}

#[test]
fn jlt() {
    // @32, -1;JLT
    check_steps(
        "0000000000100000\n\
         1000111010000100\n",
        &[0, 32, 32, 0],
        &[0, 1, 32, 33],
        &[0, 0, 0, 0, 0],
    );
}

#[test]
fn jle() {
    // @32, 0;JLE
    check_steps(
        "0000000000100000\n\
         1000101010000110\n",
        &[0, 32, 32, 0],
        &[0, 1, 32, 33],
        &[0, 0, 0, 0, 0],
    );
    // @32, -1;JLE
    check_steps(
        "0000000000100000\n\
         1000111010000110\n",
        &[0, 32, 32, 0],
        &[0, 1, 32, 33],
        &[0, 0, 0, 0, 0],
    );
}

#[test]
fn jgt() {
    // @32, 1;JGT
    check_steps(
        "0000000000100000\n\
         1000111111000001\n",
        &[0, 32, 32, 0],
        &[0, 1, 32, 33],
        &[0, 0, 0, 0, 0],
    );
}

#[test]
fn jge() {
    // @32, 0;JGE
    check_steps(
        "0000000000100000\n\
         1000101010000011\n",
        &[0, 32, 32, 0],
        &[0, 1, 32, 33],
        &[0, 0, 0, 0, 0],
    );
    // @32, 1;JGE
    check_steps(
        "0000000000100000\n\
         1000111111000011\n",
        &[0, 32, 32, 0],
        &[0, 1, 32, 33],
        &[0, 0, 0, 0, 0],
    );
}

#[test]
fn d() {
    // D=1, A=D
    check_steps(
        "1000111111010000\n\
         1000001100100000\n",
        &[0, 0, 1],
        &[0, 1, 2, 3],
        &[0, 1, 1, 1],
    );
}

#[test]
fn cpu_d() {
    // D=1
    check_steps(
        "1110111111010000\n",
        &[0, 0, 0, 0, 0],
        &[0, 1, 2, 3, 4],
        &[0, 1, 1, 1, 1],
    );
}

#[test]
fn a() {
    // A=8, D=A
    check_steps(
        "0000000000001000\n\
         1000110000010000\n",
        &[0, 8, 8],
        &[0, 1, 2, 3],
        &[0, 0, 8, 8],
    );
}

#[test]
fn cpu_a() {
    // A=1; the zeroed instructions after the program make A zero
    check_steps(
        "1110111111100000\n",
        &[0, 1, 0, 0],
        &[0, 1, 2, 3, 4],
        &[0, 0, 0, 0, 0],
    );
}

#[test]
fn m() {
    // D=1, D=M[0]
    check_steps(
        "1000111111010000\n\
         1001110000010000\n",
        &[0, 0, 0, 0],
        &[0, 1, 2, 3],
        &[0, 1, 0, 0],
    );
}

#[test]
fn cpu_m() {
    // M=1
    let mut cpu = load(
        "0000000000100000\n\
         1110111111001000\n",
    );
    assert_eq!(cpu.ram[32], 0);
    assert_eq!(cpu.rd, 0);
    assert_eq!(cpu.ra, 0);
    cpu.step();
    assert_eq!(cpu.ram[32], 0);
    assert_eq!(cpu.ra, 32);
    assert_eq!(cpu.rd, 0);
    cpu.step();
    assert_eq!(cpu.ram[32], 1);
    assert_eq!(cpu.ra, 32);
    assert_eq!(cpu.rd, 0);
}

#[test]
fn not_d() {
    // D=!D
    check_steps(
        "1000001101010000",
        &[0, 0, 0, 0],
        &[0, 1, 2, 3],
        &[0, 0xFFFF, 0xFFFF, 0xFFFF],
    );
}

#[test]
fn not_a() {
    // A=!A
    check_steps(
        "1000110001100000",
        &[0, 0xFFFF, 0, 0],
        &[0, 1, 2, 3],
        &[0, 0, 0, 0],
    );
}

#[test]
fn not_m() {
    // M=1, D=!M
    let mut cpu = load(
        "1000111111001000\n\
         1001110001010000",
    );
    assert_eq!(cpu.ram[0], 0);
    assert_eq!(cpu.ra, 0);
    cpu.step();
    assert_eq!(cpu.ram[0], 1);
    assert_eq!(cpu.ra, 0);
    cpu.step();
    assert_eq!(cpu.ram[0], 1);
    assert_eq!(cpu.rd, 0xFFFE);
}

#[test]
fn negate_d() {
    // D=1, D=-D
    check_steps(
        "1000111111010000\n\
         1000001111010000",
        &[0, 0, 0, 0],
        &[0, 1, 2, 3],
        &[0, 1, M1, M1],
    );
}

#[test]
fn negate_a() {
    // A=1, D=-A
    check_steps(
        "1000111111100000\n\
         1000110011010000",
        &[0, 1, 1, 0],
        &[0, 1, 2, 3],
        &[0, 0, M1, M1],
    );
}

#[test]
fn negate_m() {
    // M=1, D=-M
    let mut cpu = load(
        "1000111111001000\n\
         1001110011010000",
    );
    assert_eq!(cpu.ram[0], 0);
    assert_eq!(cpu.ra, 0);
    cpu.step();
    assert_eq!(cpu.ram[0], 1);
    assert_eq!(cpu.ra, 0);
    cpu.step();
    assert_eq!(cpu.ram[0], 1);
    assert_eq!(cpu.rd, M1);
}

#[test]
fn inc_d() {
    // D=D+1, A=D+1
    check_steps(
        "1000011111010000\n\
         1000011111100000",
        &[0, 0, 2],
        &[0, 1, 2],
        &[0, 1, 1],
    );
}

#[test]
fn inc_a() {
    // A=A+1, D=A+1
    check_steps(
        "1000110111100000\n\
         1000110111010000",
        &[0, 1, 1, 0],
        &[0, 1, 2, 3],
        &[0, 0, 2, 2],
    );
}

#[test]
fn inc_m() {
    // M=M+1, D=M+1
    let mut cpu = load(
        "1001110111001000\n\
         1001110111010000",
    );
    assert_eq!(cpu.ram[0], 0);
    assert_eq!(cpu.ra, 0);
    cpu.step();
    assert_eq!(cpu.ram[0], 1);
    assert_eq!(cpu.ra, 0);
    cpu.step();
    assert_eq!(cpu.ram[0], 1);
    assert_eq!(cpu.rd, 2);
}

#[test]
fn dec_d() {
    // D=D-1, A=D-1
    check_steps(
        "1000001110010000\n\
         1000001110100000",
        &[0, 0, M2],
        &[0, 1, 2],
        &[0, M1, M1],
    );
}

#[test]
fn dec_a() {
    // A=A-1, D=A-1
    check_steps(
        "1000110010100000\n\
         1000110010010000",
        &[0, M1, M1, 0],
        &[0, 1, 2, 3],
        &[0, 0, M2, M2],
    );
}

#[test]
fn dec_m() {
    // M=M-1, D=M-1
    let mut cpu = load(
        "1001110010001000\n\
         1001110010010000",
    );
    assert_eq!(cpu.ram[0], 0);
    assert_eq!(cpu.ra, 0);
    cpu.step();
    assert_eq!(cpu.ram[0], M1);
    assert_eq!(cpu.ra, 0);
    cpu.step();
    assert_eq!(cpu.ram[0], M1);
    assert_eq!(cpu.rd, M2);
}

#[test]
fn add_da() {
    // A=5, D=D+A, A=D+A
    check_steps(
        "0000000000000101\n\
         1000000010010000\n\
         1000000010100000",
        &[0, 5, 5, 10],
        &[0, 1, 2, 3],
        &[0, 0, 5, 5],
    );
}

#[test]
fn add_dm() {
    // A=5, M=D+A, D=D+M
    let mut cpu = load(
        "0000000000000101\n\
         1000000010001000\n\
         1001000010010000",
    );
    assert_eq!(cpu.ram[0], 0);
    assert_eq!(cpu.ra, 0);
    cpu.step();
    assert_eq!(cpu.ram[5], 0);
    assert_eq!(cpu.ra, 5);
    assert_eq!(cpu.rd, 0);
    cpu.step();
    assert_eq!(cpu.ram[5], 5);
    assert_eq!(cpu.ra, 5);
    assert_eq!(cpu.rd, 0);
    cpu.step();
    assert_eq!(cpu.ram[5], 5);
    assert_eq!(cpu.ra, 5);
    assert_eq!(cpu.rd, 5);
}

#[test]
fn d_minus_a() {
    // A=5, D=D-A, A=D-A
    check_steps(
        "0000000000000101\n\
         1000010011010000\n\
         1000010011100000",
        &[0, 5, 5, M10],
        &[0, 1, 2, 3],
        &[0, 0, M5, M5],
    );
}

#[test]
fn d_minus_m() {
    // A=5, M=D-A, D=D-M
    let mut cpu = load(
        "0000000000000101\n\
         1000010011001000\n\
         1001010011010000\n\
         1001010011010000",
    );
    assert_eq!(cpu.ram[0], 0);
    assert_eq!(cpu.ra, 0);
    cpu.step();
    assert_eq!(cpu.ram[5], 0);
    assert_eq!(cpu.ra, 5);
    assert_eq!(cpu.rd, 0);
    cpu.step();
    assert_eq!(cpu.ram[5], M5);
    assert_eq!(cpu.ra, 5);
    assert_eq!(cpu.rd, 0);
    cpu.step();
    assert_eq!(cpu.ram[5], M5);
    assert_eq!(cpu.ra, 5);
    assert_eq!(cpu.rd, 5);
    cpu.step();
    assert_eq!(cpu.ram[5], M5);
    assert_eq!(cpu.ra, 5);
    assert_eq!(cpu.rd, 10);
}

#[test]
fn a_minus_d() {
    // A=5, D=A-D, A=A-D
    check_steps(
        "0000000000000101\n\
         1000000111010000\n\
         1000000111100000",
        &[0, 5, 5, 0],
        &[0, 1, 2, 3],
        &[0, 0, 5, 5],
    );
}

#[test]
fn m_minus_d() {
    // A=5, M=A-D, D=M-D
    let mut cpu = load(
        "0000000000000101\n\
         1000000111001000\n\
         1001000111010000\n\
         1001000111010000",
    );
    assert_eq!(cpu.ram[0], 0);
    assert_eq!(cpu.ra, 0);
    cpu.step();
    assert_eq!(cpu.ram[5], 0);
    assert_eq!(cpu.ra, 5);
    assert_eq!(cpu.rd, 0);
    cpu.step();
    assert_eq!(cpu.ram[5], 5);
    assert_eq!(cpu.ra, 5);
    assert_eq!(cpu.rd, 0);
    cpu.step();
    assert_eq!(cpu.ram[5], 5);
    assert_eq!(cpu.ra, 5);
    assert_eq!(cpu.rd, 5);
    cpu.step();
    assert_eq!(cpu.ram[5], 5);
    assert_eq!(cpu.ra, 5);
    assert_eq!(cpu.rd, 0);
}

#[test]
fn d_and_a() {
    // A=5, D=D&A, A=D&A
    check_steps(
        "0000000000000101\n\
         1000000000010000\n\
         1000000000100000",
        &[0, 5, 5, 0],
        &[0, 1, 2, 3],
        &[0, 0, 0, 0],
    );
}

#[test]
fn d_and_m() {
    // A=5, D=A, M=1, A=D&M
    let mut cpu = load(
        "0000000000000101\n\
         1000110000010000\n\
         1000111111001000\n\
         1001000000100000",
    );
    assert_eq!(cpu.ram[0], 0);
    assert_eq!(cpu.ra, 0);
    cpu.step();
    assert_eq!(cpu.ram[5], 0);
    assert_eq!(cpu.ra, 5);
    assert_eq!(cpu.rd, 0);
    cpu.step();
    assert_eq!(cpu.ram[5], 0);
    assert_eq!(cpu.ra, 5);
    assert_eq!(cpu.rd, 5);
    cpu.step();
    assert_eq!(cpu.ram[5], 1);
    assert_eq!(cpu.ra, 5);
    assert_eq!(cpu.rd, 5);
    cpu.step();
    assert_eq!(cpu.ram[5], 1);
    assert_eq!(cpu.ra, 1);
    assert_eq!(cpu.rd, 5);
}

#[test]
fn d_or_a() {
    // A=5, D=D|A, A=D|A
    check_steps(
        "0000000000000101\n\
         1000010101010000\n\
         1000010101100000",
        &[0, 5, 5, 5],
        &[0, 1, 2, 3],
        &[0, 0, 5, 5],
    );
}

#[test]
fn d_or_m() {
    // A=4, D=A, M=1, A=D|M
    let mut cpu = load(
        "0000000000000100\n\
         1000110000010000\n\
         1000111111001000\n\
         1001010101100000",
    );
    assert_eq!(cpu.ram[0], 0);
    assert_eq!(cpu.ra, 0);
    cpu.step();
    assert_eq!(cpu.ram[4], 0);
    assert_eq!(cpu.ra, 4);
    assert_eq!(cpu.rd, 0);
    cpu.step();
    assert_eq!(cpu.ram[4], 0);
    assert_eq!(cpu.ra, 4);
    assert_eq!(cpu.rd, 4);
    cpu.step();
    assert_eq!(cpu.ram[4], 1);
    assert_eq!(cpu.ra, 4);
    assert_eq!(cpu.rd, 4);
    cpu.step();
    assert_eq!(cpu.ram[4], 1);
    assert_eq!(cpu.ra, 5);
    assert_eq!(cpu.rd, 4);
}

#[test]
fn ad() {
    // AD=1
    check_steps(
        "1110111111110000\n",
        &[0, 1, 0, 0],
        &[0, 1, 2, 3, 4],
        &[0, 1, 1, 1, 1],
    );
}

#[test]
fn am() {
    // AM=1
    let mut cpu = load(
        "0000000000100000\n\
         1110111111101000\n",
    );
    assert_eq!(cpu.ram[32], 0);
    assert_eq!(cpu.ra, 0);
    assert_eq!(cpu.rd, 0);
    cpu.step();
    assert_eq!(cpu.ram[32], 0);
    assert_eq!(cpu.ra, 32);
    assert_eq!(cpu.rd, 0);
    cpu.step();
    assert_eq!(cpu.ram[32], 1);
    assert_eq!(cpu.ra, 1);
    assert_eq!(cpu.rd, 0);
}

#[test]
fn md() {
    // MD=1
    let mut cpu = load(
        "0000000000100000\n\
         1110111111011000\n",
    );
    assert_eq!(cpu.ram[32], 0);
    assert_eq!(cpu.ra, 0);
    assert_eq!(cpu.rd, 0);
    cpu.step();
    assert_eq!(cpu.ram[32], 0);
    assert_eq!(cpu.ra, 32);
    assert_eq!(cpu.rd, 0);
    cpu.step();
    assert_eq!(cpu.ram[32], 1);
    assert_eq!(cpu.rd, 1);
    // A is not affected
    assert_eq!(cpu.ra, 32);
}

#[test]
fn amd() {
    // AMD=1
    let mut cpu = load(
        "0000000000100000\n\
         1110111111111000\n",
    );
    assert_eq!(cpu.ram[32], 0);
    assert_eq!(cpu.ra, 0);
    assert_eq!(cpu.rd, 0);
    cpu.step();
    assert_eq!(cpu.ram[32], 0);
    assert_eq!(cpu.ra, 32);
    assert_eq!(cpu.rd, 0);
    cpu.step();
    assert_eq!(cpu.ram[32], 1);
    assert_eq!(cpu.rd, 1);
    assert_eq!(cpu.ra, 1);
}

#[test]
fn jump_goes_to_the_address_in_a() {
    // @32, 0;JMP
    let mut cpu = load("0000000000100000\n1110101010000111\n");
    cpu.step();
    cpu.step();
    assert_eq!(cpu.ra, 32);
    assert_eq!(cpu.pc, 32);
    assert_eq!(cpu.rd, 0);
}

#[test]
fn assembled_sum_runs() {
    let code = hack_interpreter::assemble("@5\nD=A\n@3\nD=D+A").unwrap();
    let mut cpu = load(&code);
    for _ in 0..4 {
        assert!(!cpu.faults());
        cpu.step();
    }
    assert_eq!(cpu.rd, 8);
    assert_eq!(cpu.ra, 3);
    assert_eq!(cpu.pc, 4);
}

#[test]
fn assembled_store_runs() {
    let code = hack_interpreter::assemble("@32\nM=1").unwrap();
    let mut cpu = load(&code);
    cpu.step();
    cpu.step();
    assert_eq!(cpu.ram[32], 1);
    assert_eq!(cpu.ra, 32);
    assert_eq!(cpu.rd, 0);
    assert_eq!(cpu.pc, 2);
}

#[test]
fn computation_without_destination_and_jump_only_moves_on() {
    for comp in ["0", "1", "-1", "D", "A", "M", "!D", "-A", "D+1", "M-1", "D+A", "D-M", "M-D", "D&A", "D|M"] {
        let code = hack_interpreter::assemble(&format!("@7\nD=A\n@9\nM=D\n{}", comp)).unwrap();
        let mut cpu = load(&code);
        for _ in 0..4 {
            cpu.step();
        }
        let ram: Vec<u16> = cpu.ram.to_vec();
        cpu.step();
        assert_eq!(cpu.pc, 5, "{}", comp);
        assert_eq!(cpu.ra, 9, "{}", comp);
        assert_eq!(cpu.rd, 7, "{}", comp);
        assert_eq!(cpu.ram.to_vec(), ram, "{}", comp);
    }
}

#[test]
fn assembled_computations_compute_what_they_say() {
    // D = 6, A = 3, M = RAM[3] = 5; then D=<comp>.
    let cases: [(&str, u16); 28] = [
        ("0", 0),
        ("1", 1),
        ("-1", 0xFFFF),
        ("D", 6),
        ("A", 3),
        ("M", 5),
        ("!D", !6),
        ("!A", !3),
        ("!M", !5),
        ("-D", 0u16.wrapping_sub(6)),
        ("-A", 0u16.wrapping_sub(3)),
        ("-M", 0u16.wrapping_sub(5)),
        ("D+1", 7),
        ("A+1", 4),
        ("M+1", 6),
        ("D-1", 5),
        ("A-1", 2),
        ("M-1", 4),
        ("D+A", 9),
        ("D+M", 11),
        ("D-A", 3),
        ("D-M", 1),
        ("A-D", 0u16.wrapping_sub(3)),
        ("M-D", 0xFFFF),
        ("D&A", 6 & 3),
        ("D&M", 6 & 5),
        ("D|A", 6 | 3),
        ("D|M", 6 | 5),
    ];
    for (comp, expected) in cases {
        let source = format!("@5\nD=A\n@3\nM=D\n@6\nD=A\n@3\nD={}", comp);
        let code = hack_interpreter::assemble(&source).unwrap();
        let mut cpu = load(&code);
        for _ in 0..8 {
            cpu.step();
        }
        assert_eq!(cpu.rd, expected, "{}", comp);
        assert_eq!(cpu.ra, 3, "{}", comp);
        assert_eq!(cpu.ram[3], 5, "{}", comp);
    }
}

#[test]
fn assembled_jumps_test_the_result() {
    // D = value; @20; D;<jump>
    let cases = [
        ("JGT", [false, false, true]),
        ("JEQ", [false, true, false]),
        ("JGE", [false, true, true]),
        ("JLT", [true, false, false]),
        ("JNE", [true, false, true]),
        ("JLE", [true, true, false]),
        ("JMP", [true, true, true]),
    ];
    for (jump, taken) in cases {
        for (i, value) in ["-1", "0", "1"].iter().enumerate() {
            let source = format!("D={}\n@20\nD;{}", value, jump);
            let code = hack_interpreter::assemble(&source).unwrap();
            let mut cpu = load(&code);
            for _ in 0..3 {
                cpu.step();
            }
            assert_eq!(cpu.pc, if taken[i] { 20 } else { 3 }, "{} on {}", jump, value);
        }
    }
    let code = hack_interpreter::assemble("D=1\n@20\nD").unwrap();
    let mut cpu = load(&code);
    for _ in 0..3 {
        cpu.step();
    }
    assert_eq!(cpu.pc, 3);
}

#[test]
fn memory_is_written_at_the_address_before_the_store() {
    // @32, AM=1: RAM[32] takes the result, not RAM[1]
    let code = hack_interpreter::assemble("@32\nAM=1\n").unwrap();
    let mut cpu = load(&code);
    cpu.step();
    cpu.step();
    assert_eq!(cpu.ram[32], 1);
    assert_eq!(cpu.ram[1], 0);
    assert_eq!(cpu.ra, 1);
}

#[test]
fn jump_goes_to_the_address_after_the_store() {
    // @32, A=A+1;JMP jumps to 33
    let code = hack_interpreter::assemble("@32\nA=A+1;JMP\n").unwrap();
    let mut cpu = load(&code);
    cpu.step();
    cpu.step();
    assert_eq!(cpu.ra, 33);
    assert_eq!(cpu.pc, 33);
}

#[test]
fn faults_are_found_before_the_step() {
    // @24577 is beyond the RAM: M=1 cannot be executed, D=A can.
    let code = hack_interpreter::assemble("@24577\nD=A\nM=1\n").unwrap();
    let mut cpu = load(&code);
    assert!(!cpu.faults());
    cpu.step();
    assert!(!cpu.faults());
    cpu.step();
    assert_eq!(cpu.rd, 24577);
    assert!(cpu.faults());
    // @24576 is the last word.
    let code = hack_interpreter::assemble("@24576\nM=1\nD=M\n").unwrap();
    let mut cpu = load(&code);
    cpu.step();
    assert!(!cpu.faults());
    cpu.step();
    assert!(!cpu.faults());
    cpu.step();
    assert_eq!(cpu.rd, 1);
    // A program counter beyond the ROM.
    let mut cpu = load("");
    cpu.pc = 32767;
    assert!(!cpu.faults());
    cpu.step();
    assert_eq!(cpu.pc, 32768);
    assert!(cpu.faults());
}

#[test]
fn screen_pixels_are_bits_of_the_screen_words() {
    let mut cpu = load("");
    assert!(!cpu.ram.pixel(0, 0));
    cpu.ram.set(16384, 0b101);
    assert!(cpu.ram.pixel(0, 0));
    assert!(!cpu.ram.pixel(1, 0));
    assert!(cpu.ram.pixel(2, 0));
    cpu.ram.set(16384 + 32 * 3 + 1, 0x8000);
    assert!(cpu.ram.pixel(31, 3));
    assert!(!cpu.ram.pixel(30, 3));
    assert!(!cpu.ram.pixel(31, 2));
    cpu.ram.set(24575, 0x8000);
    assert!(cpu.ram.pixel(511, 255));
    assert_eq!(cpu.ram.get(24575), 0x8000);
    assert_eq!(cpu.ram.len(), 24577);
}
