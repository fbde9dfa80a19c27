use hack_interpreter::assemble;
use hack_interpreter::assembler::{generate_code, parse_labels};

const MAX_ASM: &str = r#"
    // Computes R2 = max(R0, R1)  (R0,R1,R2 refer to  RAM[0],RAM[1],RAM[2])

       @R0
       D=M              // D = first number
       @R1
       D=D-M            // D = first number - second number
       @OUTPUT_FIRST
       D;JGT            // if D>0 (first is greater) goto output_first
       @R1
       D=M              // D = second number
       @OUTPUT_D
       0;JMP            // goto output_d
    (OUTPUT_FIRST)
       @R0
       D=M              // D = first number
    (OUTPUT_D)
       @R2
       M=D              // M[2] = D (greatest number)
    (INFINITE_LOOP)
       @INFINITE_LOOP
       0;JMP            // infinite loop
"#;

const MAX_HACK: &str = "0000000000000000\n\
                        1111110000010000\n\
                        0000000000000001\n\
                        1111010011010000\n\
                        0000000000001010\n\
                        1110001100000001\n\
                        0000000000000001\n\
                        1111110000010000\n\
                        0000000000001100\n\
                        1110101010000111\n\
                        0000000000000000\n\
                        1111110000010000\n\
                        0000000000000010\n\
                        1110001100001000\n\
                        0000000000001110\n\
                        1110101010000111\n";

#[test]
fn assembles_max() {
    assert_eq!(assemble(MAX_ASM).unwrap(), MAX_HACK);
}

#[test]
fn assembles_one_line_per_instruction() {
    let out = assemble(MAX_ASM).unwrap();
    assert_eq!(out.lines().count(), 16);
    assert_eq!(out.len(), 16 * 17);
}

#[test]
fn assembles_jump_to_label_at_the_end() {
    let out = assemble("@R0\nD=M\n@R1\nD=D-M\n@OUT\nD;JGT\n(OUT)").unwrap();
    assert_eq!(
        out,
        "0000000000000000\n\
         1111110000010000\n\
         0000000000000001\n\
         1111010011010000\n\
         0000000000000110\n\
         1110001100000001\n"
    );
}

#[test]
fn assembles_unknown_symbol_as_variable() {
    let out = assemble("@R0\nD=M\n@R1\nD=D-M\n@OUT\nD;JGT").unwrap();
    assert_eq!(
        out,
        "0000000000000000\n\
         1111110000010000\n\
         0000000000000001\n\
         1111010011010000\n\
         0000000000010000\n\
         1110001100000001\n"
    );
}

#[test]
fn assembles_empty_source_to_nothing() {
    assert_eq!(assemble("").unwrap(), "");
    assert_eq!(assemble("\n  // nothing here\n\n").unwrap(), "");
    assert_eq!(assemble("(ONLY_A_LABEL)\n").unwrap(), "");
}

#[test]
fn assembles_number_as_15_bits() {
    assert_eq!(assemble("@0").unwrap(), "0000000000000000\n");
    assert_eq!(assemble("@1").unwrap(), "0000000000000001\n");
    assert_eq!(assemble("@21845").unwrap(), "0101010101010101\n");
    assert_eq!(assemble("@32767").unwrap(), "0111111111111111\n");
    assert_eq!(assemble("@00042").unwrap(), "0000000000101010\n");
}

#[test]
fn assembles_predefined_symbols() {
    let names = [
        ("SP", 0),
        ("LCL", 1),
        ("ARG", 2),
        ("THIS", 3),
        ("THAT", 4),
        ("R0", 0),
        ("R1", 1),
        ("R2", 2),
        ("R3", 3),
        ("R4", 4),
        ("R5", 5),
        ("R6", 6),
        ("R7", 7),
        ("R8", 8),
        ("R9", 9),
        ("R10", 10),
        ("R11", 11),
        ("R12", 12),
        ("R13", 13),
        ("R14", 14),
        ("R15", 15),
        ("SCREEN", 0x4000),
        ("KBD", 0x6000),
    ];
    for (name, address) in names {
        let out = assemble(&format!("@{}", name)).unwrap();
        assert_eq!(out, format!("0{:015b}\n", address));
    }
}

#[test]
fn assembles_variables_from_16_in_order_of_first_use() {
    let out = assemble("@first\n@second\n@first\n@third\n@second\n").unwrap();
    assert_eq!(
        out,
        "0000000000010000\n\
         0000000000010001\n\
         0000000000010000\n\
         0000000000010010\n\
         0000000000010001\n"
    );
}

#[test]
fn assembles_label_before_variable_of_the_same_name() {
    // The label is known from the first pass, so its use before the
    // declaration is no variable.
    let out = assemble("@END\n0;JMP\n@x\n(END)\n@END\n").unwrap();
    assert_eq!(
        out,
        "0000000000000011\n\
         1110101010000111\n\
         0000000000010000\n\
         0000000000000011\n"
    );
}

#[test]
fn assembles_last_of_two_labels_of_one_name() {
    let out = assemble("(X)\n@X\n(X)\n@X\n").unwrap();
    assert_eq!(out, "0000000000000001\n0000000000000001\n");
}

#[test]
fn assembles_c_instruction_fields() {
    assert_eq!(assemble("D=D+A").unwrap(), "1110000010010000\n");
    assert_eq!(assemble("AMD=M+1;JNE").unwrap(), "1111110111111101\n");
    assert_eq!(assemble("0;JMP").unwrap(), "1110101010000111\n");
    assert_eq!(assemble("M=D|M").unwrap(), "1111010101001000\n");
    assert_eq!(assemble("D").unwrap(), "1110001100000000\n");
}

#[test]
fn assemble_fails_on_unknown_mnemonic() {
    assert_eq!(assemble("@1\nD=X+Y\n@2\n"), Err("Unknown mnemonic: X+Y".to_string()));
    assert_eq!(assemble("D=D+A\nfoo\n"), Err("Unknown mnemonic: foo".to_string()));
}

#[test]
fn assemble_fails_on_address_beyond_15_bits() {
    assert_eq!(assemble("@32768"), Err("Invalid address: 32768".to_string()));
    assert_eq!(assemble("@99999999999999999999"), Err("Invalid address: 99999999999999999999".to_string()));
    assert_eq!(assemble("@"), Err("Invalid address: ".to_string()));
}

#[test]
fn assemble_first_error_wins() {
    assert_eq!(assemble("@40000\nD=X\n"), Err("Invalid address: 40000".to_string()));
    assert_eq!(assemble("D=X\n@40000\n"), Err("Unknown mnemonic: X".to_string()));
}

#[test]
fn two_passes_share_the_table() {
    let source = "(START)\n@START\n@v\n(NEXT)\n@NEXT\n";
    let table = parse_labels(source).unwrap();
    assert!(table.contains("START"));
    assert!(table.contains("NEXT"));
    assert!(table.contains("SCREEN"));
    assert!(!table.contains("v"));
    assert_eq!(table.get_address("START"), 0);
    assert_eq!(table.get_address("NEXT"), 2);
    let out = generate_code(source, table).unwrap();
    assert_eq!(
        out,
        "0000000000000000\n\
         0000000000010000\n\
         0000000000000010\n"
    );
}
