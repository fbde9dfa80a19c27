use hack_interpreter::runner;
use hack_interpreter::runner::{Report, SourceFile};

const MAX_HACK: &str = "0000000000000000\n\
                        1111110000010000\n\
                        0000000000000001\n\
                        1111010011010000\n\
                        0000000000001010\n\
                        1110001100000001\n\
                        0000000000000001\n\
                        1111110000010000\n\
                        0000000000001100\n\
                        1110101010000111\n\
                        0000000000000000\n\
                        1111110000010000\n\
                        0000000000000010\n\
                        1110001100001000\n\
                        0000000000001110\n\
                        1110101010000111\n";

const MAX_ASM: &str = "// Computes R2 = max(R0, R1)\n\
                       @R0\nD=M\n@R1\nD=D-M\n@OUTPUT_FIRST\nD;JGT\n@R1\nD=M\n@OUTPUT_D\n0;JMP\n\
                       (OUTPUT_FIRST)\n@R0\nD=M\n(OUTPUT_D)\n@R2\nM=D\n\
                       (INFINITE_LOOP)\n@INFINITE_LOOP\n0;JMP\n";

const MAX_TST: &str = "// This file is part of www.nand2tetris.org\n\
                       // File name: projects/06/max/Max.tst\n\
                       \n\
                       load Max.hack,\n\
                       output-file Max.out,\n\
                       compare-to Max.cmp,\n\
                       output-list RAM[0]%D2.6.2 RAM[1]%D2.6.2 RAM[2]%D2.6.2;\n\
                       \n\
                       set RAM[0] 3,\n\
                       set RAM[1] 5,\n\
                       repeat 14 {\n  ticktock;\n}\n\
                       output;\n\
                       \n\
                       set PC 0,\n\
                       set RAM[0] 23456,\n\
                       set RAM[1] 12345,\n\
                       repeat 14 {\n  ticktock;\n}\n\
                       output;\n";

const MAX_CMP: &str = "|  RAM[0]  |  RAM[1]  |  RAM[2]  |\n\
                       |       3  |       5  |       5  |\n\
                       |   23456  |   12345  |   23456  |\n";

fn file(name: &str, contents: &str) -> SourceFile {
    SourceFile { name: name.to_string(), contents: Ok(contents.to_string()) }
}

fn unreadable(name: &str, message: &str) -> SourceFile {
    SourceFile { name: name.to_string(), contents: Err(message.to_string()) }
}

fn written(report: &Report) -> Option<(&str, &str)> {
    report.written.as_ref().map(|(path, text)| (path.as_str(), text.as_str()))
}

fn failure(report: &Report) -> &str {
    match &report.result {
        Ok(()) => panic!("the run did not fail"),
        Err(e) => e.as_str(),
    }
}

#[test]
fn runs_max_script_to_the_expected_output() {
    let files = vec![file("Max.hack", MAX_HACK), file("Max.cmp", MAX_CMP)];
    let report = runner("Max.tst", MAX_TST, &files);
    assert_eq!(report.result, Ok(()));
    assert_eq!(written(&report), Some(("Max.out", MAX_CMP)));
}

#[test]
fn runs_one_line_script_with_separators_after_blocks() {
    let script = "load Max.hack, output-file Max.out, compare-to Max.cmp, \
                  output-list RAM[0]%D2.6.2 RAM[1]%D2.6.2 RAM[2]%D2.6.2, \
                  set RAM[0] 3, set RAM[1] 5, repeat 14 { ticktock; }, \
                  set RAM[0] 23456, set RAM[1] 12345, set PC 0, repeat 14 { ticktock; }, output;";
    let expected = "|  RAM[0]  |  RAM[1]  |  RAM[2]  |\n\
                    |   23456  |   12345  |   23456  |\n";
    let files = vec![file("Max.hack", MAX_HACK), file("Max.cmp", expected)];
    let report = runner("Max.tst", script, &files);
    assert_eq!(report.result, Ok(()));
    assert_eq!(written(&report), Some(("Max.out", expected)));
}

#[test]
fn runs_assembly_after_assembling_it() {
    let script = MAX_TST.replace("load Max.hack", "load Max.asm");
    let files = vec![file("Max.asm", MAX_ASM), file("Max.cmp", MAX_CMP)];
    let report = runner("Max.tst", &script, &files);
    assert_eq!(report.result, Ok(()));
    assert_eq!(written(&report), Some(("Max.out", MAX_CMP)));
}

#[test]
fn run_compares_cells_but_for_whitespace() {
    let loose = "| RAM[0] |RAM[1]|   RAM[2]   |\r\n\
                 |3|5|5|\r\n\
                 | 23456 | 12345 | 23456 |";
    let files = vec![file("Max.hack", MAX_HACK), file("Max.cmp", loose)];
    let report = runner("Max.tst", MAX_TST, &files);
    assert_eq!(report.result, Ok(()));
    assert_eq!(written(&report), Some(("Max.out", MAX_CMP)));
}

#[test]
fn run_fails_at_the_first_line_that_differs() {
    let wrong = "|  RAM[0]  |  RAM[1]  |  RAM[2]  |\n\
                 |       3  |       5  |       3  |\n\
                 |   23456  |   12345  |   23456  |\n";
    let files = vec![file("Max.hack", MAX_HACK), file("Max.cmp", wrong)];
    let report = runner("dir/Max.tst", MAX_TST, &files);
    assert_eq!(
        failure(&report),
        "Failure running 'dir/Max.tst':\n\
         Comparison failed at line: 1\n\
         Got: '|       3  |       5  |       5  |'\n\
         Expected: '|       3  |       5  |       3  |'"
    );
    // What was gathered up to the failure is still written.
    assert_eq!(
        written(&report),
        Some((
            "Max.out",
            "|  RAM[0]  |  RAM[1]  |  RAM[2]  |\n\
             |       3  |       5  |       5  |\n"
        ))
    );
}

#[test]
fn run_without_expected_output_checks_nothing() {
    let script = "load Max.hack, output-file Max.out, output-list PC%D1.3.1; \
                  ticktock; output; ticktock; output;";
    let report = runner("t.tst", script, &vec![file("Max.hack", MAX_HACK)]);
    assert_eq!(report.result, Ok(()));
    assert_eq!(written(&report), Some(("Max.out", "|  PC |\n|   1 |\n|   2 |\n")));
}

#[test]
fn run_fails_without_output_file() {
    let report = runner("t.tst", "ticktock;", &vec![]);
    assert_eq!(failure(&report), "No output file specified");
    assert_eq!(written(&report), None);
}

#[test]
fn run_of_empty_script_fails_without_output_file() {
    let report = runner("t.tst", "", &vec![]);
    assert_eq!(failure(&report), "No output file specified");
    let report = runner("t.tst", "  \n// only a comment\n", &vec![]);
    assert_eq!(failure(&report), "No output file specified");
}

#[test]
fn run_stops_at_a_command_that_cannot_be_read() {
    let report = runner("t.tst", "output-file out, output-list PC%D1.1.1, jump 3;", &vec![]);
    assert_eq!(failure(&report), "Unexpected command: 'jump'");
    // What was gathered before is still written.
    assert_eq!(written(&report), Some(("out", "|PC |\n")));
    let report = runner("t.tst", "output-list PC%D1.1.1, jump 3;", &vec![]);
    assert_eq!(failure(&report), "Unexpected command: 'jump'");
    assert_eq!(written(&report), None);
}

#[test]
fn run_passes_over_a_command_without_separator() {
    let report = runner("t.tst", "output-file out; output-list PC%D1.1.1; ticktock", &vec![]);
    assert_eq!(report.result, Ok(()));
    assert_eq!(written(&report), Some(("out", "|PC |\n")));
}

#[test]
fn repeat_zero_times_changes_nothing() {
    let with = "output-file out, output-list PC%D1.1.1 RAM[0]%D1.1.1, \
                repeat 0 { ticktock; set RAM[0] 7; output; } output;";
    let without = "output-file out, output-list PC%D1.1.1 RAM[0]%D1.1.1, output;";
    let a = runner("t.tst", with, &vec![]);
    let b = runner("t.tst", without, &vec![]);
    assert_eq!(a.result, Ok(()));
    assert_eq!(written(&a), Some(("out", "|PC |RAM|\n| 0 | 0 |\n")));
    assert_eq!(written(&a), written(&b));
}

#[test]
fn repeat_runs_its_block_each_time() {
    let script = "output-file out, output-list PC%D1.1.1, repeat 3 { ticktock; output; }";
    let report = runner("t.tst", script, &vec![]);
    assert_eq!(report.result, Ok(()));
    assert_eq!(written(&report), Some(("out", "|PC |\n| 1 |\n| 2 |\n| 3 |\n")));
}

#[test]
fn repeat_in_repeat_is_refused() {
    let script = "output-file out, repeat 2 { repeat 3 { ticktock; } }";
    let report = runner("t.tst", script, &vec![]);
    assert_eq!(failure(&report), "Missing '}' after 'repeat'");
}

#[test]
fn repeat_needs_block_and_count() {
    assert_eq!(failure(&runner("t", "repeat 3 ticktock;", &vec![])), "Missing '{' after 'repeat'");
    assert_eq!(failure(&runner("t", "repeat 3 { ticktock;", &vec![])), "Missing '}' after 'repeat'");
    assert_eq!(
        failure(&runner("t", "repeat x { ticktock; }", &vec![])),
        "Failed to parse iteration count for 'repeat': invalid digit found in string - 'x'"
    );
    assert_eq!(
        failure(&runner("t", "repeat { ticktock; }", &vec![])),
        "Failed to parse iteration count for 'repeat': cannot parse integer from empty string - ''"
    );
    assert_eq!(
        failure(&runner("t", "repeat 65536 { ticktock; }", &vec![])),
        "Failed to parse iteration count for 'repeat': number too large to fit in target type - '65536'"
    );
    assert_eq!(failure(&runner("t", "repeat 2 { hop; }", &vec![])), "Unexpected command: 'hop'");
}

#[test]
fn load_fails_on_other_file_types() {
    let report = runner("t.tst", "output-file out, load Max.vm;", &vec![file("Max.vm", "")]);
    assert_eq!(failure(&report), "Failure running 't.tst':\nUnsupported file type: Max.vm");
    assert_eq!(written(&report), Some(("out", "")));
}

#[test]
fn load_fails_on_a_file_that_is_not_there() {
    let report = runner("t.tst", "load Max.hack;", &vec![]);
    assert_eq!(failure(&report), "Failure running 't.tst':\n'Max.hack' does not exist.");
    assert_eq!(written(&report), None);
    let report = runner("t.tst", "compare-to Max.out;", &vec![file("Max.hack", "")]);
    assert_eq!(failure(&report), "Failure running 't.tst':\n'Max.out' does not exist.");
}

#[test]
fn load_hands_on_the_error_of_reading() {
    let files = vec![unreadable("Max.hack", "permission denied")];
    let report = runner("t.tst", "load Max.hack;", &files);
    assert_eq!(failure(&report), "Failure running 't.tst':\npermission denied");
}

#[test]
fn load_hands_on_the_error_of_assembling() {
    let files = vec![file("Bad.asm", "@1\nD=Q\n")];
    let report = runner("t.tst", "load Bad.asm;", &files);
    assert_eq!(failure(&report), "Failure running 't.tst':\nUnknown mnemonic: Q");
}

#[test]
fn load_fails_on_a_program_beyond_the_rom() {
    let program = (0..32769).map(|_| "0000000000000000\n").collect::<String>();
    let files = vec![file("Big.hack", &program)];
    let report = runner("t.tst", "load Big.hack;", &files);
    assert_eq!(
        failure(&report),
        "Failure running 't.tst':\nROM cannot fit program: 32768 is the maximum instruction count"
    );
}

#[test]
fn load_replaces_the_cpu() {
    let files = vec![file("Max.hack", MAX_HACK)];
    let script = "output-file out, output-list PC%D1.1.1 RAM[3]%D1.1.1, set RAM[3] 9, set PC 5, \
                  output, load Max.hack, output;";
    let report = runner("t.tst", script, &files);
    assert_eq!(report.result, Ok(()));
    assert_eq!(written(&report), Some(("out", "|PC |RAM|\n| 5 | 9 |\n| 0 | 0 |\n")));
}

#[test]
fn first_file_of_a_name_is_read() {
    let files = vec![file("a.hack", "0000000000000111\n"), file("a.hack", "0000000000000001\n")];
    let script = "output-file out, load a.hack, output-list RAM[0]%D1.1.1, ticktock, set RAM[7] 1, \
                  output-list RAM[7]%D1.1.1, output;";
    let report = runner("t.tst", script, &files);
    assert_eq!(report.result, Ok(()));
}

#[test]
fn set_writes_pc_and_ram() {
    let script = "output-file out, output-list PC%D1.6.1 pc%X1.4.1 RAM[24576]%D1.6.1 ram[2]%B1.16.1, \
                  set PC 12, set ram[2] -1, set RAM[24576] -32768, output, set pc +7, output;";
    let report = runner("t.tst", script, &vec![]);
    assert_eq!(report.result, Ok(()));
    assert_eq!(
        written(&report),
        Some((
            "out",
            "|     PC |   pc |RAM[2457|           ram[2] |\n\
             |     12 |    C | -32768 | 1111111111111111 |\n\
             |      7 |    7 | -32768 | 1111111111111111 |\n"
        ))
    );
}

#[test]
fn set_fails_on_other_destinations() {
    let report = runner("t.tst", "set D 1;", &vec![]);
    assert_eq!(failure(&report), "Failure running 't.tst':\nUnhandled set destination: D");
    let report = runner("t.tst", "set RAM[24577] 1;", &vec![]);
    assert_eq!(failure(&report), "Failure running 't.tst':\nRAM index out of range: 24577");
    let report = runner("t.tst", "set RAM[x] 1;", &vec![]);
    assert_eq!(failure(&report), "Failure running 't.tst':\nParseIntError { kind: InvalidDigit }");
    let report = runner("t.tst", "set RAM 1;", &vec![]);
    assert_eq!(failure(&report), "Failure running 't.tst':\nFailed to parse index for set RAM[?]");
}

#[test]
fn set_needs_location_and_value() {
    assert_eq!(failure(&runner("t", "set;", &vec![])), "Failed to parse location for set");
    assert_eq!(failure(&runner("t", "set PC;", &vec![])), "Failed to parse value for set");
    assert_eq!(failure(&runner("t", "set PC x;", &vec![])), "ParseIntError { kind: InvalidDigit }");
    assert_eq!(failure(&runner("t", "set PC 32768;", &vec![])), "ParseIntError { kind: PosOverflow }");
    assert_eq!(failure(&runner("t", "set PC -32769;", &vec![])), "ParseIntError { kind: NegOverflow }");
    assert_eq!(failure(&runner("t", "set PC -;", &vec![])), "ParseIntError { kind: InvalidDigit }");
    assert_eq!(failure(&runner("t", "load;", &vec![])), "Failed to parse filename for load");
    assert_eq!(failure(&runner("t", "output-file ;", &vec![])), "Failed to parse filename for output-file");
    assert_eq!(failure(&runner("t", "compare-to\n;", &vec![])), "Failed to parse filename for compare-to");
    assert_eq!(failure(&runner("t", ";", &vec![])), "Unexpected command: ''");
}

#[test]
fn ticktock_fails_where_the_cpu_cannot_step() {
    // M=1 with A beyond the RAM
    let files = vec![file("p.hack", "0110000000000010\n1110111111001000\n")];
    let script = "output-file out, load p.hack, ticktock, ticktock;";
    let report = runner("t.tst", script, &files);
    assert_eq!(
        failure(&report),
        "Failure running 't.tst':\nCPU fault: the program counter or the address in A is out of bounds"
    );
    // A program counter beyond the ROM
    let report = runner("t.tst", "set PC -1, ticktock;", &vec![]);
    assert_eq!(
        failure(&report),
        "Failure running 't.tst':\nCPU fault: the program counter or the address in A is out of bounds"
    );
}

#[test]
fn output_fails_on_a_value_too_long_for_its_column() {
    let script = "output-file out, output-list RAM[0]%D1.2.1, set RAM[0] 123, output, set RAM[0] 1234, output;";
    let report = runner("t.tst", script, &vec![]);
    assert_eq!(
        failure(&report),
        "Failure running 't.tst':\nvalue '1234' could not fit in the specified formatting: 'RAM[0]%D1.2.1'"
    );
    // The line that failed left nothing in the output.
    assert_eq!(written(&report), Some(("out", "|RAM[|\n|123 |\n")));
}

#[test]
fn output_list_fails_on_a_faulty_format() {
    let cases = [
        ("D%D1.1.1", "Unhandled set destination: D"),
        ("RAM[0]x%D1.1.1", "Unexpected text after the location: x"),
        ("RAM[0]", "Failed to parse type for format"),
        ("RAM[0", "Failed to parse skipping blank space"),
        ("RAM", "Failed to parse index for set RAM[?]"),
        ("PC", "Failed to parse type for format"),
        ("PC%", "Unknown format: "),
        ("PC%D", "ParseIntError { kind: Empty }"),
        ("PC%D1", "Failed to parse length for format"),
        ("PC%D1.1", "Failed to parse right padding for format"),
        ("PC%D1.1.", "ParseIntError { kind: Empty }"),
        ("PC%D1.x.1", "ParseIntError { kind: InvalidDigit }"),
        ("PC%D-1.1.1", "ParseIntError { kind: InvalidDigit }"),
        ("PC%D1.1.4294967296", "ParseIntError { kind: PosOverflow }"),
    ];
    for (format, message) in cases {
        let script = format!("output-file out, output-list {};", format);
        let report = runner("t.tst", &script, &vec![]);
        assert_eq!(failure(&report), format!("Failure running 't.tst':\n{}", message));
        assert_eq!(written(&report), Some(("out", "")));
    }
}

#[test]
fn output_fails_on_an_unknown_type() {
    // The header does not depend on the type, a line of values does.
    let report = runner("t.tst", "output-file out, output-list PC%S1.1.1, output;", &vec![]);
    assert_eq!(failure(&report), "Failure running 't.tst':\nUnknown format: S");
    assert_eq!(written(&report), Some(("out", "|PC |\n")));
}
