use hack_interpreter::runner::commands::{Command, Commands};
use hack_interpreter::runner::inputs;

fn all(script: &str) -> Vec<Result<Command, String>> {
    let mut commands = Commands::new(script);
    let mut list = vec![];
    while let Some(item) = commands.next() {
        let failed = item.is_err();
        list.push(item);
        if failed {
            break;
        }
    }
    list
}

fn show(script: &str) -> Vec<String> {
    all(script).iter().map(|item| format!("{:?}", item)).collect()
}

#[test]
fn commands_of_each_kind() {
    assert_eq!(
        show(
            "load Max.hack, output-file Max.out, compare-to Max.cmp,\n\
             output-list RAM[0]%D2.6.2  RAM[1]%D2.6.2;\n\
             set RAM[0] 3, set PC -1; ticktock; output;"
        ),
        vec![
            "Ok(Load(\"Max.hack\"))",
            "Ok(OutputFile(\"Max.out\"))",
            "Ok(CompareTo(\"Max.cmp\"))",
            "Ok(OutputList([\"RAM[0]%D2.6.2\", \"RAM[1]%D2.6.2\"]))",
            "Ok(SetValue(\"RAM[0]\", 3))",
            "Ok(SetValue(\"PC\", -1))",
            "Ok(TickTock)",
            "Ok(Output)",
        ]
    );
}

#[test]
fn commands_in_a_block() {
    assert_eq!(
        show("repeat 14 {\n  ticktock;\n  output;\n}\noutput;"),
        vec!["Ok(Repeat(14, [TickTock, Output]))", "Ok(Output)"]
    );
    assert_eq!(show("repeat 0 {}"), vec!["Ok(Repeat(0, []))"]);
    assert_eq!(show("repeat 65535 { }"), vec!["Ok(Repeat(65535, []))"]);
}

#[test]
fn separator_after_a_block_belongs_to_it() {
    assert_eq!(
        show("repeat 2 { ticktock; } , output;"),
        vec!["Ok(Repeat(2, [TickTock]))", "Ok(Output)"]
    );
    assert_eq!(
        show("repeat 2 { ticktock; };; output;"),
        vec!["Ok(Repeat(2, [TickTock]))", "Err(\"Unexpected command: ''\")"]
    );
}

#[test]
fn commands_pass_over_comment_lines_and_whitespace() {
    assert_eq!(
        show("// one\n  \t// two\r\n ticktock;\n// three\noutput;// four"),
        vec!["Ok(TickTock)", "Ok(Output)"]
    );
    assert_eq!(show(""), Vec::<String>::new());
    assert_eq!(show(" \n\t "), Vec::<String>::new());
    assert_eq!(show("// a comment without line break"), Vec::<String>::new());
}

#[test]
fn command_without_separator_is_not_found() {
    assert_eq!(show("ticktock; output"), vec!["Ok(TickTock)"]);
}

#[test]
fn words_beyond_those_of_a_command_are_passed_over() {
    assert_eq!(show("ticktock now;"), vec!["Ok(TickTock)"]);
    assert_eq!(show("load a.hack b.hack;"), vec!["Ok(Load(\"a.hack\"))"]);
}

#[test]
fn next_stays_at_the_end() {
    let mut commands = Commands::new("output; ");
    assert!(commands.next().is_some());
    assert!(commands.next().is_none());
    assert!(commands.next().is_none());
}

#[test]
fn parse_reads_one_command() {
    assert_eq!(format!("{:?}", Command::parse("set\tRAM[1]\n5")), "Ok(SetValue(\"RAM[1]\", 5))");
    assert_eq!(format!("{:?}", Command::parse("  output  ")), "Ok(Output)");
    assert_eq!(format!("{:?}", Command::parse("output-list")), "Ok(OutputList([]))");
    assert_eq!(format!("{:?}", Command::parse("repeat")), "Err(\"Unexpected command: 'repeat'\")");
    assert_eq!(format!("{:?}", Command::parse("Load x")), "Err(\"Unexpected command: 'Load'\")");
}

#[test]
fn inputs_are_the_files_of_load_and_compare_to() {
    assert_eq!(
        inputs(
            "load a.asm, output-file out, compare-to b.cmp, \
             repeat 2 { load c.hack; ticktock; } load a.asm; bad; load never.hack;"
        ),
        vec!["a.asm", "b.cmp", "c.hack", "a.asm"]
    );
    assert_eq!(inputs("output;"), Vec::<String>::new());
}
