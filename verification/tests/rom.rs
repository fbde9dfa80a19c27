use hack_interpreter::memory::ROM_SIZE;
use hack_interpreter::Rom;

#[test]
fn rom_loads_raw() {
    let data = "0000000000000000\n\
                1111111111111111\n\
                0101010101010101\n\
                1010101010101010\n\
                0111111111111111\n";
    let rom = Rom::from_str(data).unwrap();

    assert_eq!(
        &rom[..5],
        &[0x00, 0xFFFF, 0b0101010101010101, 0b1010101010101010, 0b0111111111111111]
    )
}

#[test]
fn rom_assert_size() {
    let rom = Rom::from_str("1111111111111111").unwrap();
    assert_eq!(rom.len(), ROM_SIZE);
    assert_eq!(rom.len(), 32768);
    assert_eq!(rom[0], 0xFFFF);

    for &b in &rom[1..] {
        assert_eq!(b, 0)
    }
}

#[test]
fn rom_accept_trailing_blanklines() {
    let rom = Rom::from_str("1111000010100101\n\n\n\n").unwrap();
    assert_eq!(rom[0], 0b1111000010100101);
    assert_eq!(rom.len(), ROM_SIZE);
}

#[test]
fn rom_accept_inline_comments() {
    let rom = Rom::from_str(
        "0000000000100000\n\
         // JMP\n\
         1000000000000111\n",
    )
    .unwrap();
    assert_eq!(rom[0], 0b0000000000100000);
    assert_eq!(rom[1], 0b1000000000000111);
    assert_eq!(rom.len(), ROM_SIZE);
}

#[test]
#[should_panic(expected = "ROM cannot fit program")]
fn rom_too_large() {
    let data = (0..ROM_SIZE + 1).map(|_| "0000000000000000\n").collect::<String>();
    let rom = Rom::from_str(&data).unwrap();

    assert_eq!(&rom[..4], &[0x00, 0xFFFF, 0b0101010101010101, 0b1010101010101010])
}

#[test]
fn rom_of_exactly_rom_size_loads() {
    let data = (0..ROM_SIZE).map(|_| "1000000000000001\n").collect::<String>();
    let rom = Rom::from_str(&data).unwrap();
    assert_eq!(rom[0], 0x8001);
    assert_eq!(rom[ROM_SIZE - 1], 0x8001);
}

#[test]
fn rom_of_one_more_fails_with_the_capacity() {
    let data = (0..ROM_SIZE + 1).map(|_| "1000000000000001\n").collect::<String>();
    match Rom::from_str(&data) {
        Ok(_) => panic!("a program of ROM_SIZE + 1 instructions was loaded"),
        Err(e) => assert_eq!(e, "ROM cannot fit program: 32768 is the maximum instruction count"),
    }
}

#[test]
fn rom_passes_over_lines_that_are_no_instructions() {
    let rom = Rom::from_str(
        "000000000000000a\n\
         00000000000000011\n\
         000000000000001\n\
         \n\
         0000000000000111\r\n\
         0000000000011111 \n\
         0000000000001111   \n\t\n",
    )
    .unwrap();
    assert_eq!(rom[0], 7);
    assert_eq!(rom[1], 15);
    assert_eq!(rom[2], 0);
}

#[test]
fn rom_trims_whitespace_at_the_end_only() {
    let rom = Rom::from_str("0000000000000011  \t ").unwrap();
    assert_eq!(rom[0], 3);
    let rom = Rom::from_str(" 0000000000000011").unwrap();
    assert_eq!(rom[0], 0);
}

#[test]
fn rom_of_empty_text_is_zero() {
    let rom = Rom::from_str("").unwrap();
    assert!(rom.iter().all(|&word| word == 0));
}
