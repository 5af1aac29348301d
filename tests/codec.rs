use chip8::mnemonic::hex_chars;
use chip8::text::{is_space_char, parse_hex_at, tokenize};
use chip8::{assemble, decode, disassemble, map_key_to_button, Instruction};

#[test]
fn disassemble_renders_each_pair() {
    let text = disassemble(&[0x12, 0x34, 0x60, 0xFF, 0x00, 0xE0, 0x8A, 0xB6, 0xD1, 0x2F]);
    assert_eq!(text, "JP 234\nLD V0 FF\nCLS\nSHR VA\nDRW V1 V2 F\n");
}

#[test]
fn disassemble_ignores_trailing_odd_byte() {
    assert_eq!(disassemble(&[0x00, 0xEE, 0x12]), "RET\n");
    assert_eq!(disassemble(&[0x12]), "");
    assert_eq!(disassemble(&[]), "");
}

#[test]
fn disassemble_marks_unknown_words() {
    assert_eq!(disassemble(&[0x5A, 0xB1, 0xFF, 0xFF, 0x01, 0x23]), "???\n???\n???\n");
}

#[test]
fn disassemble_register_and_timer_forms() {
    let text = disassemble(&[
        0xF3, 0x07, 0xF3, 0x0A, 0xF3, 0x15, 0xF3, 0x18, 0xF3, 0x1E, 0xF3, 0x29, 0xF3, 0x33,
        0xF3, 0x55, 0xF3, 0x65, 0xB1, 0x23, 0xA1, 0x23, 0xE4, 0x9E, 0xE4, 0xA1,
    ]);
    assert_eq!(
        text,
        "LD V3 DT\nLD V3 K\nLD DT V3\nLD ST V3\nADD I V3\nLD F V3\nLD B V3\nLD [I] V3\nLD V3 [I]\nJP V0 123\nLD I 123\nSKP V4\nSKNP V4\n"
    );
}

#[test]
fn assemble_every_mnemonic() {
    let text = "NOP\nCLS\nRET\nJP 234\nJP V0 234\nCALL 456\nSE V1 22\nSE V1 V2\nSNE V1 22\nSNE V1 V2\n\
LD V1 22\nLD V1 V2\nLD I 345\nLD V1 DT\nLD V1 K\nLD DT V1\nLD ST V1\nLD F V1\nLD B V1\nLD [I] V1\nLD V1 [I]\n\
ADD V1 22\nADD V1 V2\nADD I V1\nOR V1 V2\nAND V1 V2\nXOR V1 V2\nSUB V1 V2\nSHR V1\nSUBN V1 V2\nSHL V1\n\
RND V1 22\nDRW V1 V2 5\nSKP V1\nSKNP V1\n";
    let expected: Vec<u8> = vec![
        0x00, 0x00, 0x00, 0xE0, 0x00, 0xEE, 0x12, 0x34, 0xB2, 0x34, 0x24, 0x56, 0x31, 0x22,
        0x51, 0x20, 0x41, 0x22, 0x91, 0x20, 0x61, 0x22, 0x81, 0x20, 0xA3, 0x45, 0xF1, 0x07,
        0xF1, 0x0A, 0xF1, 0x15, 0xF1, 0x18, 0xF1, 0x29, 0xF1, 0x33, 0xF1, 0x55, 0xF1, 0x65,
        0x71, 0x22, 0x81, 0x24, 0xF1, 0x1E, 0x81, 0x21, 0x81, 0x22, 0x81, 0x23, 0x81, 0x25,
        0x81, 0x06, 0x81, 0x27, 0x81, 0x0E, 0xC1, 0x22, 0xD1, 0x25, 0xE1, 0x9E, 0xE1, 0xA1,
    ];
    assert_eq!(assemble(text), expected);
}

#[test]
fn unknown_mnemonic_adds_no_bytes() {
    assert_eq!(assemble("FOO V1 V2"), Vec::<u8>::new());
    assert_eq!(assemble("NOP\nFOO 1 2\nCLS"), vec![0x00, 0x00, 0x00, 0xE0]);
    assert_eq!(assemble("nop"), Vec::<u8>::new());
}

#[test]
fn malformed_number_becomes_sentinel() {
    assert_eq!(assemble("JP ZZ"), vec![0x10, 0x0F]);
    assert_eq!(assemble("LD V1 1FF"), vec![0x61, 0x0F]);
    assert_eq!(assemble("LD VZ 12"), vec![0x6F, 0x12]);
    assert_eq!(assemble("CALL"), vec![0x20, 0x0F]);
}

#[test]
fn numbers_accept_plus_and_lower_case() {
    assert_eq!(assemble("LD V1 +ab"), vec![0x61, 0xAB]);
    assert_eq!(assemble("LD V1 +"), vec![0x61, 0x0F]);
    assert_eq!(assemble("LD V1 00ff"), vec![0x61, 0xFF]);
    assert_eq!(assemble("LD V1 -1"), vec![0x61, 0x0F]);
}

#[test]
fn address_keeps_low_twelve_bits() {
    assert_eq!(assemble("JP FFFF"), vec![0x1F, 0xFF]);
    assert_eq!(assemble("LD I 10000"), vec![0xA0, 0x0F]);
}

#[test]
fn blank_lines_and_extra_whitespace() {
    assert_eq!(assemble(""), Vec::<u8>::new());
    assert_eq!(assemble("\n\n"), Vec::<u8>::new());
    assert_eq!(assemble("  CLS  \r\n\tRET\t\n"), vec![0x00, 0xE0, 0x00, 0xEE]);
    assert_eq!(assemble("SE V1\u{3000}V2"), vec![0x51, 0x20]);
}

#[test]
fn round_trip_every_defined_word() {
    let mut checked = 0;
    for op in 0..=0xFFFFu32 {
        let hi = (op >> 8) as u8;
        let lo = (op & 0xFF) as u8;
        if decode(op as u16) == Instruction::Unknown {
            continue;
        }
        let shift = hi >> 4 == 8 && (lo & 0xF == 6 || lo & 0xF == 0xE);
        if shift && lo >> 4 != 0 {
            continue;
        }
        let text = disassemble(&[hi, lo]);
        assert_eq!(assemble(&text), vec![hi, lo], "word {:04X}: {}", op, text);
        checked += 1;
    }
    assert!(checked > 40000);
}

#[test]
fn shift_loses_y_field() {
    let text = disassemble(&[0x8A, 0xB6]);
    assert_eq!(text, "SHR VA\n");
    assert_eq!(assemble(&text), vec![0x8A, 0x06]);
}

#[test]
fn decode_fields() {
    assert_eq!(decode(0xD12F), Instruction::Drw { x: 1, y: 2, n: 0xF });
    assert_eq!(decode(0x1ABC), Instruction::Jp { nnn: 0xABC });
    assert_eq!(decode(0x7F05), Instruction::AddByte { x: 0xF, kk: 0x05 });
    assert_eq!(decode(0x0000), Instruction::Nop);
    assert_eq!(decode(0x0001), Instruction::Unknown);
    assert_eq!(decode(0x8AB6), Instruction::Shr { x: 0xA });
}

#[test]
fn keyboard_layout() {
    assert_eq!(map_key_to_button('1'), Some(0x1));
    assert_eq!(map_key_to_button('4'), Some(0xC));
    assert_eq!(map_key_to_button('x'), Some(0x0));
    assert_eq!(map_key_to_button('v'), Some(0xF));
    assert_eq!(map_key_to_button('Q'), None);
    assert_eq!(map_key_to_button('5'), None);
}

#[test]
fn program_round_trip() {
    let program: Vec<u8> = vec![
        0x00, 0xE0, 0xA2, 0x2A, 0x60, 0x0C, 0x61, 0x08, 0xD0, 0x1F, 0x70, 0x09, 0xA2, 0x39,
        0xD0, 0x1F, 0xF3, 0x0A, 0x83, 0x44, 0x22, 0x10, 0x12, 0x28, 0x00, 0xEE,
    ];
    let text = disassemble(&program);
    assert_eq!(text.lines().count(), program.len() / 2);
    assert_eq!(assemble(&text), program);
}

#[test]
fn text_helpers() {
    let line: Vec<char> = "  LD\tV1  +2a ".chars().collect();
    let words: Vec<String> = tokenize(&line).iter().map(|w| w.iter().collect()).collect();
    assert_eq!(words, vec!["LD", "V1", "+2a"]);
    let word: Vec<char> = "V1F".chars().collect();
    assert_eq!(parse_hex_at(&word, 1, 256), Some(0x1F));
    assert_eq!(parse_hex_at(&word, 0, 256), None);
    let big: Vec<char> = "100".chars().collect();
    assert_eq!(parse_hex_at(&big, 0, 256), None);
    assert_eq!(parse_hex_at(&big, 0, 65536), Some(0x100));
    assert!(is_space_char('\u{85}'));
    assert!(is_space_char('\u{200A}'));
    assert!(!is_space_char('\u{200B}'));
    assert!(!is_space_char('V'));
}

#[test]
fn hex_rendering() {
    assert_eq!(hex_chars(0).iter().collect::<String>(), "0");
    assert_eq!(hex_chars(0xABC).iter().collect::<String>(), "ABC");
    assert_eq!(hex_chars(0xFFFF).iter().collect::<String>(), "FFFF");
}
