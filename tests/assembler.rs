use rv_assembler::assembler::Assembler;
use rv_assembler::error::AsmError;
use rv_assembler::text::normalize;

/// Encodings of the few instructions these tests use, as an RV32I encoder
/// gives them.
fn table_encoder(text: &str) -> Option<String> {
    let word: u32 = match text {
        "add x1,x2,x3" => 0x003100B3,
        "sub x1,x2,x3" => 0x403100B3,
        "addi x1,x2,3" => 0x00310093,
        "bne x1,x2,0" => 0x00209063,
        "bne x1,x2,8" => 0x00209463,
        "bne x1, x2, 0" => 0x00209063,
        _ => return None,
    };
    Some(format!("{:032b}", word))
}

/// Drives an assembly to its end, answering each request with `encode`,
/// and records the requests.
fn run(source: &str, encode: fn(&str) -> Option<String>) -> (Result<Vec<u8>, AsmError>, Vec<String>) {
    let mut asked = Vec::new();
    let mut machine = match Assembler::start(source) {
        Ok(a) => a,
        Err(e) => return (Err(e), asked),
    };
    loop {
        match machine.pending() {
            Err(e) => return (Err(e), asked),
            Ok(None) => break,
            Ok(Some(text)) => {
                let answer = encode(&text);
                asked.push(text);
                if let Err(e) = machine.supply(answer.as_deref()) {
                    return (Err(e), asked);
                }
            }
        }
    }
    assert!(machine.is_finished());
    (Ok(machine.into_program().unwrap()), asked)
}

fn le(word: u32) -> Vec<u8> {
    word.to_le_bytes().to_vec()
}

#[test]
fn it_works() {
    let (result, asked) = run("add x1,x2,x3\nsub x1,x2,x3\naddi x1,x2,3", table_encoder);
    assert_eq!(asked, vec!["add x1,x2,x3", "sub x1,x2,x3", "addi x1,x2,3"]);
    let mut expected = le(0x003100B3);
    expected.extend(le(0x403100B3));
    expected.extend(le(0x00310093));
    assert_eq!(result, Ok(expected));
}

#[test]
fn test_add() {
    let (result, _) = run("add x1,x2,x3\nsub x1,x2,x3\naddi x1,x2,3", table_encoder);
    let bytes = result.unwrap();
    assert_eq!(bytes.len(), 12);
    assert_eq!(&bytes[0..4], &[0xB3, 0x00, 0x31, 0x00]);
}

#[test]
fn single_instruction_gives_four_bytes() {
    let (result, _) = run("add x1,x2,x3", table_encoder);
    assert_eq!(result, Ok(vec![0xB3, 0x00, 0x31, 0x00]));
    let (result, _) = run("   addi x1,x2,3   \r\n", table_encoder);
    assert_eq!(result, Ok(le(0x00310093)));
}

#[test]
fn blank_source_gives_empty_program() {
    let (result, asked) = run("", table_encoder);
    assert_eq!(result, Ok(vec![]));
    assert!(asked.is_empty());
    let (result, asked) = run("\n   \n\t\r\n  \u{3000}\n", table_encoder);
    assert_eq!(result, Ok(vec![]));
    assert!(asked.is_empty());
}

#[test]
fn label_resolves_to_compacted_offset() {
    let (result, asked) = run("L1:\nadd x1,x2,x3\nbne x1,x2,L1", table_encoder);
    assert_eq!(asked, vec!["add x1,x2,x3", "bne x1,x2,0"]);
    let mut expected = le(0x003100B3);
    expected.extend(le(0x00209063));
    assert_eq!(result, Ok(expected));
}

#[test]
fn forward_label_resolves() {
    let (result, asked) = run("bne x1,x2,END\nadd x1,x2,x3\nEND:", table_encoder);
    assert_eq!(asked, vec!["bne x1,x2,8", "add x1,x2,x3"]);
    assert_eq!(result.unwrap().len(), 8);
}

#[test]
fn label_operand_after_space() {
    let (_, asked) = run("TOP:\nbne x1, x2, TOP", table_encoder);
    assert_eq!(asked, vec!["bne x1, x2, 0"]);
}

#[test]
fn offsets_are_written_in_decimal() {
    let mut source = String::new();
    for _ in 0..10 {
        source.push_str("add x1,x2,x3\n");
    }
    source.push_str("FAR:\nbne x1,x2,FAR");
    let machine = Assembler::start(&source).unwrap();
    let mut machine = machine;
    for _ in 0..10 {
        machine.supply(Some(&format!("{:032b}", 0x003100B3u32))).unwrap();
    }
    assert_eq!(machine.pending(), Ok(Some(String::from("bne x1,x2,40"))));
}

#[test]
fn undefined_label_fails_at_its_instruction() {
    let (result, asked) = run("bne x1,x2,NOPE", table_encoder);
    assert_eq!(result, Err(AsmError::UndefinedLabel { line: 1 }));
    assert_eq!(result.unwrap_err().failing_line(), 1);
    assert!(asked.is_empty());
}

#[test]
fn undefined_label_is_refused_by_supply_too() {
    let mut machine = Assembler::start("bne x1,x2,NOPE").unwrap();
    let word = format!("{:032b}", 0x00209063u32);
    assert_eq!(machine.supply(Some(&word)), Err(AsmError::UndefinedLabel { line: 1 }));
    assert!(!machine.is_finished());
    assert_eq!(machine.into_program(), None);
}

#[test]
fn duplicate_label_fails() {
    let (result, asked) = run("L1:\nL1:\nadd x1,x2,x3", table_encoder);
    assert_eq!(result, Err(AsmError::DuplicateLabel { line: 2 }));
    assert_eq!(result.unwrap_err().failing_line(), 2);
    assert!(asked.is_empty());
}

#[test]
fn malformed_labels_fail() {
    assert_eq!(
        Assembler::start("add x1,x2,x3\n:").err(),
        Some(AsmError::MalformedLabel { line: 2 })
    );
    assert_eq!(
        Assembler::start("add x1, L1:").err(),
        Some(AsmError::MalformedLabel { line: 1 })
    );
    assert_eq!(
        Assembler::start("\n\nL1: add x1,x2,x3").err(),
        Some(AsmError::MalformedLabel { line: 3 })
    );
}

#[test]
fn failure_discards_earlier_words() {
    let (result, asked) = run("add x1,x2,x3\nBADMNEMONIC x,y,z\naddi x1,x2,3", table_encoder);
    assert_eq!(result, Err(AsmError::Encoding { line: 2 }));
    assert_eq!(result.unwrap_err().failing_line(), 2);
    assert_eq!(asked, vec!["add x1,x2,x3", "BADMNEMONIC x,y,z"]);
}

#[test]
fn failing_line_counts_instructions_not_labels() {
    let (result, _) = run("A:\nadd x1,x2,x3\n\nB:\nBAD", table_encoder);
    assert_eq!(result, Err(AsmError::Encoding { line: 2 }));
}

#[test]
fn unfinished_assembly_has_no_program() {
    let mut machine = Assembler::start("add x1,x2,x3\nBAD").unwrap();
    machine.supply(Some(&format!("{:032b}", 0x003100B3u32))).unwrap();
    assert_eq!(machine.supply(None), Err(AsmError::Encoding { line: 2 }));
    assert_eq!(machine.into_program(), None);
}

#[test]
fn answer_that_is_not_a_word_fails() {
    let mut machine = Assembler::start("add x1,x2,x3").unwrap();
    assert_eq!(machine.supply(Some("0101")), Err(AsmError::Encoding { line: 1 }));
    let too_long = "0".repeat(33);
    assert_eq!(machine.supply(Some(&too_long)), Err(AsmError::Encoding { line: 1 }));
    let bad_digit = format!("{}2", "0".repeat(31));
    assert_eq!(machine.supply(Some(&bad_digit)), Err(AsmError::Encoding { line: 1 }));
    assert_eq!(machine.supply(Some(&"1".repeat(32))), Ok(()));
    assert_eq!(machine.into_program(), Some(vec![0xFF, 0xFF, 0xFF, 0xFF]));
}

#[test]
fn word_bytes_are_little_endian() {
    let mut machine = Assembler::start("x").unwrap();
    machine.supply(Some("00010010001101000101011001111000")).unwrap();
    assert_eq!(machine.into_program(), Some(vec![0x78, 0x56, 0x34, 0x12]));
}

#[test]
fn supply_after_finish_changes_nothing() {
    let mut machine = Assembler::start("add x1,x2,x3").unwrap();
    machine.supply(Some(&format!("{:032b}", 0x003100B3u32))).unwrap();
    assert_eq!(machine.pending(), Ok(None));
    assert_eq!(machine.supply(None), Ok(()));
    assert_eq!(machine.into_program(), Some(le(0x003100B3)));
}

#[test]
fn assembling_twice_gives_identical_bytes() {
    let source = "L1:\nadd x1,x2,x3\nsub x1,x2,x3\nbne x1,x2,L1";
    let (first, _) = run(source, table_encoder);
    let (second, _) = run(source, table_encoder);
    assert!(first.is_ok());
    assert_eq!(first, second);
}

#[test]
fn program_length_is_whole_words() {
    for source in ["add x1,x2,x3", "L:\nadd x1,x2,x3\nsub x1,x2,x3\nbne x1,x2,L", "", "addi x1,x2,3\n\n"] {
        let (result, asked) = run(source, table_encoder);
        let bytes = result.unwrap();
        assert_eq!(bytes.len() % 4, 0);
        assert_eq!(bytes.len(), 4 * asked.len());
    }
}

#[test]
fn normalize_trims_and_numbers_lines() {
    let lines = normalize("  add x1,x2,x3 \r\n\n\t sub x1,x2,x3\r\n   ");
    assert_eq!(lines.len(), 2);
    assert_eq!(lines[0].line_number, 1);
    assert_eq!(lines[0].text_string(), "add x1,x2,x3");
    assert_eq!(lines[1].line_number, 3);
    assert_eq!(lines[1].text_string(), "sub x1,x2,x3");
}

#[test]
fn normalize_keeps_lone_carriage_return_inside_line() {
    let lines = normalize("a\rb\n");
    assert_eq!(lines.len(), 1);
    assert_eq!(lines[0].text, vec!['a', '\r', 'b']);
}

#[test]
fn failing_line_of_each_error() {
    assert_eq!(AsmError::DuplicateLabel { line: 7 }.failing_line(), 7);
    assert_eq!(AsmError::MalformedLabel { line: 5 }.failing_line(), 5);
    assert_eq!(AsmError::UndefinedLabel { line: 3 }.failing_line(), 3);
    assert_eq!(AsmError::Encoding { line: 9 }.failing_line(), 9);
}
