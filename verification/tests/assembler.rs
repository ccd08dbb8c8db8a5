//! End-to-end and component tests for the assembler library.

use asm16::assemble::{assemble, make_instructions, parse_instructions, parse_symbols};
use asm16::error::{AsmError, ErrorKind};
use asm16::instructions::CInstruction;
use asm16::symbols::SymbolTable;
use asm16::to_bits;

fn lines(src: &[&str]) -> Vec<String> {
    src.iter().map(|s| String::from(*s)).collect()
}

fn words(r: Result<Vec<String>, AsmError>) -> Vec<String> {
    r.expect("expected a successful run")
}

#[test]
fn predefined_lookups() {
    let table = SymbolTable::new();
    assert_eq!(table.lookup("R0"), Some(0));
    assert_eq!(table.lookup("R1"), Some(1));
    assert_eq!(table.lookup("R2"), Some(2));
    assert_eq!(table.lookup("R3"), Some(3));
    assert_eq!(table.lookup("R4"), Some(4));
    assert_eq!(table.lookup("R5"), Some(5));
    assert_eq!(table.lookup("R6"), Some(6));
    assert_eq!(table.lookup("R7"), Some(7));
    assert_eq!(table.lookup("R8"), Some(8));
    assert_eq!(table.lookup("R9"), Some(9));
    assert_eq!(table.lookup("R10"), Some(10));
    assert_eq!(table.lookup("R11"), Some(11));
    assert_eq!(table.lookup("R12"), Some(12));
    assert_eq!(table.lookup("R13"), Some(13));
    assert_eq!(table.lookup("R14"), Some(14));
    assert_eq!(table.lookup("R15"), Some(15));
    assert_eq!(table.lookup("SCREEN"), Some(16384));
    assert_eq!(table.lookup("KBD"), Some(24576));
    assert_eq!(table.lookup("SP"), Some(0));
    assert_eq!(table.lookup("LCL"), Some(1));
    assert_eq!(table.lookup("ARG"), Some(2));
    assert_eq!(table.lookup("THIS"), Some(3));
    assert_eq!(table.lookup("THAT"), Some(4));
    assert_eq!(table.lookup("LOOP"), None);
}

#[test]
fn six_instruction_program() {
    let out = words(assemble(&lines(&["@2", "D=A", "@3", "D=D+A", "@0", "M=D"])));
    assert_eq!(
        out,
        vec![
            "0000000000000010",
            "1110110000010000",
            "0000000000000011",
            "1110000010010000",
            "0000000000000000",
            "1110001100001000",
        ]
    );
}

#[test]
fn label_resolves_to_following_instruction() {
    let out = words(assemble(&lines(&["@2", "(LOOP)", "D=A", "@LOOP"])));
    assert_eq!(
        out,
        vec![
            "0000000000000010",
            "1110110000010000",
            "0000000000000001",
        ]
    );
}

#[test]
fn forward_label_reference() {
    let out = words(assemble(&lines(&["@END", "0;JMP", "(END)", "@END"])));
    // END is declared after two real instructions, so it resolves to 2.
    assert_eq!(
        out,
        vec![
            "0000000000000010",
            "1110101010000111",
            "0000000000000010",
        ]
    );
}

#[test]
fn duplicate_label_last_declaration_wins() {
    let out = words(assemble(&lines(&["@1", "(L)", "@2", "(L)", "@L"])));
    assert_eq!(
        out,
        vec![
            "0000000000000001",
            "0000000000000010",
            "0000000000000010",
        ]
    );
}

#[test]
fn predefined_name_is_never_overwritten() {
    let out = words(assemble(&lines(&["(R0)", "@R0", "@SCREEN", "@KBD"])));
    assert_eq!(
        out,
        vec![
            "0000000000000000",
            "0100000000000000",
            "0110000000000000",
        ]
    );
}

#[test]
fn variables_allocate_from_sixteen_in_first_use_order() {
    let out = words(assemble(&lines(&["@i", "@j", "@i", "@counter.x$_9"])));
    assert_eq!(
        out,
        vec![
            "0000000000010000", // i -> 16
            "0000000000010001", // j -> 17
            "0000000000010000", // i again -> 16
            "0000000000010010", // a third fresh name -> 18
        ]
    );
}

#[test]
fn comments_and_whitespace_are_ignored() {
    let out = words(assemble(&lines(&[
        "  @5 // load five",
        "\tD=A//copy",
        "   (HERE)  ",
        "@HERE // back",
    ])));
    assert_eq!(
        out,
        vec![
            "0000000000000101",
            "1110110000010000",
            "0000000000000010",
        ]
    );
}

#[test]
fn empty_program_yields_no_output() {
    let out = words(assemble(&Vec::new()));
    assert!(out.is_empty());
}

#[test]
fn unknown_operation_mnemonic_is_fatal() {
    let err = assemble(&lines(&["D=A", "D=Q"])).unwrap_err();
    assert_eq!(err.line, 1);
    match err.kind {
        ErrorKind::InvalidMnemonic(t) => assert_eq!(t, "Q"),
        _ => panic!("expected an invalid-mnemonic error"),
    }
}

#[test]
fn unknown_destination_mnemonic_is_fatal() {
    let err = assemble(&lines(&["X=Q"])).unwrap_err();
    assert_eq!(err.line, 0);
    match err.kind {
        ErrorKind::InvalidMnemonic(t) => assert_eq!(t, "X"),
        _ => panic!("expected an invalid-mnemonic error"),
    }
}

#[test]
fn unknown_jump_mnemonic_is_fatal() {
    let err = assemble(&lines(&["0;JXX"])).unwrap_err();
    assert_eq!(err.line, 0);
    match err.kind {
        ErrorKind::InvalidMnemonic(t) => assert_eq!(t, "JXX"),
        _ => panic!("expected an invalid-mnemonic error"),
    }
}

#[test]
fn numeric_address_out_of_range_is_fatal() {
    let err = assemble(&lines(&["@32768"])).unwrap_err();
    assert_eq!(err.line, 0);
    assert!(matches!(err.kind, ErrorKind::AddressOutOfRange));
    let err = assemble(&lines(&["@123456789123456789"])).unwrap_err();
    assert!(matches!(err.kind, ErrorKind::AddressOutOfRange));
}

#[test]
fn largest_address_encodes() {
    let out = words(assemble(&lines(&["@32767", "@0"])));
    assert_eq!(out, vec!["0111111111111111", "0000000000000000"]);
}

#[test]
fn malformed_line_is_a_syntax_error() {
    let err = assemble(&lines(&["()"])).unwrap_err();
    assert_eq!(err.line, 0);
    assert!(matches!(err.kind, ErrorKind::Syntax));
    let err = assemble(&lines(&["@2", "hello world!"])).unwrap_err();
    assert_eq!(err.line, 1);
    assert!(matches!(err.kind, ErrorKind::Syntax));
    let err = assemble(&lines(&["@5x"])).unwrap_err();
    assert!(matches!(err.kind, ErrorKind::Syntax));
}

#[test]
fn compute_field_layout_is_table_exact() {
    let cases: Vec<(&str, &str, &str, &str)> = vec![
        ("", "0", "JMP", "1110101010000111"),
        ("AMD", "D|M", "JMP", "1111010101111111"),
        ("M", "1", "", "1110111111001000"),
        ("D", "D+1", "", "1110011111010000"),
        ("MD", "M-1", "", "1111110010011000"),
        ("A", "A-D", "JLT", "1110000111100100"),
        ("AM", "D&A", "JNE", "1110000000101101"),
        ("AD", "!M", "JEQ", "1111110001110010"),
        ("", "-1", "JGE", "1110111010000011"),
        ("", "D-A", "JGT", "1110010011000001"),
        ("", "D|A", "JLE", "1110010101000110"),
    ];
    for (dest, comp, jump, expected) in cases {
        let c = CInstruction::new(String::from(dest), String::from(comp), String::from(jump));
        assert_eq!(c.parse().unwrap(), expected);
    }
}

#[test]
fn every_operation_mnemonic_encodes() {
    let cases: Vec<(&str, &str)> = vec![
        ("0", "0101010"),
        ("1", "0111111"),
        ("-1", "0111010"),
        ("D", "0001100"),
        ("A", "0110000"),
        ("!D", "0001101"),
        ("!A", "0110001"),
        ("-D", "0001111"),
        ("-A", "0110011"),
        ("D+1", "0011111"),
        ("A+1", "0110111"),
        ("D-1", "0001110"),
        ("A-1", "0110010"),
        ("D+A", "0000010"),
        ("D-A", "0010011"),
        ("A-D", "0000111"),
        ("D&A", "0000000"),
        ("D|A", "0010101"),
        ("M", "1110000"),
        ("!M", "1110001"),
        ("-M", "1110011"),
        ("M+1", "1110111"),
        ("M-1", "1110010"),
        ("D+M", "1000010"),
        ("D-M", "1010011"),
        ("M-D", "1000111"),
        ("D&M", "1000000"),
        ("D|M", "1010101"),
    ];
    for (comp, field) in cases {
        let c = CInstruction::new(String::new(), String::from(comp), String::new());
        let expected = format!("111{}000000", field);
        assert_eq!(c.parse().unwrap(), expected);
    }
}

#[test]
fn to_bits_round_trip_samples() {
    assert_eq!(to_bits(0, 16), "0000000000000000");
    assert_eq!(to_bits(2, 16), "0000000000000010");
    assert_eq!(to_bits(21845, 16), "0101010101010101");
    assert_eq!(to_bits(32767, 16), "0111111111111111");
    for k in [0u32, 1, 2, 7, 100, 16384, 32767] {
        let s = to_bits(k, 16);
        assert_eq!(s.len(), 16);
        assert_eq!(s.as_bytes()[0], b'0');
        let decoded = u32::from_str_radix(&s[1..], 2).unwrap();
        assert_eq!(decoded, k);
    }
}

#[test]
fn make_instructions_classifies_each_shape() {
    let mut table = SymbolTable::new();
    let (a, c) = make_instructions("@5", &mut table).unwrap();
    assert_eq!(a.unwrap().parse(), "0000000000000101");
    assert!(c.is_none());
    let (a, c) = make_instructions("D=M;JGT", &mut table).unwrap();
    assert!(a.is_none());
    assert_eq!(c.unwrap().parse().unwrap(), "1111110000010001");
    let (a, c) = make_instructions("(SOMEWHERE)", &mut table).unwrap();
    assert!(a.is_none() && c.is_none());
    let (a, c) = make_instructions("@fresh", &mut table).unwrap();
    assert_eq!(a.unwrap().parse(), "0000000000010000");
    assert!(c.is_none());
    assert!(matches!(
        make_instructions("???", &mut table),
        Err(ErrorKind::Syntax)
    ));
}

#[test]
fn two_passes_compose() {
    let src = lines(&["(START)", "@START", "0;JMP"]);
    let mut table = SymbolTable::new();
    parse_symbols(&src, &mut table).unwrap();
    assert_eq!(table.lookup("START"), Some(0));
    let out = parse_instructions(&src, &mut table).unwrap();
    assert_eq!(out, vec!["0000000000000000", "1110101010000111"]);
}

#[test]
fn label_pass_counts_only_real_instructions() {
    let src = lines(&["@1", "D=A", "(A$_.X)", "@2", "(B)", "(C)", "M=D"]);
    let mut table = SymbolTable::new();
    parse_symbols(&src, &mut table).unwrap();
    assert_eq!(table.lookup("A$_.X"), Some(2));
    assert_eq!(table.lookup("B"), Some(3));
    assert_eq!(table.lookup("C"), Some(3));
}
