use asm16::instr::AInstruction;
use asm16::instr::AsmError;
use asm16::instr::Instruction;
use asm16::pipeline::assemble;
use asm16::pipeline::format_word;
use asm16::pipeline::pass1;
use asm16::pipeline::pass2;
use asm16::symbols::Symbols;

fn lines(src: &[&str]) -> Vec<String> {
    src.iter().map(|s| s.to_string()).collect()
}

fn assemble_to_strings(src: &[&str]) -> Vec<String> {
    assemble(&lines(src))
        .unwrap()
        .into_iter()
        .map(format_word)
        .collect()
}

#[test]
fn add_program_encodes_exactly() {
    let words = assemble_to_strings(&["@2", "D=A", "@3", "D=D+A", "@0", "M=D"]);
    assert_eq!(
        words,
        vec![
            "0000000000000010",
            "1110110000010000",
            "0000000000000011",
            "1110000010010000",
            "0000000000000000",
            "1110001100001000",
        ]
    );
}

#[test]
fn loop_label_resolves_to_zero() {
    let words = assemble_to_strings(&["(LOOP)", "@LOOP", "0;JMP"]);
    assert_eq!(words, vec!["0000000000000000", "1110101010000111"]);
}

#[test]
fn unseen_variable_takes_one_slot() {
    let out = assemble(&lines(&["@foo", "@foo", "@bar"])).unwrap();
    assert_eq!(out, vec![16, 16, 17]);
}

#[test]
fn malformed_line_aborts_with_no_output() {
    let r = assemble(&lines(&["@1", "X=Y", "@2"]));
    assert!(r.is_err());
    assert_eq!(r, Err(AsmError::UnknownDest));
}

#[test]
fn unrecognized_computation_aborts() {
    assert_eq!(assemble(&lines(&["D=W+1"])), Err(AsmError::UnknownComp));
}

#[test]
fn unrecognized_jump_aborts() {
    assert_eq!(assemble(&lines(&["0;JUMP"])), Err(AsmError::UnknownJump));
    assert_eq!(assemble(&lines(&["D+1;"])), Err(AsmError::UnknownJump));
}

#[test]
fn label_address_counts_instruction_lines_only() {
    let words = assemble(&lines(&[
        "@2", "(A1)", "(B1)", "@3", "(C1)", "@A1", "@B1", "@C1",
    ]))
    .unwrap();
    // A1 and B1 both precede instruction 1; C1 precedes instruction 2.
    assert_eq!(words, vec![2, 3, 1, 1, 2]);
}

#[test]
fn forward_reference_resolves() {
    let words = assemble(&lines(&["@END", "0;JMP", "(END)", "@END"])).unwrap();
    assert_eq!(words[0], 2);
    assert_eq!(words[2], 2);
}

#[test]
fn label_declaration_overwrites_predefined_name() {
    // A label declaration silently overwrites any existing binding of the
    // same name, a predefined one included; this documents the ambiguity
    // rather than endorsing it.
    let words = assemble(&lines(&["@x", "(SCREEN)", "@SCREEN"])).unwrap();
    assert_eq!(words, vec![16, 1]);
}

#[test]
fn numeric_operands_are_literal_addresses() {
    let words = assemble(&lines(&["@0", "@1", "@32767", "@+5", "@007"])).unwrap();
    assert_eq!(words, vec![0, 1, 32767, 5, 7]);
}

#[test]
fn oversized_numeral_is_a_symbol() {
    // 65536 does not fit 16 bits, so the operand is a variable name.
    let words = assemble(&lines(&["@65536"])).unwrap();
    assert_eq!(words, vec![16]);
}

#[test]
fn bare_at_sign_is_malformed() {
    assert!(assemble(&lines(&["@"])).is_err());
}

#[test]
fn empty_destination_before_equals_is_accepted() {
    let words = assemble(&lines(&["=D"])).unwrap();
    assert_eq!(words, vec![0b1110_0011_0000_0000]);
}

#[test]
fn predefined_symbols_resolve_in_programs() {
    let words = assemble(&lines(&["@SP", "@R13", "@SCREEN", "@KBD"])).unwrap();
    assert_eq!(words, vec![0, 13, 16384, 24576]);
}

#[test]
fn passes_compose_like_assemble() {
    let src = lines(&["(START)", "@START", "D=M;JEQ"]);
    let mut symbols = Symbols::new();
    let stripped = pass1(&src, &mut symbols);
    assert_eq!(stripped, lines(&["@START", "D=M;JEQ"]));
    assert_eq!(symbols.lookup_or_allocate("START"), 0);
    assert_eq!(symbols.next_addr, 16);
    let words = pass2(&stripped, &mut symbols).unwrap();
    assert_eq!(words, vec![0, 0b1111_1100_0001_0010]);
}

#[test]
fn address_instruction_resolves_at_construction() {
    let mut symbols = Symbols::new();
    let literal = AInstruction::new("42", &mut symbols);
    assert_eq!(literal.to_u16(), 42);
    assert_eq!(symbols.next_addr, 16);
    let var = AInstruction::new("count", &mut symbols);
    assert_eq!(var.to_u16(), 16);
    assert_eq!(symbols.next_addr, 17);
}
