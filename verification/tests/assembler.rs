use hack_assembler::assemble;
use hack_assembler::AssembleError;
use hack_assembler::code_generator::CodeError;

fn lines_of(xs: &[&str]) -> Vec<String> {
    xs.iter().map(|s| s.to_string()).collect()
}

#[test]
fn scenario_pure_numeric_program() {
    let lines = lines_of(&["@2", "D=A", "@3", "D=D+A", "@0", "M=D"]);
    let words = assemble(&lines).unwrap();
    assert_eq!(words.len(), 6);
    assert_eq!(words[0], 0x0002);
    assert_eq!(words[1], 0xEC10); // D=A
    assert_eq!(words[2], 0x0003);
    assert_eq!(words[3], 0xE090); // D=D+A
    assert_eq!(words[4], 0x0000);
    assert_eq!(words[5], 0xE308); // M=D
    // no jump bits on the compute words
    assert_eq!(words[1] & 0x7, 0);
    assert_eq!(words[3] & 0x7, 0);
    assert_eq!(words[5] & 0x7, 0);
}

#[test]
fn scenario_label_and_variable() {
    let lines = lines_of(&["(LOOP)", "@i", "M=M-1", "@LOOP", "0;JMP"]);

    // the two passes, run separately, show the bindings and the rewrite
    let mut p = hack_assembler::parser::Parser::new(&lines).ok().unwrap();
    let mut table = hack_assembler::symbol_table::SymbolTable::new(0);
    table.pass_1(&mut p);
    assert_eq!(table.get_address("LOOP"), Some(0));
    assert_eq!(table.get_address("i"), Some(16));
    let rewritten = table.pass_2(&lines);
    assert_eq!(rewritten, lines_of(&["@16", "M=M-1", "@0", "0;JMP"]));

    // and the whole pipeline emits the four words
    let words = assemble(&lines).unwrap();
    assert_eq!(words.len(), 4);
    assert_eq!(words[0], 16);
    assert_eq!(words[1], 0xFC88); // M=M-1
    assert_eq!(words[2], 0);
    assert_eq!(words[3], 0xEA87); // 0;JMP
}

#[test]
fn scenario_variable_before_label() {
    // a variable referenced before any label definition still gets 16
    let lines = lines_of(&["@counter", "M=1", "(END)", "@END", "0;JMP"]);
    let mut p = hack_assembler::parser::Parser::new(&lines).ok().unwrap();
    let mut table = hack_assembler::symbol_table::SymbolTable::new(0);
    table.pass_1(&mut p);
    assert_eq!(table.get_address("counter"), Some(16));
    assert_eq!(table.get_address("END"), Some(2));
}

#[test]
fn pipeline_idempotent() {
    let lines = lines_of(&["(LOOP)", "@i", "M=M-1", "@LOOP", "0;JMP", "@x", "D=M"]);
    let first = assemble(&lines).unwrap();
    let second = assemble(&lines).unwrap();
    assert_eq!(first, second);
}

#[test]
fn empty_input_is_refused() {
    let lines: Vec<String> = Vec::new();
    assert_eq!(assemble(&lines), Err(AssembleError::EmptyInput));
}

#[test]
fn all_labels_leave_nothing_to_encode() {
    let lines = lines_of(&["(A1)", "(B2)"]);
    assert_eq!(assemble(&lines), Err(AssembleError::EmptyInput));
}

#[test]
fn oversized_address_operand_is_an_error() {
    let lines = lines_of(&["@2", "@40000"]);
    assert_eq!(
        assemble(&lines),
        Err(AssembleError::Code(CodeError::BadAddress {
            line: 1,
            token: "40000".to_string(),
        }))
    );
}

#[test]
fn top_address_operand_still_encodes() {
    let lines = lines_of(&["@32767"]);
    assert_eq!(assemble(&lines).unwrap(), vec![0x7FFF]);
}

#[test]
fn unknown_dest_is_an_error() {
    let lines = lines_of(&["X=1"]);
    assert_eq!(
        assemble(&lines),
        Err(AssembleError::Code(CodeError::BadDest {
            line: 0,
            token: "X".to_string(),
        }))
    );
}

#[test]
fn unknown_comp_is_an_error() {
    let lines = lines_of(&["D=Q"]);
    assert_eq!(
        assemble(&lines),
        Err(AssembleError::Code(CodeError::BadComp {
            line: 0,
            token: "Q".to_string(),
        }))
    );
}

#[test]
fn unknown_jump_is_an_error() {
    let lines = lines_of(&["0;JXX"]);
    assert_eq!(
        assemble(&lines),
        Err(AssembleError::Code(CodeError::BadJump {
            line: 0,
            token: "JXX".to_string(),
        }))
    );
}

#[test]
fn huge_numeral_operand_becomes_a_variable() {
    // an operand that does not parse as a 16-bit numeral is a symbol
    let lines = lines_of(&["@99999"]);
    assert_eq!(assemble(&lines).unwrap(), vec![16]);
}
