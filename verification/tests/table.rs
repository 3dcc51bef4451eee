use hack_assembler::parser::Parser;
use hack_assembler::symbol_table::SymbolTable;

fn lines_of(xs: &[&str]) -> Vec<String> {
    xs.iter().map(|s| s.to_string()).collect()
}

#[test]
fn predefined_symbols() {
    let table = SymbolTable::new(0);
    assert_eq!(table.get_address("SP"), Some(0));
    assert_eq!(table.get_address("LCL"), Some(1));
    assert_eq!(table.get_address("ARG"), Some(2));
    assert_eq!(table.get_address("THIS"), Some(3));
    assert_eq!(table.get_address("THAT"), Some(4));
    assert_eq!(table.get_address("R0"), Some(0));
    assert_eq!(table.get_address("R5"), Some(5));
    assert_eq!(table.get_address("R15"), Some(15));
    assert_eq!(table.get_address("SCREEN"), Some(0x4000));
    assert_eq!(table.get_address("KBD"), Some(0x6000));
    assert_eq!(table.get_address("nowhere"), None);
}

#[test]
fn binding_is_first_writer_wins() {
    let mut table = SymbolTable::new(0);
    table.add_entry("X", 5);
    assert_eq!(table.get_address("X"), Some(5));
    // re-binding to the same address is a no-op
    table.add_entry("X", 5);
    assert_eq!(table.get_address("X"), Some(5));
    // re-binding to a different address never changes the stored one
    table.add_entry("X", 9);
    assert_eq!(table.get_address("X"), Some(5));
    // a predefined name is just as immovable
    table.add_entry("SP", 123);
    assert_eq!(table.get_address("SP"), Some(0));
}

#[test]
fn variables_get_increasing_addresses_without_gaps() {
    let lines = lines_of(&["@alpha", "@beta", "@alpha", "@gamma", "M=1", "@beta"]);
    let mut p = Parser::new(&lines).ok().unwrap();
    let mut table = SymbolTable::new(0);
    table.pass_1(&mut p);
    assert_eq!(table.get_address("alpha"), Some(16));
    assert_eq!(table.get_address("beta"), Some(17));
    assert_eq!(table.get_address("gamma"), Some(18));
}

#[test]
fn label_address_counts_preceding_instructions() {
    let lines = lines_of(&["@1", "M=1", "(TWO)", "@2", "(THREE)", "D=A", "(FOUR)"]);
    let mut p = Parser::new(&lines).ok().unwrap();
    let mut table = SymbolTable::new(0);
    table.pass_1(&mut p);
    assert_eq!(table.get_address("TWO"), Some(2));
    assert_eq!(table.get_address("THREE"), Some(3));
    assert_eq!(table.get_address("FOUR"), Some(4));
}

#[test]
fn duplicate_label_keeps_first_binding() {
    let lines = lines_of(&["(HERE)", "@1", "(HERE)", "@2"]);
    let mut p = Parser::new(&lines).ok().unwrap();
    let mut table = SymbolTable::new(0);
    table.pass_1(&mut p);
    assert_eq!(table.get_address("HERE"), Some(0));
}

#[test]
fn rewrite_is_anchored_to_the_operand() {
    // one symbol's name is a prefix of another's: each line is rewritten
    // by its own operand, so neither corrupts the other
    let lines = lines_of(&["@x", "@xy", "M=1"]);
    let mut p = Parser::new(&lines).ok().unwrap();
    let mut table = SymbolTable::new(0);
    table.pass_1(&mut p);
    let rewritten = table.pass_2(&lines);
    assert_eq!(rewritten, lines_of(&["@16", "@17", "M=1"]));
}

#[test]
fn rewrite_leaves_numerals_and_compute_lines_alone() {
    let lines = lines_of(&["@42", "D=D+A", "(SKIP)", "@SKIP"]);
    let mut p = Parser::new(&lines).ok().unwrap();
    let mut table = SymbolTable::new(0);
    table.pass_1(&mut p);
    let rewritten = table.pass_2(&lines);
    assert_eq!(rewritten, lines_of(&["@42", "D=D+A", "@2"]));
}

#[test]
fn numeric_operand_never_touches_the_table() {
    let lines = lines_of(&["@42", "@7"]);
    let mut p = Parser::new(&lines).ok().unwrap();
    let mut table = SymbolTable::new(0);
    table.pass_1(&mut p);
    assert_eq!(table.get_address("42"), None);
    assert_eq!(table.get_address("7"), None);
}
