use hack_assembler::code_generator::{comp, dest, jump, generate_machine_lines, to_binary_string,
    to_binary_lines, CodeError};
use hack_assembler::parser::Parser;

fn lines_of(xs: &[&str]) -> Vec<String> {
    xs.iter().map(|s| s.to_string()).collect()
}

#[test]
fn dest_table() {
    assert_eq!(dest("M".to_string()), Some(8));
    assert_eq!(dest("D".to_string()), Some(16));
    assert_eq!(dest("MD".to_string()), Some(24));
    assert_eq!(dest("A".to_string()), Some(32));
    assert_eq!(dest("AM".to_string()), Some(40));
    assert_eq!(dest("AD".to_string()), Some(48));
    assert_eq!(dest("AMD".to_string()), Some(56));
    assert_eq!(dest("".to_string()), None);
    assert_eq!(dest("X".to_string()), None);
    // letter order does not matter: the same set gives the same bits
    assert_eq!(dest("DM".to_string()), dest("MD".to_string()));
}

#[test]
fn comp_table_a_forms() {
    assert_eq!(comp("0".to_string()), Some(0x0A80));
    assert_eq!(comp("1".to_string()), Some(0x0FC0));
    assert_eq!(comp("-1".to_string()), Some(0x0E80));
    assert_eq!(comp("D".to_string()), Some(0x0300));
    assert_eq!(comp("A".to_string()), Some(0x0C00));
    assert_eq!(comp("!D".to_string()), Some(0x0340));
    assert_eq!(comp("!A".to_string()), Some(0x0C40));
    assert_eq!(comp("-D".to_string()), Some(0x03C0));
    assert_eq!(comp("-A".to_string()), Some(0x0CC0));
    assert_eq!(comp("D+1".to_string()), Some(0x07C0));
    assert_eq!(comp("A+1".to_string()), Some(0x0DC0));
    assert_eq!(comp("D-1".to_string()), Some(0x0380));
    assert_eq!(comp("A-1".to_string()), Some(0x0C80));
    assert_eq!(comp("D+A".to_string()), Some(0x0080));
    assert_eq!(comp("D-A".to_string()), Some(0x04C0));
    assert_eq!(comp("A-D".to_string()), Some(0x01C0));
    assert_eq!(comp("D&A".to_string()), Some(0x0000));
    assert_eq!(comp("D|A".to_string()), Some(0x0540));
    assert_eq!(comp("Q".to_string()), None);
    assert_eq!(comp("".to_string()), None);
}

#[test]
fn comp_table_m_forms_set_only_the_memory_flag() {
    // every M form is its A form's code with bit 12 added
    assert_eq!(comp("M".to_string()), Some(0x1C00));
    assert_eq!(comp("!M".to_string()), Some(0x1C40));
    assert_eq!(comp("-M".to_string()), Some(0x1CC0));
    assert_eq!(comp("M+1".to_string()), Some(0x1DC0));
    assert_eq!(comp("M-1".to_string()), Some(0x1C80));
    assert_eq!(comp("D+M".to_string()), Some(0x1080));
    assert_eq!(comp("D-M".to_string()), Some(0x14C0));
    assert_eq!(comp("M-D".to_string()), Some(0x11C0));
    assert_eq!(comp("D&M".to_string()), Some(0x1000));
    assert_eq!(comp("D|M".to_string()), Some(0x1540));
}

#[test]
fn comp_table_alias_spellings() {
    // the commutative spellings share their canonical partner's code
    assert_eq!(comp("A+D".to_string()), comp("D+A".to_string()));
    assert_eq!(comp("M+D".to_string()), comp("D+M".to_string()));
    assert_eq!(comp("A&D".to_string()), comp("D&A".to_string()));
    assert_eq!(comp("M&D".to_string()), comp("D&M".to_string()));
    assert_eq!(comp("A|D".to_string()), comp("D|A".to_string()));
    assert_eq!(comp("M|D".to_string()), comp("D|M".to_string()));
}

#[test]
fn comp_codes_are_distinct() {
    let canonical = [
        "0", "1", "-1", "D", "A", "M", "!D", "!A", "!M", "-D", "-A", "-M", "D+1", "A+1",
        "M+1", "D-1", "A-1", "M-1", "D+A", "D+M", "D-A", "D-M", "A-D", "M-D", "D&A",
        "D&M", "D|A", "D|M",
    ];
    for (i, a) in canonical.iter().enumerate() {
        for b in canonical.iter().skip(i + 1) {
            assert_ne!(comp(a.to_string()), comp(b.to_string()));
        }
    }
}

#[test]
fn jump_table() {
    assert_eq!(jump("JGT".to_string()), Some(1));
    assert_eq!(jump("JEQ".to_string()), Some(2));
    assert_eq!(jump("JGE".to_string()), Some(3));
    assert_eq!(jump("JLT".to_string()), Some(4));
    assert_eq!(jump("JNE".to_string()), Some(5));
    assert_eq!(jump("JLE".to_string()), Some(6));
    assert_eq!(jump("JMP".to_string()), Some(7));
    assert_eq!(jump("JXX".to_string()), None);
    assert_eq!(jump("".to_string()), None);
}

#[test]
fn generate_words_directly() {
    let lines = lines_of(&["@2", "D=A", "0;JMP"]);
    let mut p = Parser::new(&lines).ok().unwrap();
    let words = generate_machine_lines(&mut p).unwrap();
    assert_eq!(words, vec![0x0002, 0xEC10, 0xEA87]);
}

#[test]
fn generate_skips_leftover_labels() {
    let lines = lines_of(&["(HERE)", "@1"]);
    let mut p = Parser::new(&lines).ok().unwrap();
    let words = generate_machine_lines(&mut p).unwrap();
    assert_eq!(words, vec![0x0001]);
}

#[test]
fn generate_reports_unparsable_operand() {
    let lines = lines_of(&["@1", "@notanumber"]);
    let mut p = Parser::new(&lines).ok().unwrap();
    assert_eq!(
        generate_machine_lines(&mut p),
        Err(CodeError::BadAddress {
            line: 1,
            token: "notanumber".to_string(),
        })
    );
}

#[test]
fn encode_address_words_keep_top_bit_clear() {
    for n in [0u16, 1, 2, 15, 16, 255, 16384, 32767] {
        let lines = vec![format!("@{}", n)];
        let mut p = Parser::new(&lines).ok().unwrap();
        let words = generate_machine_lines(&mut p).unwrap();
        assert_eq!(words, vec![n]);
        assert_eq!(words[0] & 0x8000, 0);
    }
}

#[test]
fn binary_rendering() {
    assert_eq!(to_binary_string(0x0000), "0000000000000000");
    assert_eq!(to_binary_string(0xFFFF), "1111111111111111");
    assert_eq!(to_binary_string(0xEC10), "1110110000010000");
    assert_eq!(to_binary_string(0x0002), "0000000000000010");
    let all = to_binary_lines(&vec![0x0002, 0xEC10]);
    assert_eq!(all, vec!["0000000000000010".to_string(), "1110110000010000".to_string()]);
}
