use hack_assembler::parser::{CommandType, Parser};

#[test]
fn parser_constructor_test() {
    let lines = Vec::new();
    assert!(Parser::new(&lines).is_err());
    let lines = vec![
        "@i".to_string(),
        "M=1".to_string(),
        "@sum".to_string(),
        "M=0".to_string(),
        "(LOOP)".to_string(),
    ];
    let p = Parser::new(&lines);
    assert!(p.is_ok());
}

#[test]
fn has_more_commands_test() {
    let lines = vec!["@i".to_string()];
    if let Ok(p) = Parser::new(&lines) {
        assert!(!p.has_more_commands());
    } else {
        assert!(false);
    }

    let lines = vec!["@i".to_string(), "@i".to_string()];
    if let Ok(p) = Parser::new(&lines) {
        assert!(p.has_more_commands());
    } else {
        assert!(false);
    }
}

#[test]
fn command_type_test() {
    let lines = vec!["@i".to_string()];
    let p = Parser::new(&lines).ok().unwrap();
    assert!(p.command_type().is_some());
    assert_eq!(p.command_type().unwrap(), CommandType::A);

    let lines = vec!["@INFINITE_LOOP".to_string()];
    let p = Parser::new(&lines).ok().unwrap();
    assert!(p.command_type().is_some());
    assert_eq!(p.command_type().unwrap(), CommandType::A);

    let lines = vec!["@12".to_string()];
    let p = Parser::new(&lines).ok().unwrap();
    assert!(p.command_type().is_some());
    assert_eq!(p.command_type().unwrap(), CommandType::A);

    let lines = vec!["M=1".to_string()];
    let p = Parser::new(&lines).ok().unwrap();
    assert!(p.command_type().is_some());
    assert_eq!(p.command_type().unwrap(), CommandType::C);

    let lines = vec!["0;JMP".to_string()];
    let p = Parser::new(&lines).ok().unwrap();
    assert!(p.command_type().is_some());
    assert_eq!(p.command_type().unwrap(), CommandType::C);

    let lines = vec!["(LOOP)".to_string()];
    let p = Parser::new(&lines).ok().unwrap();
    assert!(p.command_type().is_some());
    assert_eq!(p.command_type().unwrap(), CommandType::L);
}

#[test]
fn symbol_test() {
    let lines = vec!["@i".to_string()];
    let p = Parser::new(&lines).ok().unwrap();
    assert!(p.symbol().is_some());
    assert_eq!(p.symbol().unwrap(), "i".parse::<String>().unwrap());

    let lines = vec!["@INFINITE_LOOP".to_string()];
    let p = Parser::new(&lines).ok().unwrap();
    assert!(p.symbol().is_some());
    assert_eq!(p.symbol().unwrap(), "INFINITE_LOOP".parse::<String>().unwrap());

    let lines = vec!["M=1".to_string()];
    let p = Parser::new(&lines).ok().unwrap();
    assert!(p.symbol().is_none());

    let lines = vec!["0;JMP".to_string()];
    let p = Parser::new(&lines).ok().unwrap();
    assert!(p.symbol().is_none());

    let lines = vec!["(LOOP)".to_string()];
    let p = Parser::new(&lines).ok().unwrap();
    assert!(p.symbol().is_some());
    assert_eq!(p.symbol().unwrap(), "LOOP".parse::<String>().unwrap());
}

#[test]
fn dest_test() {
    let lines = vec!["@i".to_string()];
    let p = Parser::new(&lines).ok().unwrap();
    assert!(p.dest().is_none());

    let lines = vec!["M=1".to_string()];
    let p = Parser::new(&lines).ok().unwrap();
    assert!(p.dest().is_some());
    assert_eq!(p.dest().unwrap(), "M".parse::<String>().unwrap());

    let lines = vec!["MD=1".to_string()];
    let p = Parser::new(&lines).ok().unwrap();
    assert!(p.dest().is_some());
    assert_eq!(p.dest().unwrap(), "MD".parse::<String>().unwrap());

    let lines = vec!["AMD=1".to_string()];
    let p = Parser::new(&lines).ok().unwrap();
    assert!(p.dest().is_some());
    assert_eq!(p.dest().unwrap(), "AMD".parse::<String>().unwrap());

    let lines = vec!["0;JMP".to_string()];
    let p = Parser::new(&lines).ok().unwrap();
    assert!(p.dest().is_none());

    let lines = vec!["(LOOP)".to_string()];
    let p = Parser::new(&lines).ok().unwrap();
    assert!(p.dest().is_none());
}

#[test]
fn comp_test() {
    let lines = vec!["@i".to_string()];
    let p = Parser::new(&lines).ok().unwrap();
    assert!(p.comp().is_none());

    let lines = vec!["M=1".to_string()];
    let p = Parser::new(&lines).ok().unwrap();
    assert!(p.comp().is_some());
    assert_eq!(p.comp().unwrap(), "1".parse::<String>().unwrap());

    let lines = vec!["M=D+1".to_string()];
    let p = Parser::new(&lines).ok().unwrap();
    assert!(p.comp().is_some());
    assert_eq!(p.comp().unwrap(), "D+1".parse::<String>().unwrap());

    let lines = vec!["0;JMP".to_string()];
    let p = Parser::new(&lines).ok().unwrap();
    assert!(p.comp().is_some());
    assert_eq!(p.comp().unwrap(), "0".parse::<String>().unwrap());

    let lines = vec!["D+1;JMP".to_string()];
    let p = Parser::new(&lines).ok().unwrap();
    assert!(p.comp().is_some());
    assert_eq!(p.comp().unwrap(), "D+1".parse::<String>().unwrap());

    let lines = vec!["(LOOP)".to_string()];
    let p = Parser::new(&lines).ok().unwrap();
    assert!(p.dest().is_none());
}

#[test]
fn jump_test() {
    let lines = vec!["@i".to_string()];
    let p = Parser::new(&lines).ok().unwrap();
    assert!(p.jump().is_none());

    let lines = vec!["M=1".to_string()];
    let p = Parser::new(&lines).ok().unwrap();
    assert!(p.jump().is_none());

    let lines = vec!["0;JMP".to_string()];
    let p = Parser::new(&lines).ok().unwrap();
    assert!(p.jump().is_some());
    assert_eq!(p.jump().unwrap(), "JMP".parse::<String>().unwrap());

    let lines = vec!["D+1;JMP".to_string()];
    let p = Parser::new(&lines).ok().unwrap();
    assert!(p.jump().is_some());
    assert_eq!(p.jump().unwrap(), "JMP".parse::<String>().unwrap());

    let lines = vec!["(LOOP)".to_string()];
    let p = Parser::new(&lines).ok().unwrap();
    assert!(p.jump().is_none());
}

#[test]
fn reset_test() {
    let lines = vec!["@i".to_string(), "M=1".to_string()];
    let mut p = Parser::new(&lines).ok().unwrap();
    assert!(p.advance().is_ok());
    assert!(p.advance().is_err());
    p.reset();
    assert!(p.advance().is_ok());
    assert!(p.advance().is_err());
}
