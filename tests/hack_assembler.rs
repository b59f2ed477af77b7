use hack_toolchain::assembler::{LineSource, Simple};
use hack_toolchain::hack_code::SimpleAssembler;
use hack_toolchain::symbol_table::SimpleSymbolTable;

#[test]
fn assembler_test_a_instruction() {
    assert_eq!(
        SimpleAssembler::a_instruction(0),
        Ok(['0', '0', '0', '0', '0', '0', '0', '0', '0', '0', '0', '0', '0', '0', '0', '0',])
    );
    assert_eq!(
        SimpleAssembler::a_instruction(77),
        Ok(['0', '0', '0', '0', '0', '0', '0', '0', '0', '1', '0', '0', '1', '1', '0', '1',])
    );
    assert_eq!(
        SimpleAssembler::a_instruction(24576),
        Ok(['0', '1', '1', '0', '0', '0', '0', '0', '0', '0', '0', '0', '0', '0', '0', '0',])
    );
    assert_eq!(
        SimpleAssembler::a_instruction(32767),
        Ok(['0', '1', '1', '1', '1', '1', '1', '1', '1', '1', '1', '1', '1', '1', '1', '1',])
    );
}

#[test]
fn assembler_test_a_instruction_overflow() {
    let overflow = Err(String::from("Overflow A-Instruction value"));
    assert_eq!(SimpleAssembler::a_instruction(32768), overflow.clone());
    assert_eq!(SimpleAssembler::a_instruction(usize::MAX), overflow.clone());
}

#[test]
fn field_encodings() {
    assert_eq!(SimpleAssembler::dest("AM"), Ok(['1', '0', '1']));
    assert_eq!(SimpleAssembler::jump("JLE"), Ok(['1', '1', '0']));
    assert_eq!(SimpleAssembler::comp("M"), Ok(['1', '1', '1', '0', '0', '0', '0']));
    assert_eq!(SimpleAssembler::comp("1"), Ok(['0', '1', '1', '1', '1', '1', '1']));
    assert_eq!(SimpleAssembler::comp("-1"), Ok(['0', '1', '1', '1', '0', '1', '0']));
    assert_eq!(SimpleAssembler::dest("Q"), Err(String::from("Invalid dest field")));
    assert_eq!(SimpleAssembler::jump("JXX"), Err(String::from("Invalid jump field")));
    assert_eq!(SimpleAssembler::comp("D*A"), Err(String::from("Invalid comp field")));
}

#[test]
fn simple_empty_remove_whitespace() {
    let source = String::from("\n \n  //\n//no way hose ");
    let mut simple = Simple::new(source);
    simple.remove_whtiespace();
    assert_eq!(simple.line_sources.len(), 0);
}

#[test]
fn simple_token_before_comment_remove_whitespace() {
    let source = String::from("@10//wow what is thi");
    let mut simple = Simple::new(source);
    simple.remove_whtiespace();
    assert_eq!(simple.line_sources[0].source.len(), 3);

    let source = String::from("(LOOP) //no");
    let mut simple = Simple::new(source);
    simple.remove_whtiespace();
    assert_eq!(simple.line_sources[0].source.len(), 6);
}

#[test]
fn simple_valid_labels() {
    let labels = vec!["_", ".", "$", ":", "a2", ".2", "DRAW_REACT", "wow"];
    for label in labels.into_iter().map(|s| s.to_string()) {
        assert!(Simple::is_valid_label(&label.chars().collect::<Vec<char>>()));
    }
}

#[test]
fn simple_invalid_labels() {
    let labels = vec!["2a", "", "a%", "oops@"];
    for label in labels.into_iter().map(|s| s.to_string()) {
        assert!(!Simple::is_valid_label(&label.chars().collect::<Vec<char>>()));
    }
}

#[test]
fn simple_valid_add_instruction_label() {
    let labels = [
        "(valid)", "(VALID)", "(.)", "($)", "(_)", "(:)", "(v2l1d)", "(_wow)", "(DRAW_REACT)",
    ];
    let labels = labels
        .iter()
        .map(|s| LineSource::new(s.to_string(), 1))
        .collect::<Vec<LineSource>>();
    let mut simple = Simple::default();
    for label in labels {
        simple.add_instruction_label(&label, 1);
        assert!(!simple.had_error);
        let actual_label = label
            .source
            .strip_prefix('(')
            .unwrap()
            .strip_suffix(')')
            .unwrap();
        assert_eq!(
            simple
                .symbol_table
                .get_or_insert_memory_label(actual_label.to_string()),
            1
        );
    }
}

#[test]
fn simple_invalid_add_instruction_label() {
    let labels = ["a(valid)", "(VALID).", "(1abv)", "abc", "@no", "()"];
    for label in labels.iter().map(|s| LineSource::new(s.to_string(), 1)) {
        let mut simple = Simple::default();
        assert!(!simple.had_error);
        simple.add_instruction_label(&label, 1);
        assert!(simple.had_error);
    }
}

#[test]
fn simple_invalid_a_instruction() {
    let sources = ["no", "@", "@-10", "@3333333333", "@3.3"];
    for source in sources.iter().map(|s| LineSource::new(s.to_string(), 1)) {
        let mut simple = Simple::default();
        assert!(!simple.had_error);
        simple.a_instruction(&source);
        assert!(simple.had_error);
    }
}

#[test]
fn simple_valid_a_instruction() {
    let sources = ["@1", "@32000", "@f1", "@R1", "@KBD", "@SCREEN"];
    let correct_rom_instructions = [
        "0000000000000001",
        "0111110100000000",
        "0000000000010000",
        "0000000000000001",
        "0110000000000000",
        "0100000000000000",
    ];
    for (source, correct) in sources.iter().zip(correct_rom_instructions.iter()) {
        let mut simple = Simple::default();
        simple.a_instruction(&LineSource::new(source.to_string(), 1));
        assert_eq!(simple.rom[0].iter().collect::<String>(), correct.to_string());
    }
}

#[test]
fn symbol_table_insert_duplicate_instruction() {
    let mut symbol_table = SimpleSymbolTable::new();
    let label = String::from("Again");
    assert_eq!(symbol_table.insert_instruction_label(label.clone(), 1), Ok(()));
    assert!(symbol_table.insert_instruction_label(label.clone(), 2).is_err())
}

#[test]
fn symbol_table_insert_reserved_instruction() {
    let mut symbol_table = SimpleSymbolTable::new();
    let label = String::from("R0");
    assert!(symbol_table.insert_instruction_label(label.clone(), 2).is_err())
}

#[test]
fn symbol_table_get_reserved_instruction() {
    let mut symbol_table = SimpleSymbolTable::new();
    let label = String::from("R10");
    assert_eq!(symbol_table.get_or_insert_memory_label(label.clone()), 10)
}

#[test]
fn variables_get_consecutive_cells() {
    let mut symbol_table = SimpleSymbolTable::default();
    assert_eq!(symbol_table.get_or_insert_memory_label("i".to_string()), 16);
    assert_eq!(symbol_table.get_or_insert_memory_label("j".to_string()), 17);
    assert_eq!(symbol_table.get_or_insert_memory_label("i".to_string()), 16);
    assert_eq!(symbol_table.get_or_insert_memory_label("SCREEN".to_string()), 16384);
}

fn words(rom: &[[char; 16]]) -> Vec<String> {
    rom.iter().map(|w| w.iter().collect::<String>()).collect()
}

#[test]
fn assembles_a_small_program() {
    let source = "// adds two numbers\n@2\nD=A\n@3\nD=D+A\n@0\nM=D\n(END)\n@END\n0;JMP\n";
    let rom = Simple::compile(source.to_string()).unwrap();
    assert_eq!(
        words(&rom),
        vec![
            "0000000000000010",
            "1110110000010000",
            "0000000000000011",
            "1110000010010000",
            "0000000000000000",
            "1110001100001000",
            "0000000000000110",
            "1110101010000111",
        ]
    );
}

#[test]
fn c_instruction_fields_are_trimmed() {
    let mut simple = Simple::default();
    simple.c_instruction(&LineSource::new("AM = M+1 ; JGT".to_string(), 0));
    assert!(!simple.had_error);
    assert_eq!(words(&simple.rom), vec!["1111110111101001"]);
    simple.c_instruction(&LineSource::new("X=M".to_string(), 1));
    assert!(simple.had_error);
}

#[test]
fn assembly_errors_give_none() {
    assert_eq!(Simple::compile("@32768".to_string()), None);
    assert_eq!(Simple::compile("(A)\n(A)\n@A".to_string()), None);
    assert_eq!(Simple::compile("D=Q".to_string()), None);
}

#[test]
fn a_instruction_with_plus() {
    let mut simple = Simple::default();
    simple.a_instruction(&LineSource::new("@+5".to_string(), 0));
    assert!(!simple.had_error);
    assert_eq!(simple.rom[0].iter().collect::<String>(), "0000000000000101");
}
