use hack_toolchain::code_gen::CodeGen;
use hack_toolchain::compiler::{CompileError, Compiler, ErrorKind};
use hack_toolchain::linker::{link, startup, translate_program, SourceUnit, UnitError};
use hack_toolchain::parser::{LineSource, Parser};
use hack_toolchain::segment::MemorySegments;

fn lines(v: &[&str]) -> Vec<String> {
    v.iter().map(|s| s.to_string()).collect()
}

#[test]
fn generate_asm_label() {
    assert_eq!(
        CodeGen::generate_asm_label(&"function_name".to_string(), &"label_name".to_string())
            .as_str(),
        "function_name$label_name"
    );
    assert_eq!(
        CodeGen::generate_asm_label(&"".to_string(), &"label_name".to_string()).as_str(),
        "$label_name"
    );
}

#[test]
fn error_quad_token() {
    let source = "wow very funny lol";
    let mut compiler = Compiler::new(source.to_string(), "somefile".to_string());
    compiler.run();
    assert!(compiler.had_error)
}

#[test]
fn error_neg_push() {
    let source = "push constant -10";
    let mut compiler = Compiler::new(source.to_string(), "somefile".to_string());
    compiler.run();
    assert!(compiler.had_error)
}

#[test]
fn error_temp_large() {
    let source = "push temp 10";
    let mut compiler = Compiler::new(source.to_string(), "somefile".to_string());
    compiler.run();
    assert!(compiler.had_error)
}

#[test]
fn error_pointer_3() {
    let source = "push pointer 3";
    let mut compiler = Compiler::new(source.to_string(), "somefile".to_string());
    compiler.run();
    assert!(compiler.had_error)
}

#[test]
fn error_push_pop_check_memory_segment() {
    let source = "";
    let mut compiler = Compiler::new(source.to_string(), "somefile".to_string());
    let line_source = LineSource {
        line: 1,
        tokens: Vec::default(),
    };
    assert!(compiler.push_pop_check_memory_segment_i(&line_source, &MemorySegments::Pointer, 3));
    assert!(compiler.had_error);
    let mut compiler = Compiler::new(source.to_string(), "somefile".to_string());
    assert!(compiler.push_pop_check_memory_segment_i(&line_source, &MemorySegments::Temp, 8));
    assert!(compiler.had_error)
}

#[test]
fn compiler_valid_labels() {
    let labels = vec!["_", ".", ":", "a2", ".2", "DRAW_REACT", "wow", "_2:no"];
    for label in labels.iter().map(|s| s.to_string()) {
        assert!(Compiler::is_valid_label(&label));
    }
}

#[test]
fn compiler_invalid_labels() {
    let labels = vec!["21", "2abc", "$wow"];
    for label in labels.iter().map(|s| s.to_string()) {
        assert!(!Compiler::is_valid_label(&label));
    }
}

#[test]
fn parser_empty_remove_whitespace() {
    let source = String::from("\n \n  //\n//no way hose ");
    let line_sources = Parser::parse(source);
    assert_eq!(line_sources.len(), 0);
}

#[test]
fn parser_token_before_comment_remove_whitespace() {
    let source = String::from("@10//wow what is thi");
    let line_sources = Parser::parse(source);
    assert_eq!(line_sources[0].tokens[0], "@10".to_string());

    let source = String::from("(LOOP) //no");
    let line_sources = Parser::parse(source);
    assert_eq!(line_sources[0].tokens[0], "(LOOP)".to_string());

    let source = String::from("push local 2 //no");
    let line_sources = Parser::parse(source);
    assert_eq!(line_sources[0].tokens.len(), 3);
}

#[test]
fn generate_tokens() {
    let tokens = Parser::generate_tokens(String::from("pop  local    2"));
    assert_eq!(
        tokens,
        vec![String::from("pop"), String::from("local"), String::from("2")]
    );
    let tokens = Parser::generate_tokens(String::from("add"));
    assert_eq!(tokens, vec![String::from("add")]);
    let tokens = Parser::generate_tokens(String::from("push constant 3"));
    assert_eq!(
        tokens,
        vec![String::from("push"), String::from("constant"), String::from("3")]
    );
}

#[test]
fn parse() {
    let source = String::from("push constant 2\npush   constant   3 //wow comment\nadd\n\n  ");
    let line_souces = Parser::parse(source);
    assert_eq!(line_souces.len(), 3);
    assert_eq!(line_souces[1].tokens.len(), 3);
    assert_eq!(
        line_souces[0].tokens,
        vec!["push".to_string(), "constant".to_string(), "2".to_string()]
    );
    assert_eq!(
        line_souces[1].tokens,
        vec!["push".to_string(), "constant".to_string(), "3".to_string()]
    );
    assert_eq!(line_souces[2].tokens, vec!["add".to_string()]);
}

#[test]
fn parse_keeps_line_numbers_and_trims() {
    let recs = Parser::parse(String::from("\n  push local 1\r\n// only a comment\n\tnot  "));
    assert_eq!(recs.len(), 2);
    assert_eq!(recs[0].line, 2);
    assert_eq!(recs[0].tokens, lines(&["push", "local", "1"]));
    assert_eq!(recs[1].line, 4);
    assert_eq!(recs[1].tokens, lines(&["not"]));
}

#[test]
fn add_fragment_is_exact() {
    assert_eq!(
        CodeGen::add(),
        lines(&["//add", "@SP", "AM=M-1", "D=M", "@SP", "A=M-1", "M=D+M"])
    );
}

#[test]
fn arithmetic_fragments() {
    assert_eq!(
        CodeGen::sub(),
        lines(&["//sub", "@SP", "AM=M-1", "D=M", "@SP", "A=M-1", "M=M-D"])
    );
    assert_eq!(CodeGen::neg(), lines(&["//neg", "@SP", "A=M-1", "M=-M"]));
    assert_eq!(CodeGen::not(), lines(&["//not", "@SP", "A=M-1", "M=!M"]));
    assert_eq!(
        CodeGen::and(),
        lines(&["//and", "@SP", "AM=M-1", "D=M", "@SP", "A=M-1", "M=D&M"])
    );
    assert_eq!(
        CodeGen::or(),
        lines(&["//or", "@SP", "AM=M-1", "D=M", "@SP", "A=M-1", "M=D|M"])
    );
}

#[test]
fn comparison_labels_count_up() {
    let mut code_gen = CodeGen::default();
    let file = "f".to_string();
    let first = code_gen.bin_comp(&file, "eq");
    assert_eq!(
        first,
        lines(&[
            "//eq", "@SP", "AM=M-1", "D=M", "A=A-1", "D=M-D", "M=-1", "@f.eq.0", "D;JEQ", "@SP",
            "A=M-1", "M=0", "(f.eq.0)",
        ])
    );
    let second = code_gen.bin_comp(&file, "lt");
    assert_eq!(second[7], "@f.lt.1");
    assert_eq!(second[8], "D;JLT");
    assert_eq!(second[12], "(f.lt.1)");
}

#[test]
fn push_and_pop_fragments() {
    let file = "f".to_string();
    assert_eq!(
        CodeGen::push_segment(&file, MemorySegments::Constant, 4),
        lines(&["//push constant 4", "@4", "D=A", "@SP", "AM=M+1", "A=A-1", "M=D"])
    );
    assert_eq!(
        CodeGen::push_segment(&file, MemorySegments::Local, 3),
        lines(&[
            "//push local 3", "@LCL", "D=M", "@3", "A=D+A", "D=M", "@SP", "A=M", "M=D", "@SP",
            "M=M+1",
        ])
    );
    assert_eq!(
        CodeGen::push_segment(&file, MemorySegments::Temp, 3),
        lines(&["//push temp 3", "@8", "D=M", "@SP", "M=M+1", "A=M-1", "M=D"])
    );
    assert_eq!(
        CodeGen::push_segment(&file, MemorySegments::Static, 4)[1],
        "@f.4"
    );
    assert_eq!(
        CodeGen::push_segment(&file, MemorySegments::Pointer, 1)[1],
        "@THAT"
    );
    assert_eq!(
        CodeGen::pop_segment(&file, MemorySegments::Temp, 3),
        lines(&["//pop temp 3", "@SP", "AM=M-1", "D=M", "@8", "M=D"])
    );
    assert_eq!(
        CodeGen::pop_segment(&file, MemorySegments::That, 2),
        lines(&[
            "//pop that 2", "@SP", "AM=M-1", "D=M", "@THAT", "D=D+M", "@2", "D=D+A", "@SP", "A=M",
            "A=M", "A=D-A", "M=D-A",
        ])
    );
    assert_eq!(
        CodeGen::pop_segment(&file, MemorySegments::Pointer, 0)[4],
        "@THIS"
    );
}

#[test]
fn branch_fragments_are_qualified() {
    let f = "Main.main".to_string();
    let l = "wow".to_string();
    assert_eq!(CodeGen::label(&f, &l), lines(&["//label wow", "(Main.main$wow)"]));
    assert_eq!(
        CodeGen::goto_label(&f, &l),
        lines(&["//goto wow", "@Main.main$wow", "0;JMP"])
    );
    assert_eq!(
        CodeGen::if_goto_label(&f, &l),
        lines(&["//if-goto wow", "@SP", "AM=M-1", "D=M", "@Main.main$wow", "D;JNE"])
    );
}

#[test]
fn function_call_and_return_fragments() {
    let f = "Main.main".to_string();
    assert_eq!(
        CodeGen::function(&f, 3),
        lines(&["//function Main.main 3", "(Main.main)", "@3", "D=A", "@SP", "M=M+D"])
    );
    let mut code_gen = CodeGen::new();
    let call = code_gen.call(&"f".to_string(), &f, 3);
    assert_eq!(call.len(), 42);
    assert_eq!(call[0], "//call Main.main 3");
    assert_eq!(call[1], "@f.Main.main.return.0");
    assert_eq!(call[35], "@8");
    assert_eq!(call[39], "@Main.main");
    assert_eq!(call[41], "(f.Main.main.return.0)");
    let ret = CodeGen::f_return();
    assert_eq!(ret.len(), 35);
    assert_eq!(ret[0], "//return");
    assert_eq!(ret[34], "0;JMP");
}

#[test]
fn segment_tokens() {
    assert_eq!(MemorySegments::from_token("local"), Ok(MemorySegments::Local));
    assert_eq!(MemorySegments::from_token("static"), Ok(MemorySegments::Static));
    assert!(MemorySegments::from_token("heap").is_err());
}

fn unit_error(source: &str) -> ErrorKind {
    Compiler::compile_unit(source.to_string(), "u".to_string())
        .unwrap_err()
        .kind
}

#[test]
fn each_error_kind() {
    assert_eq!(unit_error("add 1"), ErrorKind::StructuralArityMismatch);
    assert_eq!(unit_error("push local"), ErrorKind::StructuralArityMismatch);
    assert_eq!(unit_error("jump here"), ErrorKind::UnknownCommand);
    assert_eq!(unit_error("push heap 1"), ErrorKind::UnknownSegment);
    assert_eq!(unit_error("push local x"), ErrorKind::MalformedIndex);
    assert_eq!(unit_error("pop temp 8"), ErrorKind::IndexOutOfRange);
    assert_eq!(unit_error("pop constant 3"), ErrorKind::IllegalOperation);
    assert_eq!(unit_error("goto 2x"), ErrorKind::InvalidLabelSyntax);
    assert_eq!(unit_error("function $f 0"), ErrorKind::InvalidLabelSyntax);
}

#[test]
fn range_enforcement() {
    for i in [8usize, 9, 100, 65535] {
        assert_eq!(unit_error(&format!("push temp {}", i)), ErrorKind::IndexOutOfRange);
        assert_eq!(unit_error(&format!("pop temp {}", i)), ErrorKind::IndexOutOfRange);
    }
    for i in [2usize, 3, 1000] {
        assert_eq!(unit_error(&format!("push pointer {}", i)), ErrorKind::IndexOutOfRange);
        assert_eq!(unit_error(&format!("pop pointer {}", i)), ErrorKind::IndexOutOfRange);
    }
    for i in [0usize, 1, 7, 32767] {
        assert_eq!(unit_error(&format!("pop constant {}", i)), ErrorKind::IllegalOperation);
    }
    assert!(Compiler::compile("push temp 7\npop pointer 1".to_string(), "u".to_string()).is_some());
}

#[test]
fn first_error_wins() {
    let source = "push constant 1\npush constant 2\npush temp 9\nadd\nadd\nadd\nfoo\n";
    assert_eq!(
        Compiler::compile_unit(source.to_string(), "u".to_string()),
        Err(CompileError { line: 3, kind: ErrorKind::IndexOutOfRange })
    );
    assert_eq!(Compiler::compile(source.to_string(), "u".to_string()), None);
}

#[test]
fn labels_are_qualified_by_function() {
    let source = "function A.f 0\nlabel LOOP\nfunction B.g 0\nlabel LOOP\n";
    let out = Compiler::compile(source.to_string(), "u".to_string()).unwrap();
    assert!(out.contains(&"(A.f$LOOP)".to_string()));
    assert!(out.contains(&"(B.g$LOOP)".to_string()));
}

#[test]
fn unit_compiles_in_order() {
    let out = Compiler::compile("push constant 7\npush constant 8\nadd".to_string(), "u".to_string())
        .unwrap();
    let mut expected = CodeGen::push_segment(&"u".to_string(), MemorySegments::Constant, 7);
    expected.append(&mut CodeGen::push_segment(&"u".to_string(), MemorySegments::Constant, 8));
    expected.append(&mut CodeGen::add());
    assert_eq!(out, expected);
}

fn units() -> Vec<SourceUnit> {
    vec![
        SourceUnit { name: "Main".to_string(), text: "function Main.main 0\npush constant 1\neq\ncall Main.main 0\nreturn".to_string() },
        SourceUnit { name: "Sys".to_string(), text: "function Sys.init 0\neq\ncall Main.main 0\nreturn".to_string() },
    ]
}

#[test]
fn linking_is_reproducible() {
    let a = translate_program(&units()).unwrap();
    let b = translate_program(&units()).unwrap();
    assert_eq!(a, b);
    assert!(a.contains(&"@Main.eq.0".to_string()));
    assert!(a.contains(&"@Sys.eq.0".to_string()));
    assert!(a.contains(&"@Sys.Main.main.return.0".to_string()));
}

#[test]
fn program_starts_with_bootstrap() {
    let out = link(vec![lines(&["x"]), lines(&["y", "z"])]);
    let start = startup();
    assert_eq!(&start[..4], &lines(&["@256", "D=A", "@SP", "M=D"])[..]);
    assert_eq!(start[5], "@bootstrap.Sys.init.return.0");
    assert_eq!(out.len(), start.len() + 3);
    assert_eq!(&out[start.len()..], &lines(&["x", "y", "z"])[..]);
}

#[test]
fn program_reports_failing_unit() {
    let mut us = units();
    us.push(SourceUnit { name: "Bad".to_string(), text: "push\n".to_string() });
    assert_eq!(
        translate_program(&us),
        Err(UnitError { unit: 2, error: CompileError { line: 1, kind: ErrorKind::StructuralArityMismatch } })
    );
}

#[test]
fn empty_unit_compiles_to_nothing() {
    assert_eq!(Compiler::compile(String::new(), "u".to_string()), Some(Vec::new()));
    assert_eq!(Compiler::compile("// only a comment\n\n".to_string(), "u".to_string()), Some(Vec::new()));
}

#[test]
fn largest_indices() {
    let max = usize::MAX.to_string();
    let out = Compiler::compile(format!("push constant {}", max), "u".to_string()).unwrap();
    assert_eq!(out[1], format!("@{}", max));
    assert_eq!(unit_error(&format!("push temp {}", max)), ErrorKind::IndexOutOfRange);
    assert_eq!(unit_error("push constant 18446744073709551616"), ErrorKind::MalformedIndex);
    assert_eq!(unit_error(&format!("call f {}", max)), ErrorKind::IndexOutOfRange);
}

#[test]
fn comparisons_jump_on_their_condition() {
    let out = Compiler::compile("gt\nlt\neq".to_string(), "m".to_string()).unwrap();
    assert_eq!(out[8], "D;JGT");
    assert_eq!(out[12], "(m.gt.0)");
    assert_eq!(out[13 + 8], "D;JLT");
    assert_eq!(out[13 + 12], "(m.lt.1)");
    assert_eq!(out[26 + 8], "D;JEQ");
    assert_eq!(out[26 + 12], "(m.eq.2)");
}

#[test]
fn counters_restart_with_each_unit() {
    let a = Compiler::compile("eq\ncall f 1".to_string(), "A".to_string()).unwrap();
    let b = Compiler::compile("eq\ncall f 1".to_string(), "B".to_string()).unwrap();
    assert!(a.contains(&"(A.eq.0)".to_string()));
    assert!(b.contains(&"(B.eq.0)".to_string()));
    assert!(a.contains(&"(A.f.return.0)".to_string()));
    assert!(b.contains(&"(B.f.return.0)".to_string()));
}

#[test]
fn statics_are_named_by_unit() {
    let a = Compiler::compile("push static 0".to_string(), "A".to_string()).unwrap();
    let b = Compiler::compile("pop static 0".to_string(), "B".to_string()).unwrap();
    assert_eq!(a[1], "@A.0");
    assert_eq!(b[4], "@B.0");
}

#[test]
fn labels_before_any_function() {
    let out = Compiler::compile("label top\ngoto top".to_string(), "u".to_string()).unwrap();
    assert_eq!(out[1], "($top)");
    assert_eq!(out[3], "@$top");
}

#[test]
fn tokens_split_at_any_whitespace() {
    assert_eq!(Parser::generate_tokens("push\tlocal\u{a0} 2".to_string()), lines(&["push", "local", "2"]));
    let recs = Parser::parse("\u{a0}\u{3000}\npush\tconstant\t1".to_string());
    assert_eq!(recs.len(), 1);
    assert_eq!(recs[0].line, 2);
    assert_eq!(recs[0].tokens, lines(&["push", "constant", "1"]));
}

#[test]
fn index_may_carry_a_plus() {
    let out = Compiler::compile("push constant +5\ncall f +1".to_string(), "u".to_string()).unwrap();
    assert_eq!(out[1], "@5");
    assert_eq!(unit_error("push constant ++5"), ErrorKind::MalformedIndex);
    assert_eq!(unit_error("push constant +"), ErrorKind::MalformedIndex);
    assert_eq!(unit_error("push temp +8"), ErrorKind::IndexOutOfRange);
}

#[test]
fn unknown_segment_text() {
    assert_eq!(MemorySegments::from_token("heap"), Err("Unknown Memory Segment".to_string()));
}
