use hack_toolchain::jack_code::{error_expected_token_type, CodeGen, VariableKind, VM_OPS};
use hack_toolchain::jack_token::{ReservedKeywords, Symbols, Token, TokenType};

#[test]
fn get_source_not_string() {
    let source = String::new().chars().collect::<Vec<char>>();
    let token = Token { _type: TokenType::EOF, start: 0, length: 0, line: 1 };
    assert_eq!(token.get_source(&source), String::new());

    let source = "!".chars().collect::<Vec<char>>();
    let token = Token { _type: TokenType::Symbol(Symbols::Bang), start: 0, length: 1, line: 1 };
    assert_eq!(token.get_source(&source), "!".to_string());

    let source = "class".chars().collect::<Vec<char>>();
    let token = Token {
        _type: TokenType::Keyword(ReservedKeywords::Class),
        start: 0,
        length: 5,
        line: 1,
    };
    assert_eq!(token.get_source(&source), "class".to_string());
}

#[test]
fn get_source_string() {
    let source = "\"funny string\"".chars().collect::<Vec<char>>();
    let token = Token { _type: TokenType::String, start: 0, length: 14, line: 1 };
    assert_eq!(token.get_source(&source), "funny string".to_string());
}

#[test]
fn error_expected_token_string() {
    let source = "class".chars().collect::<Vec<char>>();
    let token = &Token {
        _type: TokenType::Keyword(ReservedKeywords::Class),
        start: 0,
        length: 5,
        line: 2,
    };
    let output =
        error_expected_token_type(token, &[TokenType::Keyword(ReservedKeywords::Do)], &source);
    assert_eq!(output, "Expected Keyword(Do), got class on line 2");

    let output = error_expected_token_type(
        token,
        &[TokenType::Keyword(ReservedKeywords::Let), TokenType::Symbol(Symbols::And)],
        &source,
    );
    assert_eq!(output, "Expected Keyword(Let) | Symbol(And), got class on line 2");
}

#[test]
fn token_new_keeps_fields() {
    let t = Token::new(TokenType::Integer(12), 3, 2, 7);
    assert_eq!(t, Token { _type: TokenType::Integer(12), start: 3, length: 2, line: 7 });
    assert_eq!(TokenType::Integer(12).kind_name(), "Integer(12)");
}

#[test]
fn ops_and_segments() {
    assert_eq!(VM_OPS::ADD.to_vm_string(), "add");
    assert_eq!(VM_OPS::NOT.to_vm_string(), "not");
    assert_eq!(VariableKind::Field.to_vm_segment(), "this");
    assert_eq!(VariableKind::Local.to_vm_segment(), "local");
}

fn ident(start: usize, length: usize) -> Token {
    Token { _type: TokenType::Identifier, start, length, line: 1 }
}

#[test]
fn variables_resolve_to_segments() {
    let source = "static int field Point".chars().collect::<Vec<char>>();
    let stat = Token { _type: TokenType::Keyword(ReservedKeywords::Static), start: 0, length: 6, line: 1 };
    let field = Token { _type: TokenType::Keyword(ReservedKeywords::Field), start: 11, length: 5, line: 1 };
    let int = Token { _type: TokenType::Keyword(ReservedKeywords::Int), start: 7, length: 3, line: 1 };
    let point = ident(17, 5);
    let mut code_gen = CodeGen::default();
    assert_eq!(code_gen.insert_class_variable("count".to_string(), &stat, &int, &source), Ok(()));
    assert_eq!(code_gen.insert_class_variable("x".to_string(), &field, &int, &source), Ok(()));
    assert_eq!(code_gen.insert_class_variable("p".to_string(), &field, &point, &source), Ok(()));
    assert!(code_gen.insert_class_variable("x".to_string(), &field, &int, &source).is_err());
    assert_eq!(
        code_gen.insert_class_variable("y".to_string(), &int, &int, &source),
        Err("Expected Keyword(Static) | Keyword(Field), got int on line 1".to_string())
    );
    code_gen.reset_subroutine_table("Point".to_string());
    assert_eq!(code_gen.insert_subroutine_variable("a".to_string(), VariableKind::Argument, &int, &source), Ok(()));
    assert_eq!(code_gen.insert_subroutine_variable("i".to_string(), VariableKind::Local, &int, &source), Ok(()));
    assert_eq!(code_gen.insert_subroutine_variable("j".to_string(), VariableKind::Local, &int, &source), Ok(()));
    assert_eq!(
        code_gen.insert_subroutine_variable("x".to_string(), VariableKind::Local, &int, &source),
        Err("Variable with the same name declared again at line 1, was declared previously as a Field variable".to_string())
    );
    assert_eq!(code_gen.push_variable(&"count".to_string()), Ok(()));
    assert_eq!(code_gen.push_variable(&"x".to_string()), Ok(()));
    assert_eq!(code_gen.push_variable(&"a".to_string()), Ok(()));
    assert_eq!(code_gen.pop_variable(&"j".to_string()), Ok(()));
    assert_eq!(code_gen.push_variable(&"this".to_string()), Ok(()));
    assert_eq!(
        code_gen.push_variable(&"nope".to_string()),
        Err("Variable nope not declared before".to_string())
    );
    code_gen.push_function("Point", "new");
    code_gen.constructor_alloc();
    assert_eq!(
        code_gen.gen_vm_code(),
        "push static 0\npush this 0\npush argument 1\npop local 1\npush argument 0\nfunction Point.new 2\npush constant 2\ncall Memory.alloc 1\npop pointer 0"
    );
}

#[test]
fn subroutine_calls() {
    let source = "Point int".chars().collect::<Vec<char>>();
    let point = ident(0, 5);
    let int = Token { _type: TokenType::Keyword(ReservedKeywords::Int), start: 6, length: 3, line: 1 };
    let mut code_gen = CodeGen::new();
    code_gen.reset_subroutine_table("Main".to_string());
    assert_eq!(code_gen.insert_subroutine_variable("p".to_string(), VariableKind::Local, &point, &source), Ok(()));
    assert_eq!(code_gen.insert_subroutine_variable("n".to_string(), VariableKind::Local, &int, &source), Ok(()));
    assert_eq!(code_gen.complex_subroutine_call("p", "getx", 1), Ok(()));
    assert_eq!(code_gen.complex_subroutine_call("Output", "println", 0), Ok(()));
    assert_eq!(
        code_gen.complex_subroutine_call("n", "f", 0),
        Err("subroutine call on, n, with type Int is not possible".to_string())
    );
    code_gen.push_call("Main", "run", -1);
    assert_eq!(code_gen.gen_vm_code(), "call Point.getx 1\ncall Output.println 0\ncall Main.run -1");
}

#[test]
fn expression_lines() {
    let mut code_gen = CodeGen::default();
    code_gen.push_integer_constant(-7);
    code_gen.push_pointer(1);
    code_gen.pop_pointer(0);
    code_gen.push_op(VM_OPS::LT);
    code_gen.pop_temp(2);
    code_gen.push_temp();
    code_gen.push_that();
    code_gen.pop_that();
    code_gen.push_comment("ignored".to_string());
    let l = code_gen.get_flow_counter("Main");
    assert_eq!(l, "Main.flow.0");
    assert_eq!(code_gen.get_flow_counter("Main"), "Main.flow.1");
    code_gen.push_if_goto(&l);
    code_gen.push_goto(&l);
    code_gen.push_label(&l);
    code_gen.push_return();
    assert_eq!(
        code_gen.gen_vm_code(),
        "push constant -7\npush pointer 1\npop pointer 0\nlt\npop temp 2\npush temp 0\npush that 0\npop that 0\nif-goto Main.flow.0\ngoto Main.flow.0\nlabel Main.flow.0\nreturn"
    );
}

#[test]
fn math_calls() {
    let mut code_gen = CodeGen::default();
    code_gen.call_math_multiply();
    code_gen.call_math_divide();
    assert_eq!(
        code_gen.gen_vm_code(),
        "pop temp 0\npop temp 1\npush constant 0\npush temp 0\npush temp 1\ncall Math.multiply 3\npop temp 0\npop temp 1\npush constant 0\npush temp 0\npush temp 1\ncall Math.divide 3"
    );
}

#[test]
fn redeclared_class_variable_text() {
    let source = "static int".chars().collect::<Vec<char>>();
    let stat = Token { _type: TokenType::Keyword(ReservedKeywords::Static), start: 0, length: 6, line: 3 };
    let int = Token { _type: TokenType::Keyword(ReservedKeywords::Int), start: 7, length: 3, line: 3 };
    let mut code_gen = CodeGen::new();
    assert_eq!(code_gen.insert_class_variable("a".to_string(), &stat, &int, &source), Ok(()));
    assert_eq!(
        code_gen.insert_class_variable("a".to_string(), &stat, &int, &source),
        Err("Class variable a is defined again on line 3".to_string())
    );
    assert_eq!(code_gen.insert_class_variable("b".to_string(), &stat, &int, &source), Ok(()));
    assert_eq!(code_gen.push_variable(&"b".to_string()), Ok(()));
    assert_eq!(code_gen.gen_vm_code(), "push static 1");
}
