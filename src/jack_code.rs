//! Emits stack-machine code for the high-level language's compiler, and
//! keeps its class-level and subroutine-level symbol tables.
use vstd::prelude::*;
use crate::jack_token::{Token, TokenType, ReservedKeywords, kind_name, token_fits, token_text};
use crate::text::{decimal, signed_decimal, lines_of, usize_text, i16_text, join2, join3, text_eq};

verus! {

/// The operators of the stack-machine language.
#[allow(non_camel_case_types)]
#[derive(Debug, Clone, Copy, PartialEq, Eq, Structural)]
pub enum VM_OPS {
    ADD,
    SUB,
    NEG,
    EQ,
    GT,
    LT,
    AND,
    OR,
    NOT,
}

pub open spec fn op_word(op: VM_OPS) -> Seq<char> {
    match op {
        VM_OPS::ADD => "add"@,
        VM_OPS::SUB => "sub"@,
        VM_OPS::NEG => "neg"@,
        VM_OPS::EQ => "eq"@,
        VM_OPS::GT => "gt"@,
        VM_OPS::LT => "lt"@,
        VM_OPS::AND => "and"@,
        VM_OPS::OR => "or"@,
        VM_OPS::NOT => "not"@,
    }
}

impl VM_OPS {
    pub fn to_vm_string(&self) -> (r: String)
        ensures
            r@ == op_word(*self),
    {
        let s = match self {
            VM_OPS::ADD => "add",
            VM_OPS::SUB => "sub",
            VM_OPS::NEG => "neg",
            VM_OPS::EQ => "eq",
            VM_OPS::GT => "gt",
            VM_OPS::LT => "lt",
            VM_OPS::AND => "and",
            VM_OPS::OR => "or",
            VM_OPS::NOT => "not",
        };
        String::from_str(s)
    }
}

#[derive(Debug, Clone, Copy, PartialEq, Eq, Structural)]
pub enum VariableKind {
    Field,
    Static,
    Argument,
    Local,
}

/// The segment that holds variables of a kind.
pub open spec fn kind_segment(k: VariableKind) -> Seq<char> {
    match k {
        VariableKind::Field => "this"@,
        VariableKind::Static => "static"@,
        VariableKind::Argument => "argument"@,
        VariableKind::Local => "local"@,
    }
}

pub open spec fn kind_word(k: VariableKind) -> Seq<char> {
    match k {
        VariableKind::Field => "Field"@,
        VariableKind::Static => "Static"@,
        VariableKind::Argument => "Argument"@,
        VariableKind::Local => "Local"@,
    }
}

impl VariableKind {
    pub fn to_vm_segment(&self) -> (r: String)
        ensures
            r@ == kind_segment(*self),
    {
        let s = match self {
            VariableKind::Field => "this",
            VariableKind::Static => "static",
            VariableKind::Argument => "argument",
            VariableKind::Local => "local",
        };
        String::from_str(s)
    }

    fn word(&self) -> (r: &'static str)
        ensures
            r@ == kind_word(*self),
    {
        match self {
            VariableKind::Field => "Field",
            VariableKind::Static => "Static",
            VariableKind::Argument => "Argument",
            VariableKind::Local => "Local",
        }
    }
}

#[derive(Debug)]
pub enum VariableType {
    Int,
    Char,
    Boolean,
    Identifier(String),
}

/// A variable's type: a primitive, or the class it is an instance of.
pub ghost enum VarType {
    Int,
    Char,
    Boolean,
    Class(Seq<char>),
}

impl VariableType {
    pub open spec fn view(&self) -> VarType {
        match self {
            VariableType::Int => VarType::Int,
            VariableType::Char => VarType::Char,
            VariableType::Boolean => VarType::Boolean,
            VariableType::Identifier(c) => VarType::Class(c@),
        }
    }
}

pub open spec fn var_type_word(t: VarType) -> Seq<char> {
    match t {
        VarType::Int => "Int"@,
        VarType::Char => "Char"@,
        VarType::Boolean => "Boolean"@,
        VarType::Class(c) => "Identifier(\""@ + c + "\")"@,
    }
}

#[derive(Debug)]
pub struct VariableMetaData {
    pub _type: VariableType,
    pub kind: VariableKind,
    pub number: usize,
}

/// What is known of a variable: its type, its kind and its number within
/// the kind.
pub ghost struct Var {
    pub ty: VarType,
    pub kind: VariableKind,
    pub number: nat,
}

impl VariableMetaData {
    pub open spec fn view(&self) -> Var {
        Var { ty: self._type@, kind: self.kind, number: self.number as nat }
    }
}

pub open spec fn table_view(t: Seq<(String, VariableMetaData)>) -> Seq<(Seq<char>, Var)> {
    t.map_values(|e: (String, VariableMetaData)| (e.0@, e.1@))
}

/// The variable called `name`: that of its first entry.
pub open spec fn find_var(t: Seq<(Seq<char>, Var)>, name: Seq<char>) -> Option<Var>
    decreases t.len(),
{
    if t.len() == 0 {
        None
    } else if t[0].0 == name {
        Some(t[0].1)
    } else {
        find_var(t.drop_first(), name)
    }
}

/// How many entries of `t` are of kind `k`.
pub open spec fn count_kind(t: Seq<(Seq<char>, Var)>, k: VariableKind) -> nat
    decreases t.len(),
{
    if t.len() == 0 {
        0
    } else {
        count_kind(t.drop_last(), k) + if t.last().1.kind == k {
            1nat
        } else {
            0nat
        }
    }
}

/// Lines joined by newlines.
pub open spec fn join_lines(ls: Seq<Seq<char>>) -> Seq<char>
    decreases ls.len(),
{
    if ls.len() == 0 {
        seq![]
    } else if ls.len() == 1 {
        ls[0]
    } else {
        join_lines(ls.drop_last()) + seq!['\n'] + ls.last()
    }
}

/// Joins texts with `sep` between them.
pub open spec fn join_with(ls: Seq<Seq<char>>, sep: Seq<char>) -> Seq<char>
    decreases ls.len(),
{
    if ls.len() == 0 {
        seq![]
    } else if ls.len() == 1 {
        ls[0]
    } else {
        join_with(ls.drop_last(), sep) + sep + ls.last()
    }
}

/// The message for token `t` where one of `expected` was due.
pub open spec fn expected_message(t: Token, expected: Seq<TokenType>, source: Seq<char>) -> Seq<char> {
    "Expected "@ + join_with(expected.map_values(|k: TokenType| kind_name(k)), " | "@) + ", got "@
        + token_text(t, source) + " on line "@ + decimal(t.line as nat)
}

/// The message for token `t` where one of `expected` was due: `Expected
/// Keyword(Let) | Symbol(And), got class on line 2`.
pub fn error_expected_token_type(token: &Token, _types: &[TokenType], source: &[char]) -> (r: String)
    requires
        token_fits(*token, source@),
    ensures
        r@ == expected_message(*token, _types@, source@),
{
    let ghost names = _types@.map_values(|k: TokenType| kind_name(k));
    let mut list = String::new();
    let mut i: usize = 0;
    assert(names.take(0) =~= Seq::<Seq<char>>::empty());
    while i < _types.len()
        invariant
            0 <= i <= _types@.len(),
            names == _types@.map_values(|k: TokenType| kind_name(k)),
            list@ == join_with(names.take(i as int), " | "@),
        decreases _types@.len() - i,
    {
        let name = _types[i].kind_name();
        assert(names.take(i + 1).drop_last() =~= names.take(i as int));
        if i > 0 {
            list.append(" | ");
        } else {
            assert(names.take(1) =~= seq![names[0]]);
        }
        list.append(name.as_str());
        i = i + 1;
    }
    assert(names.take(_types@.len() as int) =~= names);
    let mut r = join3("Expected ", list.as_str(), ", got ");
    r.append(token.get_source(source).as_str());
    r.append(" on line ");
    r.append(usize_text(token.line).as_str());
    r
}

pub open spec fn is_type_token(t: TokenType) -> bool {
    t == TokenType::Keyword(ReservedKeywords::Int) || t == TokenType::Keyword(ReservedKeywords::Char)
        || t == TokenType::Keyword(ReservedKeywords::Boolean) || t == TokenType::Identifier
}

/// The type a type token names.
pub open spec fn token_var_type(t: Token, source: Seq<char>) -> VarType {
    match t._type {
        TokenType::Keyword(ReservedKeywords::Int) => VarType::Int,
        TokenType::Keyword(ReservedKeywords::Char) => VarType::Char,
        TokenType::Keyword(ReservedKeywords::Boolean) => VarType::Boolean,
        _ => VarType::Class(token_text(t, source)),
    }
}

pub open spec fn class_kind_tokens() -> Seq<TokenType> {
    seq![TokenType::Keyword(ReservedKeywords::Static), TokenType::Keyword(ReservedKeywords::Field)]
}

pub open spec fn type_tokens() -> Seq<TokenType> {
    seq![
        TokenType::Keyword(ReservedKeywords::Int),
        TokenType::Keyword(ReservedKeywords::Char),
        TokenType::Keyword(ReservedKeywords::Boolean),
        TokenType::Identifier,
    ]
}

/// The type that `t` names, or the message for a token that names none.
fn variable_type(t: &Token, source: &[char]) -> (r: Result<VariableType, String>)
    requires
        token_fits(*t, source@),
    ensures
        r matches Ok(v) ==> is_type_token(t._type) && v@ == token_var_type(*t, source@),
        r matches Err(m) ==> !is_type_token(t._type) && m@ == expected_message(*t, type_tokens(), source@),
{
    match t._type {
        TokenType::Keyword(ReservedKeywords::Int) => Ok(VariableType::Int),
        TokenType::Keyword(ReservedKeywords::Char) => Ok(VariableType::Char),
        TokenType::Keyword(ReservedKeywords::Boolean) => Ok(VariableType::Boolean),
        TokenType::Identifier => Ok(VariableType::Identifier(t.get_source(source))),
        _ => {
            let expected = [
                TokenType::Keyword(ReservedKeywords::Int),
                TokenType::Keyword(ReservedKeywords::Char),
                TokenType::Keyword(ReservedKeywords::Boolean),
                TokenType::Identifier,
            ];
            assert(expected@ =~= type_tokens());
            Err(error_expected_token_type(t, &expected, source))
        },
    }
}

/// The stack-machine code of one class, and the symbols in scope.
pub struct CodeGen {
    class_symbol_table: Vec<(String, VariableMetaData)>,
    subroutine_symbol_table: Vec<(String, VariableMetaData)>,
    vm_code: Vec<String>,
    field_counter: usize,
    static_counter: usize,
    argument_counter: usize,
    local_counter: usize,
    flow_counter: usize,
}

/// The line `<word> <segment> <number>`.
pub open spec fn access_line(word: Seq<char>, k: VariableKind, n: nat) -> Seq<char> {
    word + " "@ + kind_segment(k) + " "@ + decimal(n)
}

/// The line `call <owner>.<name> <n>`.
pub open spec fn call_line(owner: Seq<char>, name: Seq<char>, n: int) -> Seq<char> {
    "call "@ + owner + "."@ + name + " "@ + signed_decimal(n)
}

/// A variable as the current subroutine sees it: its own before the class's.
pub open spec fn resolve(sub: Seq<(Seq<char>, Var)>, class: Seq<(Seq<char>, Var)>, name: Seq<char>) -> Option<Var> {
    match find_var(sub, name) {
        Some(v) => Some(v),
        None => find_var(class, name),
    }
}

pub open spec fn math_setup_lines() -> Seq<Seq<char>> {
    seq!["pop temp 0"@, "pop temp 1"@, "push constant 0"@, "push temp 0"@, "push temp 1"@]
}

impl CodeGen {
    /// The code so far, one line per instruction.
    pub closed spec fn code(&self) -> Seq<Seq<char>> {
        lines_of(self.vm_code@)
    }

    pub closed spec fn class_table(&self) -> Seq<(Seq<char>, Var)> {
        table_view(self.class_symbol_table@)
    }

    pub closed spec fn subroutine_table(&self) -> Seq<(Seq<char>, Var)> {
        table_view(self.subroutine_symbol_table@)
    }

    /// The next number of each kind, and of the flow labels.
    pub closed spec fn counter(&self, k: VariableKind) -> nat {
        match k {
            VariableKind::Field => self.field_counter as nat,
            VariableKind::Static => self.static_counter as nat,
            VariableKind::Argument => self.argument_counter as nat,
            VariableKind::Local => self.local_counter as nat,
        }
    }

    pub closed spec fn flows(&self) -> nat {
        self.flow_counter as nat
    }

    /// Everything but the code is as in `other`.
    pub open spec fn same_symbols(&self, other: &CodeGen) -> bool {
        &&& self.class_table() == other.class_table()
        &&& self.subroutine_table() == other.subroutine_table()
        &&& forall|k: VariableKind| #[trigger] self.counter(k) == other.counter(k)
        &&& self.flows() == other.flows()
    }

    /// Only `lines` were added to the code.
    pub open spec fn emitted(&self, old: &CodeGen, lines: Seq<Seq<char>>) -> bool {
        &&& self.same_symbols(old)
        &&& self.code() == old.code() + lines
    }

    pub fn new() -> (r: Self)
        ensures
            r.code() == Seq::<Seq<char>>::empty(),
            r.class_table() == Seq::<(Seq<char>, Var)>::empty(),
            r.subroutine_table() == Seq::<(Seq<char>, Var)>::empty(),
            forall|k: VariableKind| #[trigger] r.counter(k) == 0,
            r.flows() == 0,
    {
        let r = CodeGen {
            class_symbol_table: Vec::new(),
            subroutine_symbol_table: Vec::new(),
            vm_code: Vec::new(),
            field_counter: 0,
            static_counter: 0,
            argument_counter: 0,
            local_counter: 0,
            flow_counter: 0,
        };
        assert(r.code() =~= Seq::<Seq<char>>::empty());
        assert(r.class_table() =~= Seq::<(Seq<char>, Var)>::empty());
        assert(r.subroutine_table() =~= Seq::<(Seq<char>, Var)>::empty());
        r
    }

    /// Appends one line of code.
    fn emit(&mut self, line: String)
        ensures
            final(self).emitted(old(self), seq![line@]),
    {
        let ghost l = line@;
        self.vm_code.push(line);
        assert(self.code() =~= old(self).code() + seq![l]);
    }

    /// The code, one instruction per line.
    pub fn gen_vm_code(&self) -> (r: String)
        ensures
            r@ == join_lines(self.code()),
    {
        let ghost ls = self.code();
        let mut r = String::new();
        let mut i: usize = 0;
        assert(ls.take(0) =~= Seq::<Seq<char>>::empty());
        while i < self.vm_code.len()
            invariant
                ls == self.code(),
                0 <= i <= self.vm_code@.len(),
                r@ == join_lines(ls.take(i as int)),
            decreases self.vm_code@.len() - i,
        {
            assert(ls.take(i + 1).drop_last() =~= ls.take(i as int));
            if i > 0 {
                proof {
                    reveal_strlit("\n");
                }
                r.append("\n");
            } else {
                assert(ls.take(1) =~= seq![ls[0]]);
            }
            r.append(self.vm_code[i].as_str());
            i = i + 1;
        }
        assert(ls.take(self.vm_code@.len() as int) =~= ls);
        r
    }

    /// The variable called `name` in `table`, by its first entry.
    fn find(table: &Vec<(String, VariableMetaData)>, name: &str) -> (r: Option<usize>)
        ensures
            r matches Some(i) ==> i < table@.len() && find_var(table_view(table@), name@) == Some(table@[i as int].1@),
            r is None ==> find_var(table_view(table@), name@) is None,
    {
        let ghost t = table_view(table@);
        let mut i: usize = 0;
        assert(t.skip(0) =~= t);
        while i < table.len()
            invariant
                t == table_view(table@),
                0 <= i <= table@.len(),
                find_var(t, name@) == find_var(t.skip(i as int), name@),
            decreases table@.len() - i,
        {
            assert(t.skip(i as int)[0] == t[i as int]);
            if text_eq(table[i].0.as_str(), name) {
                return Some(i);
            }
            assert(t.skip(i as int).drop_first() =~= t.skip(i + 1));
            i = i + 1;
        }
        None
    }

    /// Adds a class variable: `kind` must be `static` or `field`, `_type` a
    /// type; a name declared before in the class is refused.
    pub fn insert_class_variable(&mut self, name: String, kind: &Token, _type: &Token, source: &[char]) -> (r: Result<(), String>)
        requires
            token_fits(*kind, source@),
            token_fits(*_type, source@),
            old(self).counter(VariableKind::Static) < usize::MAX,
            old(self).counter(VariableKind::Field) < usize::MAX,
        ensures
            final(self).code() == old(self).code(),
            final(self).subroutine_table() == old(self).subroutine_table(),
            ({
                let k = if kind._type == TokenType::Keyword(ReservedKeywords::Static) {
                    VariableKind::Static
                } else {
                    VariableKind::Field
                };
                let ok = (kind._type == TokenType::Keyword(ReservedKeywords::Static)
                    || kind._type == TokenType::Keyword(ReservedKeywords::Field))
                    && is_type_token(_type._type)
                    && find_var(old(self).class_table(), name@) is None;
                &&& r is Ok <==> ok
                &&& ok ==> {
                    &&& final(self).class_table() == old(self).class_table().push(
                        (name@, Var { ty: token_var_type(*_type, source@), kind: k, number: old(self).counter(k) }),
                    )
                    &&& forall|j: VariableKind| #[trigger] final(self).counter(j) == if j == k {
                        old(self).counter(j) + 1
                    } else {
                        old(self).counter(j)
                    }
                }
                &&& !ok ==> final(self).class_table() == old(self).class_table()
                &&& !ok ==> forall|j: VariableKind| #[trigger] final(self).counter(j) == old(self).counter(j)
                &&& !ok ==> final(self).flows() == old(self).flows()
                &&& r matches Err(m) ==> m@ == if !(kind._type == TokenType::Keyword(ReservedKeywords::Static)
                    || kind._type == TokenType::Keyword(ReservedKeywords::Field)) {
                    expected_message(*kind, class_kind_tokens(), source@)
                } else if !is_type_token(_type._type) {
                    expected_message(*_type, type_tokens(), source@)
                } else {
                    "Class variable "@ + name@ + " is defined again on line "@ + decimal(kind.line as nat)
                }
            }),
    {
        let variable_kind = match kind._type {
            TokenType::Keyword(ReservedKeywords::Static) => VariableKind::Static,
            TokenType::Keyword(ReservedKeywords::Field) => VariableKind::Field,
            _ => {
                let expected = [
                    TokenType::Keyword(ReservedKeywords::Static),
                    TokenType::Keyword(ReservedKeywords::Field),
                ];
                assert(expected@ =~= class_kind_tokens());
                return Err(error_expected_token_type(kind, &expected, source));
            },
        };
        let variable_type = match variable_type(_type, source) {
            Ok(t) => t,
            Err(m) => {
                return Err(m);
            },
        };
        if Self::find(&self.class_symbol_table, name.as_str()).is_some() {
            let mut m = join3("Class variable ", name.as_str(), " is defined again on line ");
            m.append(usize_text(kind.line).as_str());
            return Err(m);
        }
        let number = match variable_kind {
            VariableKind::Static => {
                self.static_counter = self.static_counter + 1;
                self.static_counter - 1
            },
            _ => {
                self.field_counter = self.field_counter + 1;
                self.field_counter - 1
            },
        };
        let ghost key = name@;
        let ghost before = self.class_symbol_table@;
        self.class_symbol_table.push((name, VariableMetaData { _type: variable_type, kind: variable_kind, number }));
        assert(self.class_table() =~= table_view(before).push(
            (key, Var { ty: token_var_type(*_type, source@), kind: variable_kind, number: number as nat }),
        ));
        Ok(())
    }

    /// Starts a subroutine of class `class_name`: only `this` is in scope, as
    /// argument 0.
    pub fn reset_subroutine_table(&mut self, class_name: String)
        ensures
            final(self).code() == old(self).code(),
            final(self).class_table() == old(self).class_table(),
            final(self).subroutine_table() == seq![
                ("this"@, Var { ty: VarType::Class(class_name@), kind: VariableKind::Argument, number: 0 }),
            ],
            final(self).counter(VariableKind::Argument) == 1,
            final(self).counter(VariableKind::Local) == 0,
            final(self).counter(VariableKind::Field) == old(self).counter(VariableKind::Field),
            final(self).counter(VariableKind::Static) == old(self).counter(VariableKind::Static),
            final(self).flows() == old(self).flows(),
    {
        let ghost c = class_name@;
        let mut table: Vec<(String, VariableMetaData)> = Vec::new();
        table.push((String::from_str("this"), VariableMetaData { _type: VariableType::Identifier(class_name), kind: VariableKind::Argument, number: 0 }));
        self.subroutine_symbol_table = table;
        self.argument_counter = 1;
        self.local_counter = 0;
        assert(self.subroutine_table() =~= seq![
            ("this"@, Var { ty: VarType::Class(c), kind: VariableKind::Argument, number: 0 }),
        ]);
    }

    /// Adds an argument or a local of the current subroutine; a name that
    /// the class or the subroutine declared before is refused.
    pub fn insert_subroutine_variable(&mut self, name: String, variable_kind: VariableKind, _type: &Token, source: &[char]) -> (r: Result<(), String>)
        requires
            variable_kind is Argument || variable_kind is Local,
            token_fits(*_type, source@),
            old(self).counter(variable_kind) < usize::MAX,
        ensures
            final(self).code() == old(self).code(),
            final(self).class_table() == old(self).class_table(),
            ({
                let ok = find_var(old(self).class_table(), name@) is None
                    && is_type_token(_type._type)
                    && find_var(old(self).subroutine_table(), name@) is None;
                &&& r is Ok <==> ok
                &&& ok ==> {
                    &&& final(self).subroutine_table() == old(self).subroutine_table().push(
                        (name@, Var { ty: token_var_type(*_type, source@), kind: variable_kind, number: old(self).counter(variable_kind) }),
                    )
                    &&& forall|j: VariableKind| #[trigger] final(self).counter(j) == if j == variable_kind {
                        old(self).counter(j) + 1
                    } else {
                        old(self).counter(j)
                    }
                }
                &&& !ok ==> final(self).subroutine_table() == old(self).subroutine_table()
                &&& !ok ==> forall|j: VariableKind| #[trigger] final(self).counter(j) == old(self).counter(j)
                &&& !ok ==> final(self).flows() == old(self).flows()
                &&& r matches Err(m) ==> m@ == match find_var(old(self).class_table(), name@) {
                    Some(v) => "Variable with the same name declared again at line "@ + decimal(_type.line as nat)
                        + ", was declared previously as a "@ + kind_word(v.kind) + " variable"@,
                    None => if !is_type_token(_type._type) {
                        expected_message(*_type, type_tokens(), source@)
                    } else {
                        "Class variable "@ + name@ + " is defined again on line "@ + decimal(_type.line as nat)
                    },
                }
            }),
    {
        match Self::find(&self.class_symbol_table, name.as_str()) {
            Some(i) => {
                let mut m = join2("Variable with the same name declared again at line ", usize_text(_type.line).as_str());
                m.append(", was declared previously as a ");
                m.append(self.class_symbol_table[i].1.kind.word());
                m.append(" variable");
                return Err(m);
            },
            None => {},
        }
        let variable_type = match variable_type(_type, source) {
            Ok(t) => t,
            Err(m) => {
                return Err(m);
            },
        };
        if Self::find(&self.subroutine_symbol_table, name.as_str()).is_some() {
            let mut m = join3("Class variable ", name.as_str(), " is defined again on line ");
            m.append(usize_text(_type.line).as_str());
            return Err(m);
        }
        let number = match variable_kind {
            VariableKind::Argument => {
                self.argument_counter = self.argument_counter + 1;
                self.argument_counter - 1
            },
            _ => {
                self.local_counter = self.local_counter + 1;
                self.local_counter - 1
            },
        };
        let ghost key = name@;
        let ghost before = self.subroutine_symbol_table@;
        self.subroutine_symbol_table.push((name, VariableMetaData { _type: variable_type, kind: variable_kind, number }));
        assert(self.subroutine_table() =~= table_view(before).push(
            (key, Var { ty: token_var_type(*_type, source@), kind: variable_kind, number: number as nat }),
        ));
        Ok(())
    }

    pub fn push_integer_constant(&mut self, x: i16)
        ensures
            final(self).emitted(old(self), seq!["push constant "@ + signed_decimal(x as int)]),
    {
        self.emit(join2("push constant ", i16_text(x).as_str()));
    }

    pub fn push_pointer(&mut self, no: i16)
        ensures
            final(self).emitted(old(self), seq!["push pointer "@ + signed_decimal(no as int)]),
    {
        self.emit(join2("push pointer ", i16_text(no).as_str()));
    }

    pub fn pop_pointer(&mut self, no: i16)
        ensures
            final(self).emitted(old(self), seq!["pop pointer "@ + signed_decimal(no as int)]),
    {
        self.emit(join2("pop pointer ", i16_text(no).as_str()));
    }

    pub fn push_op(&mut self, op: VM_OPS)
        ensures
            final(self).emitted(old(self), seq![op_word(op)]),
    {
        self.emit(op.to_vm_string());
    }

    /// The variable called `variable_name`, the subroutine's before the
    /// class's.
    fn get_variable_metadata(&self, variable_name: &String) -> (r: Result<&VariableMetaData, String>)
        ensures
            r matches Ok(v) ==> resolve(self.subroutine_table(), self.class_table(), variable_name@) == Some(v@),
            r matches Err(m) ==> resolve(self.subroutine_table(), self.class_table(), variable_name@) is None
                && m@ == "Variable "@ + variable_name@ + " not declared before"@,
    {
        match Self::find(&self.subroutine_symbol_table, variable_name.as_str()) {
            Some(i) => Ok(&self.subroutine_symbol_table[i].1),
            None => match Self::find(&self.class_symbol_table, variable_name.as_str()) {
                Some(i) => Ok(&self.class_symbol_table[i].1),
                None => Err(join3("Variable ", variable_name.as_str(), " not declared before")),
            },
        }
    }

    /// The line `<word> <segment> <number>` for a variable.
    fn access(word: &str, v: &VariableMetaData) -> (r: String)
        ensures
            r@ == access_line(word@, v.kind, v.number as nat),
    {
        let mut line = join3(word, " ", v.kind.to_vm_segment().as_str());
        line.append(" ");
        line.append(usize_text(v.number).as_str());
        line
    }

    /// Pushes the variable called `variable_name`.
    pub fn push_variable(&mut self, variable_name: &String) -> (r: Result<(), String>)
        ensures
            ({
                let v = resolve(old(self).subroutine_table(), old(self).class_table(), variable_name@);
                &&& r is Ok <==> v is Some
                &&& v matches Some(var) ==> final(self).emitted(old(self), seq![access_line("push"@, var.kind, var.number)])
                &&& v is None ==> *final(self) == *old(self)
            }),
    {
        let line = match self.get_variable_metadata(variable_name) {
            Ok(v) => Self::access("push", v),
            Err(m) => {
                return Err(m);
            },
        };
        self.emit(line);
        Ok(())
    }

    /// Pops into the variable called `variable_name`.
    pub fn pop_variable(&mut self, variable_name: &String) -> (r: Result<(), String>)
        ensures
            ({
                let v = resolve(old(self).subroutine_table(), old(self).class_table(), variable_name@);
                &&& r is Ok <==> v is Some
                &&& v matches Some(var) ==> final(self).emitted(old(self), seq![access_line("pop"@, var.kind, var.number)])
                &&& v is None ==> *final(self) == *old(self)
            }),
    {
        let line = match self.get_variable_metadata(variable_name) {
            Ok(v) => Self::access("pop", v),
            Err(m) => {
                return Err(m);
            },
        };
        self.emit(line);
        Ok(())
    }

    pub fn pop_temp(&mut self, idx: i16)
        ensures
            final(self).emitted(old(self), seq!["pop temp "@ + signed_decimal(idx as int)]),
    {
        self.emit(join2("pop temp ", i16_text(idx).as_str()));
    }

    pub fn push_temp(&mut self)
        ensures
            final(self).emitted(old(self), seq!["push temp 0"@]),
    {
        self.emit(String::from_str("push temp 0"));
    }

    fn push_temp_idx(&mut self, idx: i16)
        ensures
            final(self).emitted(old(self), seq!["push temp "@ + signed_decimal(idx as int)]),
    {
        self.emit(join2("push temp ", i16_text(idx).as_str()));
    }

    pub fn push_that(&mut self)
        ensures
            final(self).emitted(old(self), seq!["push that 0"@]),
    {
        self.emit(String::from_str("push that 0"));
    }

    pub fn pop_that(&mut self)
        ensures
            final(self).emitted(old(self), seq!["pop that 0"@]),
    {
        self.emit(String::from_str("pop that 0"));
    }

    /// A fresh flow label of class `class_name`.
    pub fn get_flow_counter(&mut self, class_name: &str) -> (r: String)
        requires
            old(self).flows() < usize::MAX,
        ensures
            r@ == class_name@ + ".flow."@ + decimal(old(self).flows()),
            final(self).flows() == old(self).flows() + 1,
            final(self).code() == old(self).code(),
            final(self).class_table() == old(self).class_table(),
            final(self).subroutine_table() == old(self).subroutine_table(),
            forall|k: VariableKind| #[trigger] final(self).counter(k) == old(self).counter(k),
    {
        let k = self.flow_counter;
        self.flow_counter = self.flow_counter + 1;
        join3(class_name, ".flow.", usize_text(k).as_str())
    }

    pub fn push_if_goto(&mut self, label: &str)
        ensures
            final(self).emitted(old(self), seq!["if-goto "@ + label@]),
    {
        self.emit(join2("if-goto ", label));
    }

    pub fn push_goto(&mut self, label: &str)
        ensures
            final(self).emitted(old(self), seq!["goto "@ + label@]),
    {
        self.emit(join2("goto ", label));
    }

    pub fn push_label(&mut self, label: &str)
        ensures
            final(self).emitted(old(self), seq!["label "@ + label@]),
    {
        self.emit(join2("label ", label));
    }

    /// How many entries of `table` are of kind `k`.
    fn count(table: &Vec<(String, VariableMetaData)>, k: VariableKind) -> (r: usize)
        ensures
            r == count_kind(table_view(table@), k),
    {
        let ghost t = table_view(table@);
        let mut n: usize = 0;
        let mut i: usize = 0;
        assert(t.take(0) =~= Seq::<(Seq<char>, Var)>::empty());
        while i < table.len()
            invariant
                t == table_view(table@),
                0 <= i <= table@.len(),
                n == count_kind(t.take(i as int), k),
                n <= i,
            decreases table@.len() - i,
        {
            assert(t.take(i + 1).drop_last() =~= t.take(i as int));
            if table[i].1.kind == k {
                n = n + 1;
            }
            i = i + 1;
        }
        assert(t.take(table@.len() as int) =~= t);
        n
    }

    /// Declares `class_name.function_name` with as many locals as the
    /// subroutine declared.
    pub fn push_function(&mut self, class_name: &str, function_name: &str)
        ensures
            final(self).emitted(
                old(self),
                seq![
                    "function "@ + class_name@ + "."@ + function_name@ + " "@
                        + decimal(count_kind(old(self).subroutine_table(), VariableKind::Local)),
                ],
            ),
    {
        let n = Self::count(&self.subroutine_symbol_table, VariableKind::Local);
        let mut line = join3("function ", class_name, ".");
        line.append(function_name);
        line.append(" ");
        line.append(usize_text(n).as_str());
        self.emit(line);
    }

    /// Allocates the fields of a new object and makes it `this`.
    pub fn constructor_alloc(&mut self)
        ensures
            final(self).emitted(
                old(self),
                seq![
                    "push constant "@ + decimal(count_kind(old(self).class_table(), VariableKind::Field)),
                    "call Memory.alloc 1"@,
                    "pop pointer 0"@,
                ],
            ),
    {
        let n = Self::count(&self.class_symbol_table, VariableKind::Field);
        self.emit(join2("push constant ", usize_text(n).as_str()));
        self.emit(String::from_str("call Memory.alloc 1"));
        proof {
            reveal_strlit("0");
            reveal_strlit("pop pointer ");
            reveal_strlit("pop pointer 0");
        }
        self.pop_pointer(0);
        assert("pop pointer "@ + signed_decimal(0) =~= "pop pointer 0"@);
        assert(self.code() =~= old(self).code() + seq![
            "push constant "@ + decimal(count_kind(old(self).class_table(), VariableKind::Field)),
            "call Memory.alloc 1"@,
            "pop pointer 0"@,
        ]);
    }

    /// The line `call <owner>.<name> <n>`.
    fn call_text(owner: &str, name: &str, n_args: i16) -> (r: String)
        ensures
            r@ == call_line(owner@, name@, n_args as int),
    {
        let mut line = join3("call ", owner, ".");
        line.append(name);
        line.append(" ");
        line.append(i16_text(n_args).as_str());
        line
    }

    pub fn push_call(&mut self, class_name: &str, function_name: &str, n_args: i16)
        ensures
            final(self).emitted(old(self), seq![call_line(class_name@, function_name@, n_args as int)]),
    {
        self.emit(Self::call_text(class_name, function_name, n_args));
    }

    /// Calls `l1.l2`: a method of the class of variable `l1` when `l1` is a
    /// variable of a class type, else a function of class `l1`.
    pub fn complex_subroutine_call(&mut self, l1: &str, l2: &str, n_args: i16) -> (r: Result<(), String>)
        ensures
            match resolve(old(self).subroutine_table(), old(self).class_table(), l1@) {
                None => r is Ok && final(self).emitted(old(self), seq![call_line(l1@, l2@, n_args as int)]),
                Some(v) => match v.ty {
                    VarType::Class(c) => r is Ok && final(self).emitted(old(self), seq![call_line(c, l2@, n_args as int)]),
                    _ => r matches Err(m) && *final(self) == *old(self)
                        && m@ == "subroutine call on, "@ + l1@ + ", with type "@ + var_type_word(v.ty) + " is not possible"@,
                },
            },
    {
        let found = match Self::find(&self.subroutine_symbol_table, l1) {
            Some(i) => Some(&self.subroutine_symbol_table[i].1),
            None => match Self::find(&self.class_symbol_table, l1) {
                Some(i) => Some(&self.class_symbol_table[i].1),
                None => None,
            },
        };
        let line = match found {
            None => Self::call_text(l1, l2, n_args),
            Some(v) => match &v._type {
                VariableType::Identifier(class_name) => Self::call_text(class_name.as_str(), l2, n_args),
                other => {
                    let word = match other {
                        VariableType::Int => "Int",
                        VariableType::Char => "Char",
                        _ => "Boolean",
                    };
                    let mut m = join3("subroutine call on, ", l1, ", with type ");
                    m.append(word);
                    m.append(" is not possible");
                    return Err(m);
                },
            },
        };
        self.emit(line);
        Ok(())
    }

    pub fn push_return(&mut self)
        ensures
            final(self).emitted(old(self), seq!["return"@]),
    {
        self.emit(String::from_str("return"));
    }

    /// Comments are not written into the code.
    pub fn push_comment(&mut self, comment: String)
        ensures
            *final(self) == *old(self),
    {
    }

    /// Moves the two operands under a 0 argument, as the math library's
    /// multiply and divide expect.
    fn setup_math_call(&mut self)
        ensures
            final(self).emitted(old(self), math_setup_lines()),
    {
        proof {
            reveal_strlit("0");
            reveal_strlit("1");
            reveal_strlit("pop temp ");
            reveal_strlit("push temp ");
            reveal_strlit("push constant ");
            reveal_strlit("pop temp 0");
            reveal_strlit("pop temp 1");
            reveal_strlit("push constant 0");
            reveal_strlit("push temp 0");
            reveal_strlit("push temp 1");
        }
        self.pop_temp(0);
        self.pop_temp(1);
        self.push_integer_constant(0);
        self.push_temp_idx(0);
        self.push_temp_idx(1);
        assert(decimal(0) =~= seq!['0']);
        assert(decimal(1) =~= seq!['1']);
        assert("pop temp "@ + signed_decimal(0) =~= "pop temp 0"@);
        assert("pop temp "@ + signed_decimal(1) =~= "pop temp 1"@);
        assert("push constant "@ + signed_decimal(0) =~= "push constant 0"@);
        assert("push temp "@ + signed_decimal(0) =~= "push temp 0"@);
        assert("push temp "@ + signed_decimal(1) =~= "push temp 1"@);
        assert(self.code() =~= old(self).code() + math_setup_lines());
    }

    pub fn call_math_multiply(&mut self)
        ensures
            final(self).emitted(old(self), math_setup_lines() + seq!["call Math.multiply 3"@]),
    {
        self.setup_math_call();
        let ghost mid = self.code();
        self.push_call("Math", "multiply", 3);
        proof {
            reveal_strlit("call ");
            reveal_strlit("Math");
            reveal_strlit(".");
            reveal_strlit("multiply");
            reveal_strlit(" ");
            reveal_strlit("call Math.multiply 3");
            assert(decimal(3) =~= seq!['3']);
        }
        assert(call_line("Math"@, "multiply"@, 3) =~= "call Math.multiply 3"@);
        assert(self.code() =~= old(self).code() + (math_setup_lines() + seq!["call Math.multiply 3"@]));
    }

    pub fn call_math_divide(&mut self)
        ensures
            final(self).emitted(old(self), math_setup_lines() + seq!["call Math.divide 3"@]),
    {
        self.setup_math_call();
        self.push_call("Math", "divide", 3);
        proof {
            reveal_strlit("call ");
            reveal_strlit("Math");
            reveal_strlit(".");
            reveal_strlit("divide");
            reveal_strlit(" ");
            reveal_strlit("call Math.divide 3");
            assert(decimal(3) =~= seq!['3']);
        }
        assert(call_line("Math"@, "divide"@, 3) =~= "call Math.divide 3"@);
        assert(self.code() =~= old(self).code() + (math_setup_lines() + seq!["call Math.divide 3"@]));
    }
}

impl Default for CodeGen {
    fn default() -> (r: Self)
        ensures
            r.code() == Seq::<Seq<char>>::empty(),
            r.class_table() == Seq::<(Seq<char>, Var)>::empty(),
            r.subroutine_table() == Seq::<(Seq<char>, Var)>::empty(),
            forall|k: VariableKind| #[trigger] r.counter(k) == 0,
            r.flows() == 0,
    {
        Self::new()
    }
}

} // verus!
