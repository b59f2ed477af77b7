//! The translation driver: validates each instruction record, hands it to
//! the emitter, tracks the enclosing function, and keeps the first error.
use vstd::prelude::*;
use crate::code_gen::{
    qualified_label, lemma_label_uniqueness, CodeGen, add_asm, sub_asm, neg_asm, and_asm, or_asm, not_asm, compare_asm, push_asm,
    pop_asm, label_asm, goto_asm, if_goto_asm, function_asm, call_asm, return_asm,
};
use crate::parser::{LineSource, Parser, parse_spec, records_of, plain_word, plain_lines, is_space, join_words, unit_text, numbered_records, lemma_parse_unit};
use crate::segment::{MemorySegments, segment_token};
use crate::text::{decimal, is_digit, lemma_decimal_is_digits, chars_of, is_digits, digits_value, lines_of, parse_unsigned, text_eq, unsigned_digits, append_lines};

verus! {

#[derive(Debug, Clone, Copy, PartialEq, Eq, Structural)]
pub enum ErrorKind {
    StructuralArityMismatch,
    UnknownCommand,
    UnknownSegment,
    MalformedIndex,
    IndexOutOfRange,
    IllegalOperation,
    InvalidLabelSyntax,
}

/// The first error of a unit and the 1-based line it stands on.
#[derive(Debug, Clone, Copy, PartialEq, Eq, Structural)]
pub struct CompileError {
    pub line: usize,
    pub kind: ErrorKind,
}

#[derive(Debug, Clone, Copy, PartialEq, Eq, Structural)]
pub enum ArithOp {
    Add,
    Sub,
    Neg,
    Eq,
    Gt,
    Lt,
    And,
    Or,
    Not,
}

/// A validated instruction.
pub enum Instruction {
    Arithmetic(ArithOp),
    Push(MemorySegments, usize),
    Pop(MemorySegments, usize),
    Label(String),
    Goto(String),
    IfGoto(String),
    Function(String, usize),
    Call(String, usize),
    Return,
}

/// The meaning of an instruction, over plain values.
pub ghost enum Instr {
    Arithmetic(ArithOp),
    Push(MemorySegments, nat),
    Pop(MemorySegments, nat),
    Label(Seq<char>),
    Goto(Seq<char>),
    IfGoto(Seq<char>),
    Function(Seq<char>, nat),
    Call(Seq<char>, nat),
    Return,
}

impl Instruction {
    pub open spec fn view(&self) -> Instr {
        match self {
            Instruction::Arithmetic(op) => Instr::Arithmetic(*op),
            Instruction::Push(s, i) => Instr::Push(*s, *i as nat),
            Instruction::Pop(s, i) => Instr::Pop(*s, *i as nat),
            Instruction::Label(l) => Instr::Label(l@),
            Instruction::Goto(l) => Instr::Goto(l@),
            Instruction::IfGoto(l) => Instr::IfGoto(l@),
            Instruction::Function(f, n) => Instr::Function(f@, *n as nat),
            Instruction::Call(f, n) => Instr::Call(f@, *n as nat),
            Instruction::Return => Instr::Return,
        }
    }
}

/// The command word of an operator or of `return`, which take no operand.
pub open spec fn single_op(cmd: Seq<char>) -> Option<Instr> {
    if cmd == "add"@ {
        Some(Instr::Arithmetic(ArithOp::Add))
    } else if cmd == "sub"@ {
        Some(Instr::Arithmetic(ArithOp::Sub))
    } else if cmd == "neg"@ {
        Some(Instr::Arithmetic(ArithOp::Neg))
    } else if cmd == "eq"@ {
        Some(Instr::Arithmetic(ArithOp::Eq))
    } else if cmd == "gt"@ {
        Some(Instr::Arithmetic(ArithOp::Gt))
    } else if cmd == "lt"@ {
        Some(Instr::Arithmetic(ArithOp::Lt))
    } else if cmd == "and"@ {
        Some(Instr::Arithmetic(ArithOp::And))
    } else if cmd == "or"@ {
        Some(Instr::Arithmetic(ArithOp::Or))
    } else if cmd == "not"@ {
        Some(Instr::Arithmetic(ArithOp::Not))
    } else if cmd == "return"@ {
        Some(Instr::Return)
    } else {
        None
    }
}

pub open spec fn is_branch_command(cmd: Seq<char>) -> bool {
    cmd == "label"@ || cmd == "goto"@ || cmd == "if-goto"@
}

pub open spec fn is_triple_command(cmd: Seq<char>) -> bool {
    cmd == "push"@ || cmd == "pop"@ || cmd == "function"@ || cmd == "call"@
}

pub open spec fn is_label_start(c: char) -> bool {
    ('a' <= c && c <= 'z') || ('A' <= c && c <= 'Z') || c == '_' || c == '.' || c == ':'
}

pub open spec fn is_label_char(c: char) -> bool {
    is_label_start(c) || ('0' <= c && c <= '9')
}

/// A label or function name: a letter, `_`, `.` or `:`, then letters,
/// digits, `_`, `.` or `:`.
pub open spec fn is_label(s: Seq<char>) -> bool {
    &&& s.len() > 0
    &&& is_label_start(s[0])
    &&& forall|i: int| 1 <= i < s.len() ==> is_label_char(#[trigger] s[i])
}

/// The segment that `token` names.
pub open spec fn segment_named(token: Seq<char>) -> Option<MemorySegments> {
    if exists|s: MemorySegments| segment_token(s) == token {
        Some(choose|s: MemorySegments| segment_token(s) == token)
    } else {
        None
    }
}

/// The index operand, when it is a decimal number (after one optional `+`)
/// that fits.
pub open spec fn index_operand(token: Seq<char>) -> Option<nat> {
    let d = unsigned_digits(token);
    if is_digits(d) && digits_value(d) <= usize::MAX {
        Some(digits_value(d))
    } else {
        None
    }
}

/// Whether `i` lies outside the range of a fixed-size segment.
pub open spec fn out_of_range(seg: MemorySegments, i: nat) -> bool {
    (seg is Temp && i > 7) || (seg is Pointer && i > 1)
}

/// Decodes `push` or `pop` with its two operands.
pub open spec fn decode_access(is_pop: bool, seg: Seq<char>, index: Seq<char>) -> Result<Instr, ErrorKind> {
    match segment_named(seg) {
        None => Err(ErrorKind::UnknownSegment),
        Some(s) => match index_operand(index) {
            None => Err(ErrorKind::MalformedIndex),
            Some(i) => if out_of_range(s, i) {
                Err(ErrorKind::IndexOutOfRange)
            } else if is_pop && s is Constant {
                Err(ErrorKind::IllegalOperation)
            } else if is_pop {
                Ok(Instr::Pop(s, i))
            } else {
                Ok(Instr::Push(s, i))
            },
        },
    }
}

/// Decodes `function` or `call` with its name and count.
pub open spec fn decode_procedure(is_call: bool, name: Seq<char>, count: Seq<char>) -> Result<Instr, ErrorKind> {
    if !is_label(name) {
        Err(ErrorKind::InvalidLabelSyntax)
    } else {
        match index_operand(count) {
            None => Err(ErrorKind::MalformedIndex),
            Some(n) => if is_call && n + 5 > usize::MAX {
                Err(ErrorKind::IndexOutOfRange)
            } else if is_call {
                Ok(Instr::Call(name, n))
            } else {
                Ok(Instr::Function(name, n))
            },
        }
    }
}

/// What an instruction record means, or why it is rejected.
pub open spec fn decode(tokens: Seq<Seq<char>>) -> Result<Instr, ErrorKind> {
    if tokens.len() == 0 {
        Err(ErrorKind::StructuralArityMismatch)
    } else {
        let cmd = tokens[0];
        if single_op(cmd) is Some {
            if tokens.len() != 1 {
                Err(ErrorKind::StructuralArityMismatch)
            } else {
                Ok(single_op(cmd)->0)
            }
        } else if is_branch_command(cmd) {
            if tokens.len() != 2 {
                Err(ErrorKind::StructuralArityMismatch)
            } else if !is_label(tokens[1]) {
                Err(ErrorKind::InvalidLabelSyntax)
            } else if cmd == "label"@ {
                Ok(Instr::Label(tokens[1]))
            } else if cmd == "goto"@ {
                Ok(Instr::Goto(tokens[1]))
            } else {
                Ok(Instr::IfGoto(tokens[1]))
            }
        } else if is_triple_command(cmd) {
            if tokens.len() != 3 {
                Err(ErrorKind::StructuralArityMismatch)
            } else if cmd == "push"@ || cmd == "pop"@ {
                decode_access(cmd == "pop"@, tokens[1], tokens[2])
            } else {
                decode_procedure(cmd == "call"@, tokens[1], tokens[2])
            }
        } else {
            Err(ErrorKind::UnknownCommand)
        }
    }
}

/// The state of a unit's translation after some of its records.
pub ghost struct UnitState {
    pub comparisons: nat,
    pub calls: nat,
    pub function: Seq<char>,
    pub out: Seq<Seq<char>>,
    pub error: Option<(nat, ErrorKind)>,
}

pub open spec fn initial_state() -> UnitState {
    UnitState { comparisons: 0, calls: 0, function: seq![], out: seq![], error: None }
}

pub open spec fn comparison_word(op: ArithOp) -> Seq<char> {
    match op {
        ArithOp::Eq => "eq"@,
        ArithOp::Gt => "gt"@,
        _ => "lt"@,
    }
}

pub open spec fn arithmetic_asm(op: ArithOp) -> Seq<Seq<char>> {
    match op {
        ArithOp::Add => add_asm(),
        ArithOp::Sub => sub_asm(),
        ArithOp::Neg => neg_asm(),
        ArithOp::And => and_asm(),
        ArithOp::Or => or_asm(),
        _ => not_asm(),
    }
}

pub open spec fn is_comparison_op(op: ArithOp) -> bool {
    op is Eq || op is Gt || op is Lt
}

/// The effect of one valid instruction.
pub open spec fn emit(file: Seq<char>, st: UnitState, ins: Instr) -> UnitState {
    match ins {
        Instr::Arithmetic(op) => if is_comparison_op(op) {
            UnitState {
                comparisons: st.comparisons + 1,
                out: st.out + compare_asm(file, comparison_word(op), st.comparisons),
                ..st
            }
        } else {
            UnitState { out: st.out + arithmetic_asm(op), ..st }
        },
        Instr::Push(s, i) => UnitState { out: st.out + push_asm(file, s, i), ..st },
        Instr::Pop(s, i) => UnitState { out: st.out + pop_asm(file, s, i), ..st },
        Instr::Label(l) => UnitState { out: st.out + label_asm(st.function, l), ..st },
        Instr::Goto(l) => UnitState { out: st.out + goto_asm(st.function, l), ..st },
        Instr::IfGoto(l) => UnitState { out: st.out + if_goto_asm(st.function, l), ..st },
        Instr::Function(f, n) => UnitState { out: st.out + function_asm(f, n), function: f, ..st },
        Instr::Call(f, n) => UnitState {
            calls: st.calls + 1,
            out: st.out + call_asm(file, f, n, st.calls),
            ..st
        },
        Instr::Return => UnitState { out: st.out + return_asm(), ..st },
    }
}

/// The effect of one record: a valid one is emitted, an invalid one is
/// recorded unless an earlier error already was.
pub open spec fn step(file: Seq<char>, st: UnitState, rec: (Seq<Seq<char>>, nat)) -> UnitState {
    match decode(rec.0) {
        Ok(ins) => emit(file, st, ins),
        Err(e) => UnitState {
            error: if st.error is None {
                Some((rec.1, e))
            } else {
                st.error
            },
            ..st
        },
    }
}

/// The state after all of `recs`, from the start of a unit.
pub open spec fn run_spec(file: Seq<char>, recs: Seq<(Seq<Seq<char>>, nat)>) -> UnitState
    decreases recs.len(),
{
    if recs.len() == 0 {
        initial_state()
    } else {
        step(file, run_spec(file, recs.drop_last()), recs.last())
    }
}

/// What a unit translates to: its assembly lines, or its first error.
#[verifier::opaque]
pub open spec fn translate(file: Seq<char>, source: Seq<char>) -> Result<Seq<Seq<char>>, (nat, ErrorKind)> {
    let st = run_spec(file, parse_spec(source));
    match st.error {
        Some(e) => Err(e),
        None => Ok(st.out),
    }
}

pub open spec fn decoded(r: Result<Instruction, ErrorKind>) -> Result<Instr, ErrorKind> {
    match r {
        Ok(i) => Ok(i@),
        Err(e) => Err(e),
    }
}

/// The instruction of a comparison word, for use by the emitter.
fn comparison_text(op: ArithOp) -> (r: &'static str)
    requires
        is_comparison_op(op),
    ensures
        r@ == comparison_word(op),
{
    match op {
        ArithOp::Eq => "eq",
        ArithOp::Gt => "gt",
        _ => "lt",
    }
}

pub struct Compiler {
    line_sources: Vec<LineSource>,
    output: Vec<String>,
    file_name: String,
    pub had_error: bool,
    first_error: Option<CompileError>,
    code_gen: CodeGen,
    current_function_name: String,
}

impl Compiler {
    /// The records of the unit.
    pub closed spec fn records(&self) -> Seq<(Seq<Seq<char>>, nat)> {
        records_of(self.line_sources@)
    }

    /// The name of the unit, which qualifies its static cells and labels.
    pub closed spec fn file(&self) -> Seq<char> {
        self.file_name@
    }

    pub closed spec fn state(&self) -> UnitState {
        UnitState {
            comparisons: self.code_gen.comparisons(),
            calls: self.code_gen.calls(),
            function: self.current_function_name@,
            out: lines_of(self.output@),
            error: match self.first_error {
                Some(e) => Some((e.line as nat, e.kind)),
                None => None,
            },
        }
    }

    pub closed spec fn wf(&self) -> bool {
        self.had_error == self.first_error is Some
    }

    pub fn new(source: String, file_name: String) -> (r: Self)
        requires
            source@.len() < usize::MAX,
        ensures
            r.wf(),
            r.records() == parse_spec(source@),
            r.file() == file_name@,
            r.state() == initial_state(),
    {
        let line_sources = Parser::parse(source);
        let r = Compiler {
            line_sources,
            output: Vec::new(),
            file_name,
            had_error: false,
            first_error: None,
            code_gen: CodeGen::new(),
            current_function_name: String::new(),
        };
        assert(lines_of(r.output@) =~= Seq::<Seq<char>>::empty());
        r
    }

    /// Records an error on `line` unless one was recorded before.
    fn error(&mut self, line: usize, kind: ErrorKind)
        requires
            old(self).wf(),
        ensures
            final(self).wf(),
            final(self).records() == old(self).records(),
            final(self).file() == old(self).file(),
            final(self).state() == (UnitState {
                error: if old(self).state().error is None {
                    Some((line as nat, kind))
                } else {
                    old(self).state().error
                },
                ..old(self).state()
            }),
    {
        if !self.had_error {
            self.had_error = true;
            self.first_error = Some(CompileError { line, kind });
        }
    }

    /// Whether `i` is out of range for `memory_segment`; if so, the error is
    /// recorded on the record's line.
    pub fn push_pop_check_memory_segment_i(
        &mut self,
        line_source: &LineSource,
        memory_segment: &MemorySegments,
        i: usize,
    ) -> (r: bool)
        requires
            old(self).wf(),
        ensures
            r == out_of_range(*memory_segment, i as nat),
            final(self).wf(),
            final(self).records() == old(self).records(),
            final(self).file() == old(self).file(),
            final(self).state() == if r && old(self).state().error is None {
                UnitState {
                    error: Some((line_source.line as nat, ErrorKind::IndexOutOfRange)),
                    ..old(self).state()
                }
            } else {
                old(self).state()
            },
    {
        let bad = Self::index_out_of_range(memory_segment, i);
        if bad {
            self.error(line_source.line, ErrorKind::IndexOutOfRange);
        }
        bad
    }

    fn index_out_of_range(memory_segment: &MemorySegments, i: usize) -> (r: bool)
        ensures
            r == out_of_range(*memory_segment, i as nat),
    {
        match memory_segment {
            MemorySegments::Temp => i > 7,
            MemorySegments::Pointer => i > 1,
            _ => false,
        }
    }

    /// Whether `label` is a valid label or function name.
    pub fn is_valid_label(label: &String) -> (r: bool)
        ensures
            r == is_label(label@),
    {
        let chars = chars_of(label.as_str());
        if chars.len() == 0 {
            return false;
        }
        let c = chars[0];
        if !(('a' <= c && c <= 'z') || ('A' <= c && c <= 'Z') || c == '_' || c == '.' || c == ':') {
            return false;
        }
        let mut i: usize = 1;
        while i < chars.len()
            invariant
                chars@ == label@,
                1 <= i <= chars@.len(),
                forall|j: int| 1 <= j < i ==> is_label_char(#[trigger] chars@[j]),
            decreases chars@.len() - i,
        {
            let c = chars[i];
            if !(('a' <= c && c <= 'z') || ('A' <= c && c <= 'Z') || ('0' <= c && c <= '9') || c == '_' || c == '.' || c == ':') {
                assert(!is_label_char(chars@[i as int]));
                return false;
            }
            i = i + 1;
        }
        true
    }

    /// The instruction of a one-word command.
    fn single_command(cmd: &str) -> (r: Option<Instruction>)
        ensures
            match r {
                Some(i) => single_op(cmd@) == Some(i@),
                None => single_op(cmd@) is None,
            },
    {
        if text_eq(cmd, "add") {
            Some(Instruction::Arithmetic(ArithOp::Add))
        } else if text_eq(cmd, "sub") {
            Some(Instruction::Arithmetic(ArithOp::Sub))
        } else if text_eq(cmd, "neg") {
            Some(Instruction::Arithmetic(ArithOp::Neg))
        } else if text_eq(cmd, "eq") {
            Some(Instruction::Arithmetic(ArithOp::Eq))
        } else if text_eq(cmd, "gt") {
            Some(Instruction::Arithmetic(ArithOp::Gt))
        } else if text_eq(cmd, "lt") {
            Some(Instruction::Arithmetic(ArithOp::Lt))
        } else if text_eq(cmd, "and") {
            Some(Instruction::Arithmetic(ArithOp::And))
        } else if text_eq(cmd, "or") {
            Some(Instruction::Arithmetic(ArithOp::Or))
        } else if text_eq(cmd, "not") {
            Some(Instruction::Arithmetic(ArithOp::Not))
        } else if text_eq(cmd, "return") {
            Some(Instruction::Return)
        } else {
            None
        }
    }

    /// Decodes `label`, `goto` or `if-goto` with its operand.
    fn double_command(cmd: &str, label: &String) -> (r: Result<Instruction, ErrorKind>)
        requires
            single_op(cmd@) is None,
            is_branch_command(cmd@),
        ensures
            decoded(r) == decode(seq![cmd@, label@]),
    {
        if !Self::is_valid_label(label) {
            return Err(ErrorKind::InvalidLabelSyntax);
        }
        let l = label.clone();
        if text_eq(cmd, "label") {
            Ok(Instruction::Label(l))
        } else if text_eq(cmd, "goto") {
            Ok(Instruction::Goto(l))
        } else {
            Ok(Instruction::IfGoto(l))
        }
    }

    /// Decodes `push` or `pop`.
    fn push_pop(is_pop: bool, seg: &str, index: &str) -> (r: Result<Instruction, ErrorKind>)
        ensures
            decoded(r) == decode_access(is_pop, seg@, index@),
    {
        proof {
            crate::segment::lemma_segment_tokens_distinct();
        }
        let memory_segment = match MemorySegments::from_token(seg) {
            Ok(s) => s,
            Err(_) => {
                return Err(ErrorKind::UnknownSegment);
            },
        };
        assert(segment_named(seg@) == Some(memory_segment));
        let i = match parse_unsigned(index) {
            Some(i) => i,
            None => {
                return Err(ErrorKind::MalformedIndex);
            },
        };
        if Self::index_out_of_range(&memory_segment, i) {
            return Err(ErrorKind::IndexOutOfRange);
        }
        if is_pop {
            if let MemorySegments::Constant = memory_segment {
                return Err(ErrorKind::IllegalOperation);
            }
            Ok(Instruction::Pop(memory_segment, i))
        } else {
            Ok(Instruction::Push(memory_segment, i))
        }
    }

    /// Decodes `function` or `call`.
    fn procedure(is_call: bool, name: &String, count: &str) -> (r: Result<Instruction, ErrorKind>)
        ensures
            decoded(r) == decode_procedure(is_call, name@, count@),
    {
        if !Self::is_valid_label(name) {
            return Err(ErrorKind::InvalidLabelSyntax);
        }
        let n = match parse_unsigned(count) {
            Some(n) => n,
            None => {
                return Err(ErrorKind::MalformedIndex);
            },
        };
        if is_call {
            if n > usize::MAX - 5 {
                return Err(ErrorKind::IndexOutOfRange);
            }
            Ok(Instruction::Call(name.clone(), n))
        } else {
            Ok(Instruction::Function(name.clone(), n))
        }
    }

    /// Decodes a three-word command.
    fn triple_command(tokens: &Vec<String>) -> (r: Result<Instruction, ErrorKind>)
        requires
            tokens@.len() == 3,
            single_op(tokens@[0]@) is None,
            !is_branch_command(tokens@[0]@),
            is_triple_command(tokens@[0]@),
        ensures
            decoded(r) == decode(lines_of(tokens@)),
    {
        let ghost t = lines_of(tokens@);
        assert(t[0] == tokens@[0]@ && t[1] == tokens@[1]@ && t[2] == tokens@[2]@);
        let cmd = tokens[0].as_str();
        proof {
            reveal_strlit("push");
            reveal_strlit("pop");
        }
        if text_eq(cmd, "push") {
            Self::push_pop(false, tokens[1].as_str(), tokens[2].as_str())
        } else if text_eq(cmd, "pop") {
            Self::push_pop(true, tokens[1].as_str(), tokens[2].as_str())
        } else if text_eq(cmd, "call") {
            Self::procedure(true, &tokens[1], tokens[2].as_str())
        } else {
            Self::procedure(false, &tokens[1], tokens[2].as_str())
        }
    }

    /// What an instruction record means, or why it is rejected.
    pub fn decode(tokens: &Vec<String>) -> (r: Result<Instruction, ErrorKind>)
        ensures
            decoded(r) == decode(lines_of(tokens@)),
    {
        let ghost t = lines_of(tokens@);
        if tokens.len() == 0 {
            return Err(ErrorKind::StructuralArityMismatch);
        }
        assert(t[0] == tokens@[0]@);
        let cmd = tokens[0].as_str();
        match Self::single_command(cmd) {
            Some(ins) => {
                if tokens.len() != 1 {
                    return Err(ErrorKind::StructuralArityMismatch);
                }
                return Ok(ins);
            },
            None => {},
        }
        if text_eq(cmd, "label") || text_eq(cmd, "goto") || text_eq(cmd, "if-goto") {
            if tokens.len() != 2 {
                return Err(ErrorKind::StructuralArityMismatch);
            }
            assert(t =~= seq![cmd@, tokens@[1]@]);
            return Self::double_command(cmd, &tokens[1]);
        }
        if text_eq(cmd, "push") || text_eq(cmd, "pop") || text_eq(cmd, "function") || text_eq(cmd, "call") {
            if tokens.len() != 3 {
                return Err(ErrorKind::StructuralArityMismatch);
            }
            return Self::triple_command(tokens);
        }
        Err(ErrorKind::UnknownCommand)
    }

    /// Emits a valid instruction.
    fn emit(&mut self, ins: Instruction)
        requires
            old(self).wf(),
            old(self).state().comparisons < usize::MAX,
            old(self).state().calls < usize::MAX,
            ins@ matches Instr::Call(_, n) ==> n + 5 <= usize::MAX,
            ins@ matches Instr::Push(s, i) ==> !out_of_range(s, i),
            ins@ matches Instr::Pop(s, i) ==> !out_of_range(s, i) && !(s is Constant),
        ensures
            final(self).wf(),
            final(self).records() == old(self).records(),
            final(self).file() == old(self).file(),
            final(self).state() == emit(old(self).file(), old(self).state(), ins@),
    {
        let fragment = match ins {
            Instruction::Arithmetic(op) => match op {
                ArithOp::Add => CodeGen::add(),
                ArithOp::Sub => CodeGen::sub(),
                ArithOp::Neg => CodeGen::neg(),
                ArithOp::And => CodeGen::and(),
                ArithOp::Or => CodeGen::or(),
                ArithOp::Not => CodeGen::not(),
                _ => {
                    proof {
                        reveal_strlit("eq");
                        reveal_strlit("gt");
                        reveal_strlit("lt");
                    }
                    self.code_gen.bin_comp(&self.file_name, comparison_text(op))
                },
            },
            Instruction::Push(s, i) => CodeGen::push_segment(&self.file_name, s, i),
            Instruction::Pop(s, i) => CodeGen::pop_segment(&self.file_name, s, i),
            Instruction::Label(l) => CodeGen::label(&self.current_function_name, &l),
            Instruction::Goto(l) => CodeGen::goto_label(&self.current_function_name, &l),
            Instruction::IfGoto(l) => CodeGen::if_goto_label(&self.current_function_name, &l),
            Instruction::Function(f, n) => {
                let fragment = CodeGen::function(&f, n);
                self.current_function_name = f;
                fragment
            },
            Instruction::Call(f, n) => self.code_gen.call(&self.file_name, &f, n),
            Instruction::Return => CodeGen::f_return(),
        };
        append_lines(&mut self.output, fragment);
    }

    /// Translates every record of the unit, in order.
    pub fn run(&mut self)
        requires
            old(self).wf(),
            old(self).state() == initial_state(),
        ensures
            final(self).wf(),
            final(self).records() == old(self).records(),
            final(self).file() == old(self).file(),
            final(self).state() == run_spec(old(self).file(), old(self).records()),
    {
        let n = self.line_sources.len();
        let mut idx: usize = 0;
        assert(self.records().take(0) =~= Seq::<(Seq<Seq<char>>, nat)>::empty());
        while idx < n
            invariant
                self.wf(),
                n == self.line_sources@.len(),
                self.records() == old(self).records(),
                self.file() == old(self).file(),
                0 <= idx <= n,
                self.state() == run_spec(self.file(), self.records().take(idx as int)),
                self.state().comparisons <= idx,
                self.state().calls <= idx,
            decreases n - idx,
        {
            let ghost before = self.state();
            let ghost rec = self.records()[idx as int];
            assert(self.records().take(idx + 1).drop_last() =~= self.records().take(idx as int));
            assert(rec == self.line_sources@[idx as int]@);
            let line = self.line_sources[idx].line;
            let decoded = Self::decode(&self.line_sources[idx].tokens);
            match decoded {
                Ok(ins) => {
                    self.emit(ins);
                },
                Err(kind) => {
                    self.error(line, kind);
                },
            }
            idx = idx + 1;
        }
        assert(self.records().take(n as int) =~= self.records());
    }

    /// Translates one unit: its assembly lines, or its first error.
    pub fn compile_unit(source: String, file_name: String) -> (r: Result<Vec<String>, CompileError>)
        requires
            source@.len() < usize::MAX,
        ensures
            match r {
                Ok(v) => translate(file_name@, source@) == Ok::<Seq<Seq<char>>, (nat, ErrorKind)>(lines_of(v@)),
                Err(e) => translate(file_name@, source@) == Err::<Seq<Seq<char>>, (nat, ErrorKind)>((e.line as nat, e.kind)),
            },
    {
        proof {
            reveal(translate);
        }
        let mut compiler = Self::new(source, file_name);
        compiler.run();
        match compiler.first_error {
            Some(e) => Err(e),
            None => Ok(compiler.output),
        }
    }

    /// Translates one unit; `None` when it holds an error.
    pub fn compile(source: String, file_name: String) -> (r: Option<Vec<String>>)
        requires
            source@.len() < usize::MAX,
        ensures
            match r {
                Some(v) => translate(file_name@, source@) == Ok::<Seq<Seq<char>>, (nat, ErrorKind)>(lines_of(v@)),
                None => translate(file_name@, source@) is Err,
            },
    {
        match Self::compile_unit(source, file_name) {
            Ok(v) => Some(v),
            Err(_) => None,
        }
    }
}

proof fn lemma_command_words()
    ensures
        single_op("push"@) is None,
        single_op("pop"@) is None,
        !is_branch_command("push"@),
        !is_branch_command("pop"@),
        is_triple_command("push"@),
        is_triple_command("pop"@),
        "push"@ != "pop"@,
{
    reveal_strlit("push");
    reveal_strlit("pop");
    reveal_strlit("add");
    reveal_strlit("sub");
    reveal_strlit("neg");
    reveal_strlit("eq");
    reveal_strlit("gt");
    reveal_strlit("lt");
    reveal_strlit("and");
    reveal_strlit("or");
    reveal_strlit("not");
    reveal_strlit("return");
    reveal_strlit("label");
    reveal_strlit("goto");
    reveal_strlit("if-goto");
    assert("push"@ != "add"@) by {
        assert("push"@[0] != "add"@[0] || "push"@[1] != "add"@[1]);
    }
    assert("push"@ != "sub"@) by {
        assert("push"@[0] != "sub"@[0] || "push"@[1] != "sub"@[1]);
    }
    assert("push"@ != "neg"@) by {
        assert("push"@[0] != "neg"@[0] || "push"@[1] != "neg"@[1]);
    }
    assert("push"@ != "eq"@) by {
        assert("push"@[0] != "eq"@[0] || "push"@[1] != "eq"@[1]);
    }
    assert("push"@ != "gt"@) by {
        assert("push"@[0] != "gt"@[0] || "push"@[1] != "gt"@[1]);
    }
    assert("push"@ != "lt"@) by {
        assert("push"@[0] != "lt"@[0] || "push"@[1] != "lt"@[1]);
    }
    assert("push"@ != "and"@) by {
        assert("push"@[0] != "and"@[0] || "push"@[1] != "and"@[1]);
    }
    assert("push"@ != "or"@) by {
        assert("push"@[0] != "or"@[0] || "push"@[1] != "or"@[1]);
    }
    assert("push"@ != "not"@) by {
        assert("push"@[0] != "not"@[0] || "push"@[1] != "not"@[1]);
    }
    assert("push"@ != "return"@) by {
        assert("push"@[0] != "return"@[0] || "push"@[1] != "return"@[1]);
    }
    assert("push"@ != "label"@) by {
        assert("push"@[0] != "label"@[0] || "push"@[1] != "label"@[1]);
    }
    assert("push"@ != "goto"@) by {
        assert("push"@[0] != "goto"@[0] || "push"@[1] != "goto"@[1]);
    }
    assert("push"@ != "if-goto"@) by {
        assert("push"@[0] != "if-goto"@[0] || "push"@[1] != "if-goto"@[1]);
    }
    assert("pop"@ != "add"@) by {
        assert("pop"@[0] != "add"@[0] || "pop"@[1] != "add"@[1]);
    }
    assert("pop"@ != "sub"@) by {
        assert("pop"@[0] != "sub"@[0] || "pop"@[1] != "sub"@[1]);
    }
    assert("pop"@ != "neg"@) by {
        assert("pop"@[0] != "neg"@[0] || "pop"@[1] != "neg"@[1]);
    }
    assert("pop"@ != "eq"@) by {
        assert("pop"@[0] != "eq"@[0] || "pop"@[1] != "eq"@[1]);
    }
    assert("pop"@ != "gt"@) by {
        assert("pop"@[0] != "gt"@[0] || "pop"@[1] != "gt"@[1]);
    }
    assert("pop"@ != "lt"@) by {
        assert("pop"@[0] != "lt"@[0] || "pop"@[1] != "lt"@[1]);
    }
    assert("pop"@ != "and"@) by {
        assert("pop"@[0] != "and"@[0] || "pop"@[1] != "and"@[1]);
    }
    assert("pop"@ != "or"@) by {
        assert("pop"@[0] != "or"@[0] || "pop"@[1] != "or"@[1]);
    }
    assert("pop"@ != "not"@) by {
        assert("pop"@[0] != "not"@[0] || "pop"@[1] != "not"@[1]);
    }
    assert("pop"@ != "return"@) by {
        assert("pop"@[0] != "return"@[0] || "pop"@[1] != "return"@[1]);
    }
    assert("pop"@ != "label"@) by {
        assert("pop"@[0] != "label"@[0] || "pop"@[1] != "label"@[1]);
    }
    assert("pop"@ != "goto"@) by {
        assert("pop"@[0] != "goto"@[0] || "pop"@[1] != "goto"@[1]);
    }
    assert("pop"@ != "if-goto"@) by {
        assert("pop"@[0] != "if-goto"@[0] || "pop"@[1] != "if-goto"@[1]);
    }
    assert("push"@ != "pop"@) by {
        assert("push"@[1] != "pop"@[1]);
    }
}

pub proof fn lemma_segment_named(s: MemorySegments)
    ensures
        segment_named(segment_token(s)) == Some(s),
{
    crate::segment::lemma_segment_tokens_distinct();
}

/// Indices past the end of `temp` (0 to 7) and of `pointer` (0 and 1) are
/// rejected as out of range, by `push` and by `pop`; `pop constant` is always
/// rejected as illegal.
pub proof fn lemma_range_enforcement(i: nat)
    requires
        i <= usize::MAX,
    ensures
        i > 7 ==> decode(seq!["push"@, "temp"@, decimal(i)]) == Err::<Instr, ErrorKind>(ErrorKind::IndexOutOfRange),
        i > 7 ==> decode(seq!["pop"@, "temp"@, decimal(i)]) == Err::<Instr, ErrorKind>(ErrorKind::IndexOutOfRange),
        i > 1 ==> decode(seq!["push"@, "pointer"@, decimal(i)]) == Err::<Instr, ErrorKind>(ErrorKind::IndexOutOfRange),
        i > 1 ==> decode(seq!["pop"@, "pointer"@, decimal(i)]) == Err::<Instr, ErrorKind>(ErrorKind::IndexOutOfRange),
        decode(seq!["pop"@, "constant"@, decimal(i)]) == Err::<Instr, ErrorKind>(ErrorKind::IllegalOperation),
{
    lemma_command_words();
    lemma_decimal_is_digits(i);
    lemma_segment_named(MemorySegments::Temp);
    lemma_segment_named(MemorySegments::Pointer);
    lemma_segment_named(MemorySegments::Constant);
    assert(decimal(i)[0] != '+') by {
        assert(is_digit(decimal(i)[0]));
    }
    assert(index_operand(decimal(i)) == Some(i));
}

/// Records before the first invalid one leave the error unset.
proof fn lemma_no_error_before(file: Seq<char>, recs: Seq<(Seq<Seq<char>>, nat)>, k: nat)
    requires
        k <= recs.len(),
        forall|m: int| 0 <= m < k ==> decode((#[trigger] recs[m]).0) is Ok,
    ensures
        run_spec(file, recs.take(k as int)).error is None,
    decreases k,
{
    if k > 0 {
        assert(recs.take(k as int).drop_last() =~= recs.take(k - 1));
        lemma_no_error_before(file, recs, (k - 1) as nat);
        assert(decode(recs[k - 1].0) is Ok);
    }
}

/// Once set, the error stays as it is.
proof fn lemma_error_stays(file: Seq<char>, recs: Seq<(Seq<Seq<char>>, nat)>, k: nat)
    requires
        k <= recs.len(),
        run_spec(file, recs.take(k as int)).error is Some,
    ensures
        run_spec(file, recs).error == run_spec(file, recs.take(k as int)).error,
    decreases recs.len() - k,
{
    if k < recs.len() {
        assert(recs.take(k + 1 as int).drop_last() =~= recs.take(k as int));
        lemma_error_stays(file, recs, k + 1);
    } else {
        assert(recs.take(k as int) =~= recs);
    }
}

/// A unit reports the error of its first invalid record, and no later one.
pub proof fn lemma_first_error_wins(file: Seq<char>, recs: Seq<(Seq<Seq<char>>, nat)>, j: nat)
    requires
        j < recs.len(),
        decode(recs[j as int].0) is Err,
        forall|m: int| 0 <= m < j ==> decode((#[trigger] recs[m]).0) is Ok,
    ensures
        run_spec(file, recs).error == Some((recs[j as int].1, decode(recs[j as int].0)->Err_0)),
{
    lemma_no_error_before(file, recs, j);
    assert(recs.take(j + 1 as int).drop_last() =~= recs.take(j as int));
    lemma_error_stays(file, recs, j + 1);
}

proof fn lemma_plain_command_words()
    ensures
        plain_word("push"@),
        plain_word("pop"@),
        plain_word("temp"@),
        plain_word("pointer"@),
        plain_word("constant"@),
        plain_word("add"@),
        plain_word("function"@),
        plain_word("label"@),
{
    reveal_strlit("push");
    reveal_strlit("pop");
    reveal_strlit("temp");
    reveal_strlit("pointer");
    reveal_strlit("constant");
    reveal_strlit("add");
    reveal_strlit("function");
    reveal_strlit("label");
}

/// A decimal number is a plain word.
proof fn lemma_plain_decimal(n: nat)
    ensures
        plain_word(decimal(n)),
{
    lemma_decimal_is_digits(n);
    assert forall|i: int| 0 <= i < decimal(n).len() implies !is_space(#[trigger] decimal(n)[i]) && decimal(n)[i] != '/' by {
        assert(is_digit(decimal(n)[i]));
    }
}

/// A unit of one line translates as that line decodes.
pub proof fn lemma_one_line_unit(file: Seq<char>, ws: Seq<Seq<char>>)
    requires
        ws.len() >= 1,
        forall|k: int| 0 <= k < ws.len() ==> plain_word(#[trigger] ws[k]),
    ensures
        translate(file, join_words(ws)) == match decode(ws) {
            Ok(ins) => Ok::<Seq<Seq<char>>, (nat, ErrorKind)>(emit(file, initial_state(), ins).out),
            Err(e) => Err::<Seq<Seq<char>>, (nat, ErrorKind)>((1nat, e)),
        },
{
    reveal(translate);
    let lines = seq![ws];
    assert(plain_lines(lines));
    lemma_parse_unit(lines);
    assert(lines.map_values(|w: Seq<Seq<char>>| join_words(w)) =~= seq![join_words(ws)]);
    assert(unit_text(lines) == join_words(ws));
    let recs = numbered_records(lines);
    assert(recs =~= seq![(ws, 1nat)]);
    assert(recs.drop_last() =~= Seq::<(Seq<Seq<char>>, nat)>::empty());
    assert(run_spec(file, recs.drop_last()) == initial_state());
    assert(run_spec(file, recs) == step(file, initial_state(), (ws, 1nat)));
    match decode(ws) {
        Ok(ins) => {
            assert(emit(file, initial_state(), ins).error is None);
        },
        Err(e) => {},
    }
}

/// As the whole text of a unit: `push` or `pop` of `temp i` fails with
/// `IndexOutOfRange` exactly when `i > 7`, of `pointer i` exactly when
/// `i > 1`, and `pop constant i` always fails with `IllegalOperation`; in
/// range, the unit is the fragment of that one instruction.
pub proof fn lemma_range_enforcement_source(file: Seq<char>, i: nat)
    requires
        i <= usize::MAX,
    ensures
        translate(file, "push temp "@ + decimal(i)) == if i > 7 {
            Err::<Seq<Seq<char>>, (nat, ErrorKind)>((1nat, ErrorKind::IndexOutOfRange))
        } else {
            Ok(push_asm(file, MemorySegments::Temp, i))
        },
        translate(file, "pop temp "@ + decimal(i)) == if i > 7 {
            Err::<Seq<Seq<char>>, (nat, ErrorKind)>((1nat, ErrorKind::IndexOutOfRange))
        } else {
            Ok(pop_asm(file, MemorySegments::Temp, i))
        },
        translate(file, "push pointer "@ + decimal(i)) == if i > 1 {
            Err::<Seq<Seq<char>>, (nat, ErrorKind)>((1nat, ErrorKind::IndexOutOfRange))
        } else {
            Ok(push_asm(file, MemorySegments::Pointer, i))
        },
        translate(file, "pop pointer "@ + decimal(i)) == if i > 1 {
            Err::<Seq<Seq<char>>, (nat, ErrorKind)>((1nat, ErrorKind::IndexOutOfRange))
        } else {
            Ok(pop_asm(file, MemorySegments::Pointer, i))
        },
        translate(file, "pop constant "@ + decimal(i)) == Err::<Seq<Seq<char>>, (nat, ErrorKind)>(
            (1nat, ErrorKind::IllegalOperation),
        ),
{
    let d = decimal(i);
    lemma_command_words();
    lemma_plain_command_words();
    lemma_plain_decimal(i);
    lemma_range_enforcement(i);
    lemma_decimal_is_digits(i);
    lemma_segment_named(MemorySegments::Temp);
    lemma_segment_named(MemorySegments::Pointer);
    lemma_segment_named(MemorySegments::Constant);
    assert(d[0] != '+') by {
        assert(is_digit(d[0]));
    }
    assert(index_operand(d) == Some(i));
    reveal_strlit("push temp ");
    reveal_strlit("pop temp ");
    reveal_strlit("push pointer ");
    reveal_strlit("pop pointer ");
    reveal_strlit("pop constant ");
    reveal_strlit("push");
    reveal_strlit("pop");
    reveal_strlit("temp");
    reveal_strlit("pointer");
    reveal_strlit("constant");
    assert("push temp "@ + d =~= "push"@ + seq![' '] + "temp"@ + seq![' '] + d);
    assert("pop temp "@ + d =~= "pop"@ + seq![' '] + "temp"@ + seq![' '] + d);
    assert("push pointer "@ + d =~= "push"@ + seq![' '] + "pointer"@ + seq![' '] + d);
    assert("pop pointer "@ + d =~= "pop"@ + seq![' '] + "pointer"@ + seq![' '] + d);
    assert("pop constant "@ + d =~= "pop"@ + seq![' '] + "constant"@ + seq![' '] + d);
    let w = seq!["push"@, "temp"@, d];
    assert(join_words(w) =~= "push"@ + seq![' '] + "temp"@ + seq![' '] + d) by {
        let w1 = seq!["push"@];
        let w2 = seq!["push"@, "temp"@];
        assert(join_words(w1) == "push"@);
        assert(w2.drop_last() =~= w1);
        assert(join_words(w2) == join_words(w1) + seq![' '] + "temp"@);
        assert(w.drop_last() =~= w2);
        assert(join_words(w) == join_words(w2) + seq![' '] + d);
    }
    assert forall|k: int| 0 <= k < w.len() implies plain_word(#[trigger] w[k]) by {}
    lemma_one_line_unit(file, w);
    assert(Seq::<Seq<char>>::empty() + push_asm(file, MemorySegments::Temp, i) =~= push_asm(file, MemorySegments::Temp, i));
    let w = seq!["pop"@, "temp"@, d];
    assert(join_words(w) =~= "pop"@ + seq![' '] + "temp"@ + seq![' '] + d) by {
        let w1 = seq!["pop"@];
        let w2 = seq!["pop"@, "temp"@];
        assert(join_words(w1) == "pop"@);
        assert(w2.drop_last() =~= w1);
        assert(join_words(w2) == join_words(w1) + seq![' '] + "temp"@);
        assert(w.drop_last() =~= w2);
        assert(join_words(w) == join_words(w2) + seq![' '] + d);
    }
    assert forall|k: int| 0 <= k < w.len() implies plain_word(#[trigger] w[k]) by {}
    lemma_one_line_unit(file, w);
    assert(Seq::<Seq<char>>::empty() + pop_asm(file, MemorySegments::Temp, i) =~= pop_asm(file, MemorySegments::Temp, i));
    let w = seq!["push"@, "pointer"@, d];
    assert(join_words(w) =~= "push"@ + seq![' '] + "pointer"@ + seq![' '] + d) by {
        let w1 = seq!["push"@];
        let w2 = seq!["push"@, "pointer"@];
        assert(join_words(w1) == "push"@);
        assert(w2.drop_last() =~= w1);
        assert(join_words(w2) == join_words(w1) + seq![' '] + "pointer"@);
        assert(w.drop_last() =~= w2);
        assert(join_words(w) == join_words(w2) + seq![' '] + d);
    }
    assert forall|k: int| 0 <= k < w.len() implies plain_word(#[trigger] w[k]) by {}
    lemma_one_line_unit(file, w);
    assert(Seq::<Seq<char>>::empty() + push_asm(file, MemorySegments::Pointer, i) =~= push_asm(file, MemorySegments::Pointer, i));
    let w = seq!["pop"@, "pointer"@, d];
    assert(join_words(w) =~= "pop"@ + seq![' '] + "pointer"@ + seq![' '] + d) by {
        let w1 = seq!["pop"@];
        let w2 = seq!["pop"@, "pointer"@];
        assert(join_words(w1) == "pop"@);
        assert(w2.drop_last() =~= w1);
        assert(join_words(w2) == join_words(w1) + seq![' '] + "pointer"@);
        assert(w.drop_last() =~= w2);
        assert(join_words(w) == join_words(w2) + seq![' '] + d);
    }
    assert forall|k: int| 0 <= k < w.len() implies plain_word(#[trigger] w[k]) by {}
    lemma_one_line_unit(file, w);
    assert(Seq::<Seq<char>>::empty() + pop_asm(file, MemorySegments::Pointer, i) =~= pop_asm(file, MemorySegments::Pointer, i));
    let w = seq!["pop"@, "constant"@, d];
    assert(join_words(w) =~= "pop"@ + seq![' '] + "constant"@ + seq![' '] + d) by {
        let w1 = seq!["pop"@];
        let w2 = seq!["pop"@, "constant"@];
        assert(join_words(w1) == "pop"@);
        assert(w2.drop_last() =~= w1);
        assert(join_words(w2) == join_words(w1) + seq![' '] + "constant"@);
        assert(w.drop_last() =~= w2);
        assert(join_words(w) == join_words(w2) + seq![' '] + d);
    }
    assert forall|k: int| 0 <= k < w.len() implies plain_word(#[trigger] w[k]) by {}
    lemma_one_line_unit(file, w);
    assert(Seq::<Seq<char>>::empty() + pop_asm(file, MemorySegments::Constant, i) =~= pop_asm(file, MemorySegments::Constant, i));
}

/// What a unit made of lines of plain words translates to.
pub proof fn lemma_unit_translation(file: Seq<char>, lines: Seq<Seq<Seq<char>>>)
    requires
        lines.len() >= 1,
        plain_lines(lines),
    ensures
        translate(file, unit_text(lines)) == match run_spec(file, numbered_records(lines)).error {
            Some(e) => Err::<Seq<Seq<char>>, (nat, ErrorKind)>(e),
            None => Ok(run_spec(file, numbered_records(lines)).out),
        },
{
    reveal(translate);
    lemma_parse_unit(lines);
}

/// One more record on top of a prefix.
proof fn lemma_run_prefix(file: Seq<char>, recs: Seq<(Seq<Seq<char>>, nat)>, k: int)
    requires
        0 <= k < recs.len(),
    ensures
        run_spec(file, recs.take(k + 1)) == step(file, run_spec(file, recs.take(k)), recs[k]),
{
    assert(recs.take(k + 1).drop_last() =~= recs.take(k));
}

/// A label or function name is a plain word.
proof fn lemma_label_is_plain(l: Seq<char>)
    requires
        is_label(l),
    ensures
        plain_word(l),
{
    assert forall|i: int| 0 <= i < l.len() implies !is_space(#[trigger] l[i]) && l[i] != '/' by {
        if i > 0 {
            assert(is_label_char(l[i]));
        }
    }
}

/// The unit `push constant x`, `push constant y`, `add` translates to the
/// three fragments in order.
pub proof fn lemma_push_push_add_unit(file: Seq<char>, x: nat, y: nat)
    requires
        x <= usize::MAX,
        y <= usize::MAX,
    ensures
        translate(file, unit_text(seq![
            seq!["push"@, "constant"@, decimal(x)],
            seq!["push"@, "constant"@, decimal(y)],
            seq!["add"@],
        ])) == Ok::<Seq<Seq<char>>, (nat, ErrorKind)>(
            push_asm(file, MemorySegments::Constant, x) + push_asm(file, MemorySegments::Constant, y) + add_asm(),
        ),
{
    let lines = seq![
        seq!["push"@, "constant"@, decimal(x)],
        seq!["push"@, "constant"@, decimal(y)],
        seq!["add"@],
    ];
    lemma_plain_command_words();
    lemma_plain_decimal(x);
    lemma_plain_decimal(y);
    lemma_command_words();
    lemma_segment_named(MemorySegments::Constant);
    lemma_decimal_is_digits(x);
    lemma_decimal_is_digits(y);
    assert(decimal(x)[0] != '+') by {
        assert(is_digit(decimal(x)[0]));
    }
    assert(decimal(y)[0] != '+') by {
        assert(is_digit(decimal(y)[0]));
    }
    assert(index_operand(decimal(x)) == Some(x));
    assert(index_operand(decimal(y)) == Some(y));
    assert(plain_lines(lines)) by {
        assert forall|j: int| 0 <= j < lines.len() implies (#[trigger] lines[j]).len() >= 1
            && forall|k: int| 0 <= k < lines[j].len() ==> plain_word(#[trigger] lines[j][k]) by {
            if j == 0 {
                assert(lines[j] == seq!["push"@, "constant"@, decimal(x)]);
            } else if j == 1 {
                assert(lines[j] == seq!["push"@, "constant"@, decimal(y)]);
            } else {
                assert(lines[j] == seq!["add"@]);
            }
        }
    }
    lemma_unit_translation(file, lines);
    let recs = numbered_records(lines);
    assert(decode(recs[0].0) == Ok::<Instr, ErrorKind>(Instr::Push(MemorySegments::Constant, x)));
    assert(decode(recs[1].0) == Ok::<Instr, ErrorKind>(Instr::Push(MemorySegments::Constant, y)));
    assert(decode(recs[2].0) == Ok::<Instr, ErrorKind>(Instr::Arithmetic(ArithOp::Add)));
    assert(recs.take(0) =~= Seq::<(Seq<Seq<char>>, nat)>::empty());
    lemma_run_prefix(file, recs, 0);
    lemma_run_prefix(file, recs, 1);
    lemma_run_prefix(file, recs, 2);
    assert(recs.take(3) =~= recs);
    let s1 = run_spec(file, recs.take(1));
    let s2 = run_spec(file, recs.take(2));
    let s3 = run_spec(file, recs.take(3));
    assert(s1.out =~= push_asm(file, MemorySegments::Constant, x));
    assert(s3.error is None);
}

/// How `function f k` and `label l` decode.
proof fn lemma_decode_function_label(f: Seq<char>, k: nat, l: Seq<char>)
    requires
        is_label(f),
        is_label(l),
        index_operand(decimal(k)) == Some(k),
        k <= usize::MAX,
    ensures
        decode(seq!["function"@, f, decimal(k)]) == Ok::<Instr, ErrorKind>(Instr::Function(f, k)),
        decode(seq!["label"@, l]) == Ok::<Instr, ErrorKind>(Instr::Label(l)),
{
    reveal_strlit("function");
    reveal_strlit("label");
    reveal_strlit("push");
    reveal_strlit("pop");
    reveal_strlit("call");
    reveal_strlit("goto");
    reveal_strlit("if-goto");
    reveal_strlit("add");
    reveal_strlit("sub");
    reveal_strlit("neg");
    reveal_strlit("eq");
    reveal_strlit("gt");
    reveal_strlit("lt");
    reveal_strlit("and");
    reveal_strlit("or");
    reveal_strlit("not");
    reveal_strlit("return");
    assert("function"@ != "add"@) by {
        assert("function"@[0] != "add"@[0]);
    }
    assert("function"@ != "sub"@) by {
        assert("function"@[0] != "sub"@[0]);
    }
    assert("function"@ != "neg"@) by {
        assert("function"@[0] != "neg"@[0]);
    }
    assert("function"@ != "eq"@) by {
        assert("function"@[0] != "eq"@[0]);
    }
    assert("function"@ != "gt"@) by {
        assert("function"@[0] != "gt"@[0]);
    }
    assert("function"@ != "lt"@) by {
        assert("function"@[0] != "lt"@[0]);
    }
    assert("function"@ != "and"@) by {
        assert("function"@[0] != "and"@[0]);
    }
    assert("function"@ != "or"@) by {
        assert("function"@[0] != "or"@[0]);
    }
    assert("function"@ != "not"@) by {
        assert("function"@[0] != "not"@[0]);
    }
    assert("function"@ != "return"@) by {
        assert("function"@[0] != "return"@[0]);
    }
    assert("function"@ != "label"@) by {
        assert("function"@[0] != "label"@[0]);
    }
    assert("function"@ != "goto"@) by {
        assert("function"@[0] != "goto"@[0]);
    }
    assert("function"@ != "if-goto"@) by {
        assert("function"@[0] != "if-goto"@[0]);
    }
    assert("function"@ != "push"@) by {
        assert("function"@[0] != "push"@[0]);
    }
    assert("function"@ != "pop"@) by {
        assert("function"@[0] != "pop"@[0]);
    }
    assert("function"@ != "call"@) by {
        assert("function"@[0] != "call"@[0]);
    }
    assert("label"@ != "add"@) by {
        assert("label"@[0] != "add"@[0]);
    }
    assert("label"@ != "sub"@) by {
        assert("label"@[0] != "sub"@[0]);
    }
    assert("label"@ != "neg"@) by {
        assert("label"@[0] != "neg"@[0]);
    }
    assert("label"@ != "eq"@) by {
        assert("label"@[0] != "eq"@[0]);
    }
    assert("label"@ != "gt"@) by {
        assert("label"@[0] != "gt"@[0]);
    }
    assert("label"@ != "lt"@) by {
        assert("label"@[1] != "lt"@[1]);
    }
    assert("label"@ != "and"@) by {
        assert("label"@[0] != "and"@[0]);
    }
    assert("label"@ != "or"@) by {
        assert("label"@[0] != "or"@[0]);
    }
    assert("label"@ != "not"@) by {
        assert("label"@[0] != "not"@[0]);
    }
    assert("label"@ != "return"@) by {
        assert("label"@[0] != "return"@[0]);
    }
    assert("label"@ != "goto"@) by {
        assert("label"@[0] != "goto"@[0]);
    }
    assert("label"@ != "if-goto"@) by {
        assert("label"@[0] != "if-goto"@[0]);
    }
    assert("label"@ != "push"@) by {
        assert("label"@[0] != "push"@[0]);
    }
    assert("label"@ != "pop"@) by {
        assert("label"@[0] != "pop"@[0]);
    }
    assert("label"@ != "call"@) by {
        assert("label"@[0] != "call"@[0]);
    }
    assert(single_op("function"@) is None);
    assert(!is_branch_command("function"@));
    assert(is_triple_command("function"@));
    assert("label"@ != "return"@) by {
        assert("label"@[0] != "return"@[0]);
    }
    assert(single_op("label"@) is None);
    assert(is_branch_command("label"@));
}

/// The unit `function f1 k1`, `label l`, `function f2 k2`, `label l` with
/// two different functions declares the two labels `(f1$l)` and `(f2$l)`,
/// which differ.
#[verifier::rlimit(100)]
pub proof fn lemma_label_uniqueness_unit(file: Seq<char>, f1: Seq<char>, k1: nat, f2: Seq<char>, k2: nat, l: Seq<char>)
    requires
        is_label(f1),
        is_label(f2),
        is_label(l),
        f1 != f2,
        k1 <= usize::MAX,
        k2 <= usize::MAX,
    ensures
        ({
            let out = function_asm(f1, k1) + label_asm(f1, l) + function_asm(f2, k2) + label_asm(f2, l);
            &&& translate(file, unit_text(seq![
                seq!["function"@, f1, decimal(k1)],
                seq!["label"@, l],
                seq!["function"@, f2, decimal(k2)],
                seq!["label"@, l],
            ])) == Ok::<Seq<Seq<char>>, (nat, ErrorKind)>(out)
            &&& out[7] == "("@ + qualified_label(f1, l) + ")"@
            &&& out[15] == "("@ + qualified_label(f2, l) + ")"@
            &&& out[7] != out[15]
        }),
{
    let lines = seq![
        seq!["function"@, f1, decimal(k1)],
        seq!["label"@, l],
        seq!["function"@, f2, decimal(k2)],
        seq!["label"@, l],
    ];
    lemma_plain_command_words();
    lemma_plain_decimal(k1);
    lemma_plain_decimal(k2);
    lemma_label_is_plain(f1);
    lemma_label_is_plain(f2);
    lemma_label_is_plain(l);
    lemma_decimal_is_digits(k1);
    lemma_decimal_is_digits(k2);
    assert(decimal(k1)[0] != '+') by {
        assert(is_digit(decimal(k1)[0]));
    }
    assert(decimal(k2)[0] != '+') by {
        assert(is_digit(decimal(k2)[0]));
    }
    assert(index_operand(decimal(k1)) == Some(k1));
    assert(index_operand(decimal(k2)) == Some(k2));
    assert(plain_lines(lines)) by {
        assert forall|j: int| 0 <= j < lines.len() implies (#[trigger] lines[j]).len() >= 1
            && forall|k: int| 0 <= k < lines[j].len() ==> plain_word(#[trigger] lines[j][k]) by {
            if j == 0 {
                assert(lines[j] == seq!["function"@, f1, decimal(k1)]);
            } else if j == 1 {
                assert(lines[j] == seq!["label"@, l]);
            } else if j == 2 {
                assert(lines[j] == seq!["function"@, f2, decimal(k2)]);
            } else {
                assert(lines[j] == seq!["label"@, l]);
            }
        }
    }
    lemma_unit_translation(file, lines);
    let recs = numbered_records(lines);
    lemma_decode_function_label(f1, k1, l);
    lemma_decode_function_label(f2, k2, l);
    assert(recs[0].0 == seq!["function"@, f1, decimal(k1)]);
    assert(recs[1].0 == seq!["label"@, l]);
    assert(recs[2].0 == seq!["function"@, f2, decimal(k2)]);
    assert(recs[3].0 == seq!["label"@, l]);
    assert(decode(recs[0].0) == Ok::<Instr, ErrorKind>(Instr::Function(f1, k1)));
    assert(decode(recs[1].0) == Ok::<Instr, ErrorKind>(Instr::Label(l)));
    assert(decode(recs[2].0) == Ok::<Instr, ErrorKind>(Instr::Function(f2, k2)));
    assert(decode(recs[3].0) == Ok::<Instr, ErrorKind>(Instr::Label(l)));
    assert(recs.take(0) =~= Seq::<(Seq<Seq<char>>, nat)>::empty());
    lemma_run_prefix(file, recs, 0);
    lemma_run_prefix(file, recs, 1);
    lemma_run_prefix(file, recs, 2);
    lemma_run_prefix(file, recs, 3);
    assert(recs.take(4) =~= recs);
    let out = function_asm(f1, k1) + label_asm(f1, l) + function_asm(f2, k2) + label_asm(f2, l);
    assert(run_spec(file, recs.take(1)).out =~= function_asm(f1, k1));
    assert(run_spec(file, recs.take(2)).out =~= function_asm(f1, k1) + label_asm(f1, l));
    assert(run_spec(file, recs.take(4)).out =~= out);
    assert(out[7] == label_asm(f1, l)[1]);
    assert(out[15] == label_asm(f2, l)[1]);
    lemma_label_uniqueness(f1, f2, l);
    reveal_strlit("(");
    reveal_strlit(")");
    if out[7] == out[15] {
        let q1 = qualified_label(f1, l);
        let q2 = qualified_label(f2, l);
        assert(q1 =~= out[7].subrange(1, out[7].len() - 1));
        assert(q2 =~= out[15].subrange(1, out[15].len() - 1));
    }
}

/// In a unit whose lines hold plain words, the error reported is that of the
/// first line that does not decode, with its 1-based number; later errors are
/// not reported.
pub proof fn lemma_first_error_wins_unit(file: Seq<char>, lines: Seq<Seq<Seq<char>>>, j: nat)
    requires
        plain_lines(lines),
        j < lines.len(),
        decode(lines[j as int]) is Err,
        forall|m: int| 0 <= m < j ==> decode(#[trigger] lines[m]) is Ok,
    ensures
        translate(file, unit_text(lines)) == Err::<Seq<Seq<char>>, (nat, ErrorKind)>(
            ((j + 1) as nat, decode(lines[j as int])->Err_0),
        ),
{
    lemma_unit_translation(file, lines);
    let recs = numbered_records(lines);
    assert forall|m: int| 0 <= m < j implies decode((#[trigger] recs[m]).0) is Ok by {
        assert(recs[m].0 == lines[m]);
    }
    lemma_first_error_wins(file, recs, j);
}

} // verus!
