//! A model of the target machine running a listing of symbolic assembly, and
//! what the emitted fragments do on it: pushing and adding, comparing, a call
//! answered by a return, and popping into and pushing from a segment.
//!
//! The model runs the listing line by line: a label stands for the index of
//! the line that declares it, and comment and label lines take a step that
//! changes nothing but the line index. Words are integers in 0 .. 65536, and
//! the model knows the instructions that those fragments use.
use vstd::prelude::*;
use crate::code_gen::{add_asm, call_asm, compare_asm, comparison_label, function_asm, is_comparison, pop_asm, push_asm, push_header, return_asm, return_label};
use crate::compiler::{is_label, translate, ErrorKind, lemma_push_push_add_unit};
use crate::parser::unit_text;
use crate::segment::{MemorySegments, is_indirect, segment_base};
use crate::text::{decimal, digits_value, is_digits, lemma_decimal_is_digits};

verus! {

/// Registers, RAM (16-bit words held as integers in 0 .. 65536) and the
/// index of the next line to run.
pub ghost struct Hack {
    pub a: int,
    pub d: int,
    pub ram: Map<int, int>,
    pub pc: int,
}

pub open spec fn word(x: int) -> int {
    x % 65536
}

/// The cell that A selects.
pub open spec fn m_reg(h: Hack) -> int {
    h.ram[h.a]
}

/// Index of the line that declares label `x`, if any.
pub open spec fn label_pos(prog: Seq<Seq<char>>, x: Seq<char>) -> int {
    if exists|i: int| 0 <= i < prog.len() && prog[i] == "("@ + x + ")"@ {
        choose|i: int| 0 <= i < prog.len() && prog[i] == "("@ + x + ")"@
    } else {
        -1
    }
}

/// What `@x` loads into A.
pub open spec fn at_value(prog: Seq<Seq<char>>, x: Seq<char>) -> int {
    if is_digits(x) {
        digits_value(x) as int
    } else if x == "SP"@ {
        0
    } else if x == "LCL"@ {
        1
    } else if x == "ARG"@ {
        2
    } else if x == "THIS"@ {
        3
    } else if x == "THAT"@ {
        4
    } else {
        label_pos(prog, x)
    }
}

/// The effect of a computing instruction on the registers and RAM.
pub open spec fn compute(h: Hack, t: Seq<char>) -> Option<Hack> {
    if t == "D=A"@ {
        Some(Hack { d: h.a, ..h })
    } else if t == "D=M"@ {
        Some(Hack { d: m_reg(h), ..h })
    } else if t == "M=D"@ {
        Some(Hack { ram: h.ram.insert(h.a, h.d), ..h })
    } else if t == "A=A-1"@ {
        Some(Hack { a: word(h.a - 1), ..h })
    } else if t == "A=M-1"@ {
        Some(Hack { a: word(m_reg(h) - 1), ..h })
    } else if t == "AM=M-1"@ {
        Some(Hack { a: word(m_reg(h) - 1), ram: h.ram.insert(h.a, word(m_reg(h) - 1)), ..h })
    } else if t == "AM=M+1"@ {
        Some(Hack { a: word(m_reg(h) + 1), ram: h.ram.insert(h.a, word(m_reg(h) + 1)), ..h })
    } else if t == "M=D+M"@ {
        Some(Hack { ram: h.ram.insert(h.a, word(h.d + m_reg(h))), ..h })
    } else if t == "D=M-D"@ {
        Some(Hack { d: word(m_reg(h) - h.d), ..h })
    } else if t == "M=-1"@ {
        Some(Hack { ram: h.ram.insert(h.a, 65535), ..h })
    } else if t == "M=0"@ {
        Some(Hack { ram: h.ram.insert(h.a, 0), ..h })
    } else if t == "D=D-A"@ {
        Some(Hack { d: word(h.d - h.a), ..h })
    } else if t == "M=M+D"@ {
        Some(Hack { ram: h.ram.insert(h.a, word(m_reg(h) + h.d)), ..h })
    } else if t == "A=M"@ {
        Some(Hack { a: m_reg(h), ..h })
    } else if t == "M=D+1"@ {
        Some(Hack { ram: h.ram.insert(h.a, word(h.d + 1)), ..h })
    } else if t == "D=D+M"@ {
        Some(Hack { d: word(h.d + m_reg(h)), ..h })
    } else if t == "M=D-M"@ {
        Some(Hack { ram: h.ram.insert(h.a, word(h.d - m_reg(h))), ..h })
    } else if t == "A=D-M"@ {
        Some(Hack { a: word(h.d - m_reg(h)), ..h })
    } else if t == "D=D+A"@ {
        Some(Hack { d: word(h.d + h.a), ..h })
    } else if t == "A=D-A"@ {
        Some(Hack { a: word(h.d - h.a), ..h })
    } else if t == "M=D-A"@ {
        Some(Hack { ram: h.ram.insert(h.a, word(h.d - h.a)), ..h })
    } else if t == "A=D+A"@ {
        Some(Hack { a: word(h.d + h.a), ..h })
    } else if t == "M=M+1"@ {
        Some(Hack { ram: h.ram.insert(h.a, word(m_reg(h) + 1)), ..h })
    } else {
        None
    }
}

/// The condition of a jump instruction on D, read as a signed word.
pub open spec fn jump_taken(t: Seq<char>, d: int) -> Option<bool> {
    if t == "0;JMP"@ {
        Some(true)
    } else if t == "D;JEQ"@ {
        Some(d == 0)
    } else if t == "D;JGT"@ {
        Some(0 < d < 32768)
    } else if t == "D;JLT"@ {
        Some(d >= 32768)
    } else if t == "D;JNE"@ {
        Some(d != 0)
    } else {
        None
    }
}

/// Runs the line at `pc`; a line the model does not know stops the machine
/// (at `pc` -1).
pub open spec fn step(prog: Seq<Seq<char>>, h: Hack) -> Hack {
    let t = prog[h.pc];
    if (t.len() > 0 && t[0] == '(') || (t.len() > 1 && t[0] == '/' && t[1] == '/') {
        Hack { pc: h.pc + 1, ..h }
    } else if t.len() > 0 && t[0] == '@' {
        Hack { a: at_value(prog, t.drop_first()), pc: h.pc + 1, ..h }
    } else {
        match jump_taken(t, h.d) {
            Some(true) => Hack { pc: h.a, ..h },
            Some(false) => Hack { pc: h.pc + 1, ..h },
            None => match compute(h, t) {
                Some(n) => Hack { pc: h.pc + 1, ..n },
                None => Hack { pc: -1, ..h },
            },
        }
    }
}

/// At most `fuel` steps, stopping when `pc` leaves the listing.
pub open spec fn run(prog: Seq<Seq<char>>, h: Hack, fuel: nat) -> Hack
    decreases fuel,
{
    if fuel == 0 || h.pc < 0 || h.pc >= prog.len() {
        h
    } else {
        run(prog, step(prog, h), (fuel - 1) as nat)
    }
}

pub proof fn lemma_run_split(prog: Seq<Seq<char>>, h: Hack, f1: nat, f2: nat)
    ensures
        run(prog, h, f1 + f2) == run(prog, run(prog, h, f1), f2),
    decreases f1,
{
    if f1 > 0 && 0 <= h.pc < prog.len() {
        lemma_run_split(prog, step(prog, h), (f1 - 1) as nat, f2);
        assert((f1 + f2 - 1) as nat == ((f1 - 1) as nat + f2) as nat);
    } else if f1 == 0 {
        assert(f1 + f2 == f2);
    }
}

/// The effect of each line the laws below run.
proof fn lemma_steps(prog: Seq<Seq<char>>, h: Hack)
    requires
        0 <= h.pc < prog.len(),
    ensures
        prog[h.pc] == "D=A"@ ==> step(prog, h) == (Hack { d: h.a, pc: h.pc + 1, ..h }),
        prog[h.pc] == "D=M"@ ==> step(prog, h) == (Hack { d: m_reg(h), pc: h.pc + 1, ..h }),
        prog[h.pc] == "M=D"@ ==> step(prog, h) == (Hack { ram: h.ram.insert(h.a, h.d), pc: h.pc + 1, ..h }),
        prog[h.pc] == "A=A-1"@ ==> step(prog, h) == (Hack { a: word(h.a - 1), pc: h.pc + 1, ..h }),
        prog[h.pc] == "A=M-1"@ ==> step(prog, h) == (Hack { a: word(m_reg(h) - 1), pc: h.pc + 1, ..h }),
        prog[h.pc] == "AM=M-1"@ ==> step(prog, h) == (Hack {
            a: word(m_reg(h) - 1),
            ram: h.ram.insert(h.a, word(m_reg(h) - 1)),
            pc: h.pc + 1,
            ..h
        }),
        prog[h.pc] == "AM=M+1"@ ==> step(prog, h) == (Hack {
            a: word(m_reg(h) + 1),
            ram: h.ram.insert(h.a, word(m_reg(h) + 1)),
            pc: h.pc + 1,
            ..h
        }),
        prog[h.pc] == "M=D+M"@ ==> step(prog, h) == (Hack { ram: h.ram.insert(h.a, word(h.d + m_reg(h))), pc: h.pc + 1, ..h }),
        prog[h.pc] == "D=M-D"@ ==> step(prog, h) == (Hack { d: word(m_reg(h) - h.d), pc: h.pc + 1, ..h }),
        prog[h.pc] == "M=-1"@ ==> step(prog, h) == (Hack { ram: h.ram.insert(h.a, 65535), pc: h.pc + 1, ..h }),
        prog[h.pc] == "M=0"@ ==> step(prog, h) == (Hack { ram: h.ram.insert(h.a, 0), pc: h.pc + 1, ..h }),
        prog[h.pc] == "@SP"@ ==> step(prog, h) == (Hack { a: 0, pc: h.pc + 1, ..h }),
        prog[h.pc] == "@LCL"@ ==> step(prog, h) == (Hack { a: 1, pc: h.pc + 1, ..h }),
        prog[h.pc] == "@ARG"@ ==> step(prog, h) == (Hack { a: 2, pc: h.pc + 1, ..h }),
        prog[h.pc] == "@THIS"@ ==> step(prog, h) == (Hack { a: 3, pc: h.pc + 1, ..h }),
        prog[h.pc] == "@THAT"@ ==> step(prog, h) == (Hack { a: 4, pc: h.pc + 1, ..h }),
        prog[h.pc] == "D=D-A"@ ==> step(prog, h) == (Hack { d: word(h.d - h.a), pc: h.pc + 1, ..h }),
        prog[h.pc] == "M=M+D"@ ==> step(prog, h) == (Hack { ram: h.ram.insert(h.a, word(m_reg(h) + h.d)), pc: h.pc + 1, ..h }),
        prog[h.pc] == "A=M"@ ==> step(prog, h) == (Hack { a: m_reg(h), pc: h.pc + 1, ..h }),
        prog[h.pc] == "M=D+1"@ ==> step(prog, h) == (Hack { ram: h.ram.insert(h.a, word(h.d + 1)), pc: h.pc + 1, ..h }),
        prog[h.pc] == "D=D+M"@ ==> step(prog, h) == (Hack { d: word(h.d + m_reg(h)), pc: h.pc + 1, ..h }),
        prog[h.pc] == "M=D-M"@ ==> step(prog, h) == (Hack { ram: h.ram.insert(h.a, word(h.d - m_reg(h))), pc: h.pc + 1, ..h }),
        prog[h.pc] == "A=D-M"@ ==> step(prog, h) == (Hack { a: word(h.d - m_reg(h)), pc: h.pc + 1, ..h }),
        prog[h.pc] == "0;JMP"@ ==> step(prog, h) == (Hack { pc: h.a, ..h }),
        prog[h.pc] == "D;JEQ"@ ==> step(prog, h) == (Hack { pc: if h.d == 0 { h.a } else { h.pc + 1 }, ..h }),
        prog[h.pc] == "D;JGT"@ ==> step(prog, h) == (Hack { pc: if 0 < h.d < 32768 { h.a } else { h.pc + 1 }, ..h }),
        prog[h.pc] == "D;JLT"@ ==> step(prog, h) == (Hack { pc: if h.d >= 32768 { h.a } else { h.pc + 1 }, ..h }),
{
    reveal_strlit("D=A");
    reveal_strlit("D=M");
    reveal_strlit("M=D");
    reveal_strlit("A=A-1");
    reveal_strlit("A=M-1");
    reveal_strlit("AM=M-1");
    reveal_strlit("AM=M+1");
    reveal_strlit("M=D+M");
    reveal_strlit("D=M-D");
    reveal_strlit("M=-1");
    reveal_strlit("M=0");
    reveal_strlit("D=D-A");
    reveal_strlit("M=M+D");
    reveal_strlit("A=M");
    reveal_strlit("M=D+1");
    reveal_strlit("D=D+M");
    reveal_strlit("M=D-M");
    reveal_strlit("A=D-M");
    reveal_strlit("0;JMP");
    reveal_strlit("D;JEQ");
    reveal_strlit("D;JGT");
    reveal_strlit("D;JLT");
    reveal_strlit("D;JNE");
    reveal_strlit("@SP");
    reveal_strlit("SP");
    reveal_strlit("@LCL");
    reveal_strlit("LCL");
    reveal_strlit("@ARG");
    reveal_strlit("ARG");
    reveal_strlit("@THIS");
    reveal_strlit("THIS");
    reveal_strlit("@THAT");
    reveal_strlit("THAT");
    assert("D=A"@ != "D=M"@) by {
        assert("D=A"@[2] != "D=M"@[2]);
    }
    assert("D=A"@ != "M=D"@) by {
        assert("D=A"@[0] != "M=D"@[0]);
    }
    assert("D=A"@ != "M=0"@) by {
        assert("D=A"@[0] != "M=0"@[0]);
    }
    assert("D=A"@ != "A=M"@) by {
        assert("D=A"@[0] != "A=M"@[0]);
    }
    assert("D=M"@ != "M=D"@) by {
        assert("D=M"@[0] != "M=D"@[0]);
    }
    assert("D=M"@ != "M=0"@) by {
        assert("D=M"@[0] != "M=0"@[0]);
    }
    assert("D=M"@ != "A=M"@) by {
        assert("D=M"@[0] != "A=M"@[0]);
    }
    assert("M=D"@ != "M=0"@) by {
        assert("M=D"@[2] != "M=0"@[2]);
    }
    assert("M=D"@ != "A=M"@) by {
        assert("M=D"@[0] != "A=M"@[0]);
    }
    assert("A=A-1"@ != "A=M-1"@) by {
        assert("A=A-1"@[2] != "A=M-1"@[2]);
    }
    assert("A=A-1"@ != "M=D+M"@) by {
        assert("A=A-1"@[0] != "M=D+M"@[0]);
    }
    assert("A=A-1"@ != "D=M-D"@) by {
        assert("A=A-1"@[0] != "D=M-D"@[0]);
    }
    assert("A=A-1"@ != "D=D-A"@) by {
        assert("A=A-1"@[0] != "D=D-A"@[0]);
    }
    assert("A=A-1"@ != "M=M+D"@) by {
        assert("A=A-1"@[0] != "M=M+D"@[0]);
    }
    assert("A=A-1"@ != "M=D+1"@) by {
        assert("A=A-1"@[0] != "M=D+1"@[0]);
    }
    assert("A=A-1"@ != "D=D+M"@) by {
        assert("A=A-1"@[0] != "D=D+M"@[0]);
    }
    assert("A=A-1"@ != "M=D-M"@) by {
        assert("A=A-1"@[0] != "M=D-M"@[0]);
    }
    assert("A=A-1"@ != "A=D-M"@) by {
        assert("A=A-1"@[2] != "A=D-M"@[2]);
    }
    assert("A=A-1"@ != "0;JMP"@) by {
        assert("A=A-1"@[0] != "0;JMP"@[0]);
    }
    assert("A=A-1"@ != "D;JEQ"@) by {
        assert("A=A-1"@[0] != "D;JEQ"@[0]);
    }
    assert("A=A-1"@ != "D;JGT"@) by {
        assert("A=A-1"@[0] != "D;JGT"@[0]);
    }
    assert("A=A-1"@ != "D;JLT"@) by {
        assert("A=A-1"@[0] != "D;JLT"@[0]);
    }
    assert("A=A-1"@ != "D;JNE"@) by {
        assert("A=A-1"@[0] != "D;JNE"@[0]);
    }
    assert("A=M-1"@ != "M=D+M"@) by {
        assert("A=M-1"@[0] != "M=D+M"@[0]);
    }
    assert("A=M-1"@ != "D=M-D"@) by {
        assert("A=M-1"@[0] != "D=M-D"@[0]);
    }
    assert("A=M-1"@ != "D=D-A"@) by {
        assert("A=M-1"@[0] != "D=D-A"@[0]);
    }
    assert("A=M-1"@ != "M=M+D"@) by {
        assert("A=M-1"@[0] != "M=M+D"@[0]);
    }
    assert("A=M-1"@ != "M=D+1"@) by {
        assert("A=M-1"@[0] != "M=D+1"@[0]);
    }
    assert("A=M-1"@ != "D=D+M"@) by {
        assert("A=M-1"@[0] != "D=D+M"@[0]);
    }
    assert("A=M-1"@ != "M=D-M"@) by {
        assert("A=M-1"@[0] != "M=D-M"@[0]);
    }
    assert("A=M-1"@ != "A=D-M"@) by {
        assert("A=M-1"@[2] != "A=D-M"@[2]);
    }
    assert("A=M-1"@ != "0;JMP"@) by {
        assert("A=M-1"@[0] != "0;JMP"@[0]);
    }
    assert("A=M-1"@ != "D;JEQ"@) by {
        assert("A=M-1"@[0] != "D;JEQ"@[0]);
    }
    assert("A=M-1"@ != "D;JGT"@) by {
        assert("A=M-1"@[0] != "D;JGT"@[0]);
    }
    assert("A=M-1"@ != "D;JLT"@) by {
        assert("A=M-1"@[0] != "D;JLT"@[0]);
    }
    assert("A=M-1"@ != "D;JNE"@) by {
        assert("A=M-1"@[0] != "D;JNE"@[0]);
    }
    assert("AM=M-1"@ != "AM=M+1"@) by {
        assert("AM=M-1"@[4] != "AM=M+1"@[4]);
    }
    assert("M=D+M"@ != "D=M-D"@) by {
        assert("M=D+M"@[0] != "D=M-D"@[0]);
    }
    assert("M=D+M"@ != "D=D-A"@) by {
        assert("M=D+M"@[0] != "D=D-A"@[0]);
    }
    assert("M=D+M"@ != "M=M+D"@) by {
        assert("M=D+M"@[2] != "M=M+D"@[2]);
    }
    assert("M=D+M"@ != "M=D+1"@) by {
        assert("M=D+M"@[4] != "M=D+1"@[4]);
    }
    assert("M=D+M"@ != "D=D+M"@) by {
        assert("M=D+M"@[0] != "D=D+M"@[0]);
    }
    assert("M=D+M"@ != "M=D-M"@) by {
        assert("M=D+M"@[3] != "M=D-M"@[3]);
    }
    assert("M=D+M"@ != "A=D-M"@) by {
        assert("M=D+M"@[0] != "A=D-M"@[0]);
    }
    assert("M=D+M"@ != "0;JMP"@) by {
        assert("M=D+M"@[0] != "0;JMP"@[0]);
    }
    assert("M=D+M"@ != "D;JEQ"@) by {
        assert("M=D+M"@[0] != "D;JEQ"@[0]);
    }
    assert("M=D+M"@ != "D;JGT"@) by {
        assert("M=D+M"@[0] != "D;JGT"@[0]);
    }
    assert("M=D+M"@ != "D;JLT"@) by {
        assert("M=D+M"@[0] != "D;JLT"@[0]);
    }
    assert("M=D+M"@ != "D;JNE"@) by {
        assert("M=D+M"@[0] != "D;JNE"@[0]);
    }
    assert("D=M-D"@ != "D=D-A"@) by {
        assert("D=M-D"@[2] != "D=D-A"@[2]);
    }
    assert("D=M-D"@ != "M=M+D"@) by {
        assert("D=M-D"@[0] != "M=M+D"@[0]);
    }
    assert("D=M-D"@ != "M=D+1"@) by {
        assert("D=M-D"@[0] != "M=D+1"@[0]);
    }
    assert("D=M-D"@ != "D=D+M"@) by {
        assert("D=M-D"@[2] != "D=D+M"@[2]);
    }
    assert("D=M-D"@ != "M=D-M"@) by {
        assert("D=M-D"@[0] != "M=D-M"@[0]);
    }
    assert("D=M-D"@ != "A=D-M"@) by {
        assert("D=M-D"@[0] != "A=D-M"@[0]);
    }
    assert("D=M-D"@ != "0;JMP"@) by {
        assert("D=M-D"@[0] != "0;JMP"@[0]);
    }
    assert("D=M-D"@ != "D;JEQ"@) by {
        assert("D=M-D"@[1] != "D;JEQ"@[1]);
    }
    assert("D=M-D"@ != "D;JGT"@) by {
        assert("D=M-D"@[1] != "D;JGT"@[1]);
    }
    assert("D=M-D"@ != "D;JLT"@) by {
        assert("D=M-D"@[1] != "D;JLT"@[1]);
    }
    assert("D=M-D"@ != "D;JNE"@) by {
        assert("D=M-D"@[1] != "D;JNE"@[1]);
    }
    assert("M=0"@ != "A=M"@) by {
        assert("M=0"@[0] != "A=M"@[0]);
    }
    assert("D=D-A"@ != "M=M+D"@) by {
        assert("D=D-A"@[0] != "M=M+D"@[0]);
    }
    assert("D=D-A"@ != "M=D+1"@) by {
        assert("D=D-A"@[0] != "M=D+1"@[0]);
    }
    assert("D=D-A"@ != "D=D+M"@) by {
        assert("D=D-A"@[3] != "D=D+M"@[3]);
    }
    assert("D=D-A"@ != "M=D-M"@) by {
        assert("D=D-A"@[0] != "M=D-M"@[0]);
    }
    assert("D=D-A"@ != "A=D-M"@) by {
        assert("D=D-A"@[0] != "A=D-M"@[0]);
    }
    assert("D=D-A"@ != "0;JMP"@) by {
        assert("D=D-A"@[0] != "0;JMP"@[0]);
    }
    assert("D=D-A"@ != "D;JEQ"@) by {
        assert("D=D-A"@[1] != "D;JEQ"@[1]);
    }
    assert("D=D-A"@ != "D;JGT"@) by {
        assert("D=D-A"@[1] != "D;JGT"@[1]);
    }
    assert("D=D-A"@ != "D;JLT"@) by {
        assert("D=D-A"@[1] != "D;JLT"@[1]);
    }
    assert("D=D-A"@ != "D;JNE"@) by {
        assert("D=D-A"@[1] != "D;JNE"@[1]);
    }
    assert("M=M+D"@ != "M=D+1"@) by {
        assert("M=M+D"@[2] != "M=D+1"@[2]);
    }
    assert("M=M+D"@ != "D=D+M"@) by {
        assert("M=M+D"@[0] != "D=D+M"@[0]);
    }
    assert("M=M+D"@ != "M=D-M"@) by {
        assert("M=M+D"@[2] != "M=D-M"@[2]);
    }
    assert("M=M+D"@ != "A=D-M"@) by {
        assert("M=M+D"@[0] != "A=D-M"@[0]);
    }
    assert("M=M+D"@ != "0;JMP"@) by {
        assert("M=M+D"@[0] != "0;JMP"@[0]);
    }
    assert("M=M+D"@ != "D;JEQ"@) by {
        assert("M=M+D"@[0] != "D;JEQ"@[0]);
    }
    assert("M=M+D"@ != "D;JGT"@) by {
        assert("M=M+D"@[0] != "D;JGT"@[0]);
    }
    assert("M=M+D"@ != "D;JLT"@) by {
        assert("M=M+D"@[0] != "D;JLT"@[0]);
    }
    assert("M=M+D"@ != "D;JNE"@) by {
        assert("M=M+D"@[0] != "D;JNE"@[0]);
    }
    assert("M=D+1"@ != "D=D+M"@) by {
        assert("M=D+1"@[0] != "D=D+M"@[0]);
    }
    assert("M=D+1"@ != "M=D-M"@) by {
        assert("M=D+1"@[3] != "M=D-M"@[3]);
    }
    assert("M=D+1"@ != "A=D-M"@) by {
        assert("M=D+1"@[0] != "A=D-M"@[0]);
    }
    assert("M=D+1"@ != "0;JMP"@) by {
        assert("M=D+1"@[0] != "0;JMP"@[0]);
    }
    assert("M=D+1"@ != "D;JEQ"@) by {
        assert("M=D+1"@[0] != "D;JEQ"@[0]);
    }
    assert("M=D+1"@ != "D;JGT"@) by {
        assert("M=D+1"@[0] != "D;JGT"@[0]);
    }
    assert("M=D+1"@ != "D;JLT"@) by {
        assert("M=D+1"@[0] != "D;JLT"@[0]);
    }
    assert("M=D+1"@ != "D;JNE"@) by {
        assert("M=D+1"@[0] != "D;JNE"@[0]);
    }
    assert("D=D+M"@ != "M=D-M"@) by {
        assert("D=D+M"@[0] != "M=D-M"@[0]);
    }
    assert("D=D+M"@ != "A=D-M"@) by {
        assert("D=D+M"@[0] != "A=D-M"@[0]);
    }
    assert("D=D+M"@ != "0;JMP"@) by {
        assert("D=D+M"@[0] != "0;JMP"@[0]);
    }
    assert("D=D+M"@ != "D;JEQ"@) by {
        assert("D=D+M"@[1] != "D;JEQ"@[1]);
    }
    assert("D=D+M"@ != "D;JGT"@) by {
        assert("D=D+M"@[1] != "D;JGT"@[1]);
    }
    assert("D=D+M"@ != "D;JLT"@) by {
        assert("D=D+M"@[1] != "D;JLT"@[1]);
    }
    assert("D=D+M"@ != "D;JNE"@) by {
        assert("D=D+M"@[1] != "D;JNE"@[1]);
    }
    assert("M=D-M"@ != "A=D-M"@) by {
        assert("M=D-M"@[0] != "A=D-M"@[0]);
    }
    assert("M=D-M"@ != "0;JMP"@) by {
        assert("M=D-M"@[0] != "0;JMP"@[0]);
    }
    assert("M=D-M"@ != "D;JEQ"@) by {
        assert("M=D-M"@[0] != "D;JEQ"@[0]);
    }
    assert("M=D-M"@ != "D;JGT"@) by {
        assert("M=D-M"@[0] != "D;JGT"@[0]);
    }
    assert("M=D-M"@ != "D;JLT"@) by {
        assert("M=D-M"@[0] != "D;JLT"@[0]);
    }
    assert("M=D-M"@ != "D;JNE"@) by {
        assert("M=D-M"@[0] != "D;JNE"@[0]);
    }
    assert("A=D-M"@ != "0;JMP"@) by {
        assert("A=D-M"@[0] != "0;JMP"@[0]);
    }
    assert("A=D-M"@ != "D;JEQ"@) by {
        assert("A=D-M"@[0] != "D;JEQ"@[0]);
    }
    assert("A=D-M"@ != "D;JGT"@) by {
        assert("A=D-M"@[0] != "D;JGT"@[0]);
    }
    assert("A=D-M"@ != "D;JLT"@) by {
        assert("A=D-M"@[0] != "D;JLT"@[0]);
    }
    assert("A=D-M"@ != "D;JNE"@) by {
        assert("A=D-M"@[0] != "D;JNE"@[0]);
    }
    assert("0;JMP"@ != "D;JEQ"@) by {
        assert("0;JMP"@[0] != "D;JEQ"@[0]);
    }
    assert("0;JMP"@ != "D;JGT"@) by {
        assert("0;JMP"@[0] != "D;JGT"@[0]);
    }
    assert("0;JMP"@ != "D;JLT"@) by {
        assert("0;JMP"@[0] != "D;JLT"@[0]);
    }
    assert("0;JMP"@ != "D;JNE"@) by {
        assert("0;JMP"@[0] != "D;JNE"@[0]);
    }
    assert("D;JEQ"@ != "D;JGT"@) by {
        assert("D;JEQ"@[3] != "D;JGT"@[3]);
    }
    assert("D;JEQ"@ != "D;JLT"@) by {
        assert("D;JEQ"@[3] != "D;JLT"@[3]);
    }
    assert("D;JEQ"@ != "D;JNE"@) by {
        assert("D;JEQ"@[3] != "D;JNE"@[3]);
    }
    assert("D;JGT"@ != "D;JLT"@) by {
        assert("D;JGT"@[3] != "D;JLT"@[3]);
    }
    assert("D;JGT"@ != "D;JNE"@) by {
        assert("D;JGT"@[3] != "D;JNE"@[3]);
    }
    assert("D;JLT"@ != "D;JNE"@) by {
        assert("D;JLT"@[3] != "D;JNE"@[3]);
    }
    assert("LCL"@ != "ARG"@) by {
        assert("LCL"@[0] != "ARG"@[0]);
    }
    assert("THIS"@ != "THAT"@) by {
        assert("THIS"@[2] != "THAT"@[2]);
    }
    let x = prog[h.pc].drop_first();
    if prog[h.pc] == "@SP"@ {
        assert(x =~= "SP"@);
        assert(!crate::text::is_digit(x[0]));
    }
    if prog[h.pc] == "@LCL"@ {
        assert(x =~= "LCL"@);
        assert(!crate::text::is_digit(x[0]));
    }
    if prog[h.pc] == "@ARG"@ {
        assert(x =~= "ARG"@);
        assert(!crate::text::is_digit(x[0]));
    }
    if prog[h.pc] == "@THIS"@ {
        assert(x =~= "THIS"@);
        assert(!crate::text::is_digit(x[0]));
    }
    if prog[h.pc] == "@THAT"@ {
        assert(x =~= "THAT"@);
        assert(!crate::text::is_digit(x[0]));
    }
}


/// The effect of the lines that reach a segment through its base register.
proof fn lemma_access_steps(prog: Seq<Seq<char>>, h: Hack)
    requires
        0 <= h.pc < prog.len(),
    ensures
        prog[h.pc] == "D=D+A"@ ==> step(prog, h) == (Hack { d: word(h.d + h.a), pc: h.pc + 1, ..h }),
        prog[h.pc] == "A=D-A"@ ==> step(prog, h) == (Hack { a: word(h.d - h.a), pc: h.pc + 1, ..h }),
        prog[h.pc] == "M=D-A"@ ==> step(prog, h) == (Hack { ram: h.ram.insert(h.a, word(h.d - h.a)), pc: h.pc + 1, ..h }),
        prog[h.pc] == "A=D+A"@ ==> step(prog, h) == (Hack { a: word(h.d + h.a), pc: h.pc + 1, ..h }),
        prog[h.pc] == "M=M+1"@ ==> step(prog, h) == (Hack { ram: h.ram.insert(h.a, word(m_reg(h) + 1)), pc: h.pc + 1, ..h }),
{
    reveal_strlit("D=A");
    reveal_strlit("D=M");
    reveal_strlit("M=D");
    reveal_strlit("A=A-1");
    reveal_strlit("A=M-1");
    reveal_strlit("AM=M-1");
    reveal_strlit("AM=M+1");
    reveal_strlit("M=D+M");
    reveal_strlit("D=M-D");
    reveal_strlit("M=-1");
    reveal_strlit("M=0");
    reveal_strlit("D=D-A");
    reveal_strlit("M=M+D");
    reveal_strlit("A=M");
    reveal_strlit("M=D+1");
    reveal_strlit("D=D+M");
    reveal_strlit("M=D-M");
    reveal_strlit("A=D-M");
    reveal_strlit("D=D+A");
    reveal_strlit("A=D-A");
    reveal_strlit("M=D-A");
    reveal_strlit("A=D+A");
    reveal_strlit("M=M+1");
    reveal_strlit("0;JMP");
    reveal_strlit("D;JEQ");
    reveal_strlit("D;JGT");
    reveal_strlit("D;JLT");
    reveal_strlit("D;JNE");
    assert("D=D+A"@ != "A=A-1"@) by {
        assert("D=D+A"@[0] != "A=A-1"@[0]);
    }
    assert("D=D+A"@ != "A=M-1"@) by {
        assert("D=D+A"@[0] != "A=M-1"@[0]);
    }
    assert("D=D+A"@ != "M=D+M"@) by {
        assert("D=D+A"@[0] != "M=D+M"@[0]);
    }
    assert("D=D+A"@ != "D=M-D"@) by {
        assert("D=D+A"@[2] != "D=M-D"@[2]);
    }
    assert("D=D+A"@ != "D=D-A"@) by {
        assert("D=D+A"@[3] != "D=D-A"@[3]);
    }
    assert("D=D+A"@ != "M=M+D"@) by {
        assert("D=D+A"@[0] != "M=M+D"@[0]);
    }
    assert("D=D+A"@ != "M=D+1"@) by {
        assert("D=D+A"@[0] != "M=D+1"@[0]);
    }
    assert("D=D+A"@ != "D=D+M"@) by {
        assert("D=D+A"@[4] != "D=D+M"@[4]);
    }
    assert("D=D+A"@ != "M=D-M"@) by {
        assert("D=D+A"@[0] != "M=D-M"@[0]);
    }
    assert("D=D+A"@ != "A=D-M"@) by {
        assert("D=D+A"@[0] != "A=D-M"@[0]);
    }
    assert("D=D+A"@ != "A=D-A"@) by {
        assert("D=D+A"@[0] != "A=D-A"@[0]);
    }
    assert("D=D+A"@ != "M=D-A"@) by {
        assert("D=D+A"@[0] != "M=D-A"@[0]);
    }
    assert("D=D+A"@ != "A=D+A"@) by {
        assert("D=D+A"@[0] != "A=D+A"@[0]);
    }
    assert("D=D+A"@ != "M=M+1"@) by {
        assert("D=D+A"@[0] != "M=M+1"@[0]);
    }
    assert("D=D+A"@ != "0;JMP"@) by {
        assert("D=D+A"@[0] != "0;JMP"@[0]);
    }
    assert("D=D+A"@ != "D;JEQ"@) by {
        assert("D=D+A"@[1] != "D;JEQ"@[1]);
    }
    assert("D=D+A"@ != "D;JGT"@) by {
        assert("D=D+A"@[1] != "D;JGT"@[1]);
    }
    assert("D=D+A"@ != "D;JLT"@) by {
        assert("D=D+A"@[1] != "D;JLT"@[1]);
    }
    assert("D=D+A"@ != "D;JNE"@) by {
        assert("D=D+A"@[1] != "D;JNE"@[1]);
    }
    assert("A=D-A"@ != "A=A-1"@) by {
        assert("A=D-A"@[2] != "A=A-1"@[2]);
    }
    assert("A=D-A"@ != "A=M-1"@) by {
        assert("A=D-A"@[2] != "A=M-1"@[2]);
    }
    assert("A=D-A"@ != "M=D+M"@) by {
        assert("A=D-A"@[0] != "M=D+M"@[0]);
    }
    assert("A=D-A"@ != "D=M-D"@) by {
        assert("A=D-A"@[0] != "D=M-D"@[0]);
    }
    assert("A=D-A"@ != "D=D-A"@) by {
        assert("A=D-A"@[0] != "D=D-A"@[0]);
    }
    assert("A=D-A"@ != "M=M+D"@) by {
        assert("A=D-A"@[0] != "M=M+D"@[0]);
    }
    assert("A=D-A"@ != "M=D+1"@) by {
        assert("A=D-A"@[0] != "M=D+1"@[0]);
    }
    assert("A=D-A"@ != "D=D+M"@) by {
        assert("A=D-A"@[0] != "D=D+M"@[0]);
    }
    assert("A=D-A"@ != "M=D-M"@) by {
        assert("A=D-A"@[0] != "M=D-M"@[0]);
    }
    assert("A=D-A"@ != "A=D-M"@) by {
        assert("A=D-A"@[4] != "A=D-M"@[4]);
    }
    assert("A=D-A"@ != "D=D+A"@) by {
        assert("A=D-A"@[0] != "D=D+A"@[0]);
    }
    assert("A=D-A"@ != "M=D-A"@) by {
        assert("A=D-A"@[0] != "M=D-A"@[0]);
    }
    assert("A=D-A"@ != "A=D+A"@) by {
        assert("A=D-A"@[3] != "A=D+A"@[3]);
    }
    assert("A=D-A"@ != "M=M+1"@) by {
        assert("A=D-A"@[0] != "M=M+1"@[0]);
    }
    assert("A=D-A"@ != "0;JMP"@) by {
        assert("A=D-A"@[0] != "0;JMP"@[0]);
    }
    assert("A=D-A"@ != "D;JEQ"@) by {
        assert("A=D-A"@[0] != "D;JEQ"@[0]);
    }
    assert("A=D-A"@ != "D;JGT"@) by {
        assert("A=D-A"@[0] != "D;JGT"@[0]);
    }
    assert("A=D-A"@ != "D;JLT"@) by {
        assert("A=D-A"@[0] != "D;JLT"@[0]);
    }
    assert("A=D-A"@ != "D;JNE"@) by {
        assert("A=D-A"@[0] != "D;JNE"@[0]);
    }
    assert("M=D-A"@ != "A=A-1"@) by {
        assert("M=D-A"@[0] != "A=A-1"@[0]);
    }
    assert("M=D-A"@ != "A=M-1"@) by {
        assert("M=D-A"@[0] != "A=M-1"@[0]);
    }
    assert("M=D-A"@ != "M=D+M"@) by {
        assert("M=D-A"@[3] != "M=D+M"@[3]);
    }
    assert("M=D-A"@ != "D=M-D"@) by {
        assert("M=D-A"@[0] != "D=M-D"@[0]);
    }
    assert("M=D-A"@ != "D=D-A"@) by {
        assert("M=D-A"@[0] != "D=D-A"@[0]);
    }
    assert("M=D-A"@ != "M=M+D"@) by {
        assert("M=D-A"@[2] != "M=M+D"@[2]);
    }
    assert("M=D-A"@ != "M=D+1"@) by {
        assert("M=D-A"@[3] != "M=D+1"@[3]);
    }
    assert("M=D-A"@ != "D=D+M"@) by {
        assert("M=D-A"@[0] != "D=D+M"@[0]);
    }
    assert("M=D-A"@ != "M=D-M"@) by {
        assert("M=D-A"@[4] != "M=D-M"@[4]);
    }
    assert("M=D-A"@ != "A=D-M"@) by {
        assert("M=D-A"@[0] != "A=D-M"@[0]);
    }
    assert("M=D-A"@ != "D=D+A"@) by {
        assert("M=D-A"@[0] != "D=D+A"@[0]);
    }
    assert("M=D-A"@ != "A=D-A"@) by {
        assert("M=D-A"@[0] != "A=D-A"@[0]);
    }
    assert("M=D-A"@ != "A=D+A"@) by {
        assert("M=D-A"@[0] != "A=D+A"@[0]);
    }
    assert("M=D-A"@ != "M=M+1"@) by {
        assert("M=D-A"@[2] != "M=M+1"@[2]);
    }
    assert("M=D-A"@ != "0;JMP"@) by {
        assert("M=D-A"@[0] != "0;JMP"@[0]);
    }
    assert("M=D-A"@ != "D;JEQ"@) by {
        assert("M=D-A"@[0] != "D;JEQ"@[0]);
    }
    assert("M=D-A"@ != "D;JGT"@) by {
        assert("M=D-A"@[0] != "D;JGT"@[0]);
    }
    assert("M=D-A"@ != "D;JLT"@) by {
        assert("M=D-A"@[0] != "D;JLT"@[0]);
    }
    assert("M=D-A"@ != "D;JNE"@) by {
        assert("M=D-A"@[0] != "D;JNE"@[0]);
    }
    assert("A=D+A"@ != "A=A-1"@) by {
        assert("A=D+A"@[2] != "A=A-1"@[2]);
    }
    assert("A=D+A"@ != "A=M-1"@) by {
        assert("A=D+A"@[2] != "A=M-1"@[2]);
    }
    assert("A=D+A"@ != "M=D+M"@) by {
        assert("A=D+A"@[0] != "M=D+M"@[0]);
    }
    assert("A=D+A"@ != "D=M-D"@) by {
        assert("A=D+A"@[0] != "D=M-D"@[0]);
    }
    assert("A=D+A"@ != "D=D-A"@) by {
        assert("A=D+A"@[0] != "D=D-A"@[0]);
    }
    assert("A=D+A"@ != "M=M+D"@) by {
        assert("A=D+A"@[0] != "M=M+D"@[0]);
    }
    assert("A=D+A"@ != "M=D+1"@) by {
        assert("A=D+A"@[0] != "M=D+1"@[0]);
    }
    assert("A=D+A"@ != "D=D+M"@) by {
        assert("A=D+A"@[0] != "D=D+M"@[0]);
    }
    assert("A=D+A"@ != "M=D-M"@) by {
        assert("A=D+A"@[0] != "M=D-M"@[0]);
    }
    assert("A=D+A"@ != "A=D-M"@) by {
        assert("A=D+A"@[3] != "A=D-M"@[3]);
    }
    assert("A=D+A"@ != "D=D+A"@) by {
        assert("A=D+A"@[0] != "D=D+A"@[0]);
    }
    assert("A=D+A"@ != "A=D-A"@) by {
        assert("A=D+A"@[3] != "A=D-A"@[3]);
    }
    assert("A=D+A"@ != "M=D-A"@) by {
        assert("A=D+A"@[0] != "M=D-A"@[0]);
    }
    assert("A=D+A"@ != "M=M+1"@) by {
        assert("A=D+A"@[0] != "M=M+1"@[0]);
    }
    assert("A=D+A"@ != "0;JMP"@) by {
        assert("A=D+A"@[0] != "0;JMP"@[0]);
    }
    assert("A=D+A"@ != "D;JEQ"@) by {
        assert("A=D+A"@[0] != "D;JEQ"@[0]);
    }
    assert("A=D+A"@ != "D;JGT"@) by {
        assert("A=D+A"@[0] != "D;JGT"@[0]);
    }
    assert("A=D+A"@ != "D;JLT"@) by {
        assert("A=D+A"@[0] != "D;JLT"@[0]);
    }
    assert("A=D+A"@ != "D;JNE"@) by {
        assert("A=D+A"@[0] != "D;JNE"@[0]);
    }
    assert("M=M+1"@ != "A=A-1"@) by {
        assert("M=M+1"@[0] != "A=A-1"@[0]);
    }
    assert("M=M+1"@ != "A=M-1"@) by {
        assert("M=M+1"@[0] != "A=M-1"@[0]);
    }
    assert("M=M+1"@ != "M=D+M"@) by {
        assert("M=M+1"@[2] != "M=D+M"@[2]);
    }
    assert("M=M+1"@ != "D=M-D"@) by {
        assert("M=M+1"@[0] != "D=M-D"@[0]);
    }
    assert("M=M+1"@ != "D=D-A"@) by {
        assert("M=M+1"@[0] != "D=D-A"@[0]);
    }
    assert("M=M+1"@ != "M=M+D"@) by {
        assert("M=M+1"@[4] != "M=M+D"@[4]);
    }
    assert("M=M+1"@ != "M=D+1"@) by {
        assert("M=M+1"@[2] != "M=D+1"@[2]);
    }
    assert("M=M+1"@ != "D=D+M"@) by {
        assert("M=M+1"@[0] != "D=D+M"@[0]);
    }
    assert("M=M+1"@ != "M=D-M"@) by {
        assert("M=M+1"@[2] != "M=D-M"@[2]);
    }
    assert("M=M+1"@ != "A=D-M"@) by {
        assert("M=M+1"@[0] != "A=D-M"@[0]);
    }
    assert("M=M+1"@ != "D=D+A"@) by {
        assert("M=M+1"@[0] != "D=D+A"@[0]);
    }
    assert("M=M+1"@ != "A=D-A"@) by {
        assert("M=M+1"@[0] != "A=D-A"@[0]);
    }
    assert("M=M+1"@ != "M=D-A"@) by {
        assert("M=M+1"@[2] != "M=D-A"@[2]);
    }
    assert("M=M+1"@ != "A=D+A"@) by {
        assert("M=M+1"@[0] != "A=D+A"@[0]);
    }
    assert("M=M+1"@ != "0;JMP"@) by {
        assert("M=M+1"@[0] != "0;JMP"@[0]);
    }
    assert("M=M+1"@ != "D;JEQ"@) by {
        assert("M=M+1"@[0] != "D;JEQ"@[0]);
    }
    assert("M=M+1"@ != "D;JGT"@) by {
        assert("M=M+1"@[0] != "D;JGT"@[0]);
    }
    assert("M=M+1"@ != "D;JLT"@) by {
        assert("M=M+1"@[0] != "D;JLT"@[0]);
    }
    assert("M=M+1"@ != "D;JNE"@) by {
        assert("M=M+1"@[0] != "D;JNE"@[0]);
    }
}

proof fn lemma_run_step(prog: Seq<Seq<char>>, h: Hack, fuel: nat)
    requires
        fuel > 0,
        0 <= h.pc < prog.len(),
    ensures
        run(prog, h, fuel) == run(prog, step(prog, h), (fuel - 1) as nat),
{
}

/// A comment or label line only moves on.
proof fn lemma_skip_step(prog: Seq<Seq<char>>, h: Hack)
    requires
        0 <= h.pc < prog.len(),
        (prog[h.pc].len() > 1 && prog[h.pc][0] == '/' && prog[h.pc][1] == '/') || (prog[h.pc].len() > 0 && prog[h.pc][0] == '('),
    ensures
        step(prog, h) == (Hack { pc: h.pc + 1, ..h }),
{
}

/// `@n` loads `n`.
proof fn lemma_at_number(prog: Seq<Seq<char>>, h: Hack, n: nat)
    requires
        0 <= h.pc < prog.len(),
        prog[h.pc] == "@"@ + decimal(n),
    ensures
        step(prog, h) == (Hack { a: n as int, pc: h.pc + 1, ..h }),
{
    reveal_strlit("@");
    lemma_decimal_is_digits(n);
    assert(prog[h.pc].drop_first() =~= decimal(n));
}

/// `push constant n` at `h.pc`: `n` is stored at the top and the stack
/// grows by one.
#[verifier::rlimit(50)]
proof fn lemma_push_constant(prog: Seq<Seq<char>>, h: Hack, file: Seq<char>, n: nat)
    requires
        0 <= h.pc,
        h.pc + 7 <= prog.len(),
        forall|j: int| 0 <= j < 7 ==> prog[h.pc + j] == #[trigger] push_asm(file, MemorySegments::Constant, n)[j],
        1 <= h.ram[0],
        h.ram[0] + 1 < 65536,
    ensures
        run(prog, h, 7) == (Hack {
            a: h.ram[0],
            d: n as int,
            ram: h.ram.insert(0, h.ram[0] + 1).insert(h.ram[0], n as int),
            pc: h.pc + 7,
        }),
{
    let f = push_asm(file, MemorySegments::Constant, n);
    let sp = h.ram[0];
    let s = h.pc;
    reveal_strlit("//push ");
    assert(f[0] == push_header(MemorySegments::Constant, n));
    assert(prog[s][0] == '/' && prog[s][1] == '/');
    lemma_skip_step(prog, h);
    let h1 = Hack { pc: s + 1, ..h };
    assert(prog[s + 1] == f[1]);
    lemma_at_number(prog, h1, n);
    let h2 = Hack { a: n as int, pc: s + 2, ..h };
    assert(prog[s + 2] == f[2]);
    let h3 = Hack { d: n as int, pc: s + 3, ..h2 };
    assert(step(prog, h2) == h3) by {
        lemma_steps(prog, h2);
    }
    assert(prog[s + 3] == f[3]);
    let h4 = Hack { a: 0, pc: s + 4, ..h3 };
    assert(step(prog, h3) == h4) by {
        lemma_steps(prog, h3);
    }
    assert(prog[s + 4] == f[4]);
    let h5 = Hack { a: sp + 1, ram: h.ram.insert(0, sp + 1), pc: s + 5, ..h4 };
    assert(step(prog, h4) == h5) by {
        lemma_steps(prog, h4);
    }
    assert(prog[s + 5] == f[5]);
    let h6 = Hack { a: sp, pc: s + 6, ..h5 };
    assert(step(prog, h5) == h6) by {
        lemma_steps(prog, h5);
    }
    assert(prog[s + 6] == f[6]);
    let h7 = Hack { ram: h5.ram.insert(sp, n as int), pc: s + 7, ..h6 };
    assert(step(prog, h6) == h7) by {
        lemma_steps(prog, h6);
    }
    lemma_run_step(prog, h, 7);
    lemma_run_step(prog, h1, 6);
    lemma_run_step(prog, h2, 5);
    lemma_run_step(prog, h3, 4);
    lemma_run_step(prog, h4, 3);
    lemma_run_step(prog, h5, 2);
    lemma_run_step(prog, h6, 1);
}

/// `add` at `h.pc`: the two top values are replaced by their sum.
#[verifier::rlimit(50)]
proof fn lemma_add(prog: Seq<Seq<char>>, h: Hack)
    requires
        0 <= h.pc,
        h.pc + 7 <= prog.len(),
        forall|j: int| 0 <= j < 7 ==> prog[h.pc + j] == #[trigger] add_asm()[j],
        3 <= h.ram[0] < 65536,
    ensures
        run(prog, h, 7) == (Hack {
            a: h.ram[0] - 2,
            d: h.ram[h.ram[0] - 1],
            ram: h.ram.insert(0, h.ram[0] - 1).insert(h.ram[0] - 2, word(h.ram[h.ram[0] - 1] + h.ram[h.ram[0] - 2])),
            pc: h.pc + 7,
        }),
{
    let f = add_asm();
    let sp = h.ram[0];
    let s = h.pc;
    reveal_strlit("//add");
    assert(prog[s] == f[0]);
    lemma_skip_step(prog, h);
    let h1 = Hack { pc: s + 1, ..h };
    assert(prog[s + 1] == f[1]);
    let h2 = Hack { a: 0, pc: s + 2, ..h1 };
    assert(step(prog, h1) == h2) by {
        lemma_steps(prog, h1);
    }
    assert(prog[s + 2] == f[2]);
    let r1 = h.ram.insert(0, sp - 1);
    let h3 = Hack { a: sp - 1, ram: r1, pc: s + 3, ..h2 };
    assert(step(prog, h2) == h3) by {
        lemma_steps(prog, h2);
    }
    assert(prog[s + 3] == f[3]);
    let h4 = Hack { d: h.ram[sp - 1], pc: s + 4, ..h3 };
    assert(step(prog, h3) == h4) by {
        lemma_steps(prog, h3);
    }
    assert(prog[s + 4] == f[4]);
    let h5 = Hack { a: 0, pc: s + 5, ..h4 };
    assert(step(prog, h4) == h5) by {
        lemma_steps(prog, h4);
    }
    assert(prog[s + 5] == f[5]);
    let h6 = Hack { a: sp - 2, pc: s + 6, ..h5 };
    assert(step(prog, h5) == h6) by {
        lemma_steps(prog, h5);
    }
    assert(prog[s + 6] == f[6]);
    let h7 = Hack { ram: r1.insert(sp - 2, word(h.ram[sp - 1] + h.ram[sp - 2])), pc: s + 7, ..h6 };
    assert(step(prog, h6) == h7) by {
        lemma_steps(prog, h6);
    }
    lemma_run_step(prog, h, 7);
    lemma_run_step(prog, h1, 6);
    lemma_run_step(prog, h2, 5);
    lemma_run_step(prog, h3, 4);
    lemma_run_step(prog, h4, 3);
    lemma_run_step(prog, h5, 2);
    lemma_run_step(prog, h6, 1);
}

/// Pushing the constants `x` and `y` and then adding leaves `x + y` on top
/// of the stack, in the cell that `x` was pushed to, with the stack pointer
/// one above where it was; no cell but those three changes.
#[verifier::spinoff_prover]
#[verifier::rlimit(100)]
pub proof fn lemma_push_push_add(file: Seq<char>, x: nat, y: nat, h: Hack)
    requires
        x <= 32767,
        y <= 32767,
        h.pc == 0,
        1 <= h.ram[0],
        h.ram[0] + 2 < 65536,
    ensures
        ({
            let prog = push_asm(file, MemorySegments::Constant, x) + push_asm(file, MemorySegments::Constant, y) + add_asm();
            let r = run(prog, h, prog.len());
            &&& r.pc == prog.len()
            &&& r.ram[0] == h.ram[0] + 1
            &&& r.ram[h.ram[0]] == x + y
            &&& forall|k: int| k != 0 && k != h.ram[0] && k != h.ram[0] + 1 ==> #[trigger] r.ram[k] == h.ram[k]
        }),
{
    let px = push_asm(file, MemorySegments::Constant, x);
    let py = push_asm(file, MemorySegments::Constant, y);
    let prog = px + py + add_asm();
    let sp = h.ram[0];
    assert(px.len() == 7 && py.len() == 7 && add_asm().len() == 7);
    assert forall|j: int| 0 <= j < 7 implies prog[0 + j] == #[trigger] px[j] by {}
    lemma_push_constant(prog, h, file, x);
    let g1 = run(prog, h, 7);
    assert forall|j: int| 0 <= j < 7 implies prog[g1.pc + j] == #[trigger] py[j] by {
        assert(prog[7 + j] == py[j]);
    }
    lemma_push_constant(prog, g1, file, y);
    let g2 = run(prog, g1, 7);
    assert forall|j: int| 0 <= j < 7 implies prog[g2.pc + j] == #[trigger] add_asm()[j] by {
        assert(prog[14 + j] == add_asm()[j]);
    }
    lemma_add(prog, g2);
    lemma_run_split(prog, h, 7, 7);
    lemma_run_split(prog, h, 14, 7);
    assert(prog.len() == 21);
    assert(g2.ram[sp + 1] == y);
    assert(g2.ram[sp] == x);
}

/// The unit `push constant x`, `push constant y`, `add`, as text: it
/// translates to the three fragments, and running them leaves `x + y` on top
/// of the stack with the stack pointer one above where it was.
pub proof fn lemma_push_push_add_source(file: Seq<char>, x: nat, y: nat, h: Hack)
    requires
        x <= 32767,
        y <= 32767,
        h.pc == 0,
        1 <= h.ram[0],
        h.ram[0] + 2 < 65536,
    ensures
        ({
            let prog = push_asm(file, MemorySegments::Constant, x) + push_asm(file, MemorySegments::Constant, y) + add_asm();
            let r = run(prog, h, prog.len());
            &&& translate(file, unit_text(seq![
                seq!["push"@, "constant"@, decimal(x)],
                seq!["push"@, "constant"@, decimal(y)],
                seq!["add"@],
            ])) == Ok::<Seq<Seq<char>>, (nat, ErrorKind)>(prog)
            &&& r.pc == prog.len()
            &&& r.ram[0] == h.ram[0] + 1
            &&& r.ram[h.ram[0]] == x + y
            &&& forall|k: int| k != 0 && k != h.ram[0] && k != h.ram[0] + 1 ==> #[trigger] r.ram[k] == h.ram[k]
        }),
{
    lemma_push_push_add_unit(file, x, y);
    lemma_push_push_add(file, x, y, h);
}

/// Whether a comparison holds, by the sign of `v`, the difference of its
/// operands as a 16-bit word.
pub open spec fn comparison_holds(comp: Seq<char>, v: int) -> bool {
    if comp == "eq"@ {
        v == 0
    } else if comp == "gt"@ {
        0 < v < 32768
    } else {
        v >= 32768
    }
}

/// A symbol with a `.` in it is neither a number nor a register.
proof fn lemma_dotted_symbol(x: Seq<char>, j: int)
    requires
        0 <= j < x.len(),
        x[j] == '.',
    ensures
        !is_digits(x),
        x != "SP"@,
        x != "LCL"@,
        x != "ARG"@,
        x != "THIS"@,
        x != "THAT"@,
{
    reveal_strlit("SP");
    reveal_strlit("LCL");
    reveal_strlit("ARG");
    reveal_strlit("THIS");
    reveal_strlit("THAT");
    assert(!crate::text::is_digit(x[j]));
    if x == "SP"@ || x == "LCL"@ || x == "ARG"@ || x == "THIS"@ || x == "THAT"@ {
        assert(x[j] != '.');
    }
}

/// Only the last line of a comparison declares a label.
proof fn lemma_compare_label(file: Seq<char>, comp: Seq<char>, k: nat)
    requires
        is_comparison(comp),
    ensures
        label_pos(compare_asm(file, comp, k), comparison_label(file, comp, k)) == 12,
{
    let prog = compare_asm(file, comp, k);
    let l = comparison_label(file, comp, k);
    let decl = "("@ + l + ")"@;
    reveal_strlit("(");
    reveal_strlit(")");
    reveal_strlit("//");
    reveal_strlit("@");
    reveal_strlit("@SP");
    reveal_strlit("AM=M-1");
    reveal_strlit("D=M");
    reveal_strlit("A=A-1");
    reveal_strlit("D=M-D");
    reveal_strlit("M=-1");
    reveal_strlit("D;JEQ");
    reveal_strlit("D;JGT");
    reveal_strlit("D;JLT");
    reveal_strlit("A=M-1");
    reveal_strlit("M=0");
    assert(prog.len() == 13);
    assert(prog[12] =~= decl);
    assert forall|i: int| 0 <= i < prog.len() && prog[i] == decl implies i == 12 by {
        if i < 12 {
            assert(decl[0] == '(');
            assert(prog[i][0] != '(');
        }
    }
}

/// `@` with a comparison's join label loads the label's line.
proof fn lemma_compare_at_label(file: Seq<char>, comp: Seq<char>, k: nat)
    requires
        is_comparison(comp),
    ensures
        at_value(compare_asm(file, comp, k), comparison_label(file, comp, k)) == 12,
{
    let l = comparison_label(file, comp, k);
    lemma_compare_label(file, comp, k);
    reveal_strlit(".");
    let j = file.len() as int;
    assert(l[j] == '.');
    lemma_dotted_symbol(l, j);
}

/// A comparison replaces its two operands by one value that is all ones
/// (-1, true) when the comparison holds and all zeros (false) when it does
/// not: never any other pattern.
#[verifier::rlimit(50)]
pub proof fn lemma_comparison_boolean(file: Seq<char>, comp: Seq<char>, k: nat, h: Hack)
    requires
        is_comparison(comp),
        h.pc == 0,
        3 <= h.ram[0] < 65536,
        0 <= h.ram[h.ram[0] - 1] < 65536,
        0 <= h.ram[h.ram[0] - 2] < 65536,
    ensures
        ({
            let prog = compare_asm(file, comp, k);
            let r = run(prog, h, prog.len());
            let v = word(h.ram[h.ram[0] - 2] - h.ram[h.ram[0] - 1]);
            &&& r.pc == prog.len()
            &&& r.ram[0] == h.ram[0] - 1
            &&& r.ram[h.ram[0] - 2] == if comparison_holds(comp, v) {
                65535int
            } else {
                0int
            }
            &&& (r.ram[h.ram[0] - 2] == 0 || r.ram[h.ram[0] - 2] == 65535)
        }),
{
    let prog = compare_asm(file, comp, k);
    let l = comparison_label(file, comp, k);
    let sp = h.ram[0];
    let x = h.ram[sp - 2];
    let y = h.ram[sp - 1];
    let v = word(x - y);
    reveal_strlit("//");
    reveal_strlit("(");
    reveal_strlit("eq");
    reveal_strlit("gt");
    reveal_strlit("lt");
    assert(prog.len() == 13);
    assert(prog[0] == "//"@ + comp);
    lemma_skip_step(prog, h);
    let h1 = Hack { pc: 1, ..h };
    let h2 = Hack { a: 0, pc: 2, ..h1 };
    assert(step(prog, h1) == h2) by {
        lemma_steps(prog, h1);
    }
    let r1 = h.ram.insert(0, sp - 1);
    let h3 = Hack { a: sp - 1, ram: r1, pc: 3, ..h2 };
    assert(step(prog, h2) == h3) by {
        lemma_steps(prog, h2);
    }
    let h4 = Hack { d: y, pc: 4, ..h3 };
    assert(step(prog, h3) == h4) by {
        lemma_steps(prog, h3);
    }
    let h5 = Hack { a: sp - 2, pc: 5, ..h4 };
    assert(step(prog, h4) == h5) by {
        lemma_steps(prog, h4);
    }
    let h6 = Hack { d: v, pc: 6, ..h5 };
    assert(step(prog, h5) == h6) by {
        lemma_steps(prog, h5);
    }
    let r2 = r1.insert(sp - 2, 65535);
    let h7 = Hack { ram: r2, pc: 7, ..h6 };
    assert(step(prog, h6) == h7) by {
        lemma_steps(prog, h6);
    }
    reveal_strlit("@");
    assert(prog[7] == "@"@ + l);
    assert(prog[7].drop_first() =~= l);
    lemma_compare_at_label(file, comp, k);
    let h8 = Hack { a: 12, pc: 8, ..h7 };
    assert(step(prog, h7) == h8);
    assert(prog[12] =~= "("@ + l + ")"@);
    lemma_run_step(prog, h, 13);
    lemma_run_step(prog, h1, 12);
    lemma_run_step(prog, h2, 11);
    lemma_run_step(prog, h3, 10);
    lemma_run_step(prog, h4, 9);
    lemma_run_step(prog, h5, 8);
    lemma_run_step(prog, h6, 7);
    lemma_run_step(prog, h7, 6);
    lemma_run_step(prog, h8, 5);
    if comparison_holds(comp, v) {
        let h9 = Hack { pc: 12, ..h8 };
        assert(step(prog, h8) == h9) by {
            lemma_steps(prog, h8);
        }
        lemma_skip_step(prog, h9);
        let h10 = Hack { pc: 13, ..h9 };
        lemma_run_step(prog, h9, 4);
        assert(run(prog, h10, 3) == h10);
    } else {
        let h9 = Hack { pc: 9, ..h8 };
        assert(step(prog, h8) == h9) by {
            lemma_steps(prog, h8);
        }
        let h10 = Hack { a: 0, pc: 10, ..h9 };
        assert(step(prog, h9) == h10) by {
            lemma_steps(prog, h9);
        }
        let h11 = Hack { a: sp - 2, pc: 11, ..h10 };
        assert(step(prog, h10) == h11) by {
            lemma_steps(prog, h10);
        }
        let h12 = Hack { ram: r2.insert(sp - 2, 0), pc: 12, ..h11 };
        assert(step(prog, h11) == h12) by {
            lemma_steps(prog, h11);
        }
        lemma_skip_step(prog, h12);
        lemma_run_step(prog, h9, 4);
        lemma_run_step(prog, h10, 3);
        lemma_run_step(prog, h11, 2);
        lemma_run_step(prog, h12, 1);
    }
}

/// The lines of a call of `f` with `n` arguments, followed by `f` itself,
/// which pushes `c` and returns.
#[verifier::opaque]
pub open spec fn frame_program(file: Seq<char>, f: Seq<char>, n: nat, c: nat, k: nat) -> Seq<Seq<char>> {
    call_asm(file, f, n, k) + function_asm(f, 0) + push_asm(file, MemorySegments::Constant, c) + return_asm()
}

pub open spec fn is_register_name(x: Seq<char>) -> bool {
    x == "SP"@ || x == "LCL"@ || x == "ARG"@ || x == "THIS"@ || x == "THAT"@
}

/// Each line of the call, the callee and its return.
#[verifier::rlimit(100)]
proof fn lemma_frame_lines(file: Seq<char>, f: Seq<char>, n: nat, c: nat, k: nat)
    ensures
        ({
            let prog = frame_program(file, f, n, c, k);
            let ret = return_label(file, f, k);
            &&& prog.len() == 90
            &&& prog[0] == "//call "@ + f + " "@ + decimal(n)
            &&& prog[1] == "@"@ + ret
            &&& prog[2] == "D=A"@
            &&& prog[3] == "@SP"@
            &&& prog[4] == "AM=M+1"@
            &&& prog[5] == "A=A-1"@
            &&& prog[6] == "M=D"@
            &&& prog[7] == "@LCL"@
            &&& prog[8] == "D=M"@
            &&& prog[9] == "@SP"@
            &&& prog[10] == "AM=M+1"@
            &&& prog[11] == "A=A-1"@
            &&& prog[12] == "M=D"@
            &&& prog[13] == "@ARG"@
            &&& prog[14] == "D=M"@
            &&& prog[15] == "@SP"@
            &&& prog[16] == "AM=M+1"@
            &&& prog[17] == "A=A-1"@
            &&& prog[18] == "M=D"@
            &&& prog[19] == "@THIS"@
            &&& prog[20] == "D=M"@
            &&& prog[21] == "@SP"@
            &&& prog[22] == "AM=M+1"@
            &&& prog[23] == "A=A-1"@
            &&& prog[24] == "M=D"@
            &&& prog[25] == "@THAT"@
            &&& prog[26] == "D=M"@
            &&& prog[27] == "@SP"@
            &&& prog[28] == "AM=M+1"@
            &&& prog[29] == "A=A-1"@
            &&& prog[30] == "M=D"@
            &&& prog[31] == "@SP"@
            &&& prog[32] == "D=M"@
            &&& prog[33] == "@LCL"@
            &&& prog[34] == "M=D"@
            &&& prog[35] == "@"@ + decimal(n + 5)
            &&& prog[36] == "D=D-A"@
            &&& prog[37] == "@ARG"@
            &&& prog[38] == "M=D"@
            &&& prog[39] == "@"@ + f
            &&& prog[40] == "0;JMP"@
            &&& prog[41] == "("@ + ret + ")"@
            &&& prog[42] == "//function "@ + f + " "@ + decimal(0)
            &&& prog[43] == "("@ + f + ")"@
            &&& prog[44] == "@"@ + decimal(0)
            &&& prog[45] == "D=A"@
            &&& prog[46] == "@SP"@
            &&& prog[47] == "M=M+D"@
            &&& prog[48] == push_header(MemorySegments::Constant, c)
            &&& prog[49] == "@"@ + decimal(c)
            &&& prog[50] == "D=A"@
            &&& prog[51] == "@SP"@
            &&& prog[52] == "AM=M+1"@
            &&& prog[53] == "A=A-1"@
            &&& prog[54] == "M=D"@
            &&& prog[55] == "//return"@
            &&& prog[56] == "@SP"@
            &&& prog[57] == "A=M-1"@
            &&& prog[58] == "D=M"@
            &&& prog[59] == "@ARG"@
            &&& prog[60] == "A=M"@
            &&& prog[61] == "M=D"@
            &&& prog[62] == "D=A"@
            &&& prog[63] == "@SP"@
            &&& prog[64] == "M=D+1"@
            &&& prog[65] == "@LCL"@
            &&& prog[66] == "AM=M-1"@
            &&& prog[67] == "D=M"@
            &&& prog[68] == "@THAT"@
            &&& prog[69] == "M=D"@
            &&& prog[70] == "@LCL"@
            &&& prog[71] == "AM=M-1"@
            &&& prog[72] == "D=M"@
            &&& prog[73] == "@THIS"@
            &&& prog[74] == "M=D"@
            &&& prog[75] == "@LCL"@
            &&& prog[76] == "AM=M-1"@
            &&& prog[77] == "D=M"@
            &&& prog[78] == "@ARG"@
            &&& prog[79] == "M=D"@
            &&& prog[80] == "@LCL"@
            &&& prog[81] == "AM=M-1"@
            &&& prog[82] == "D=A"@
            &&& prog[83] == "D=D+M"@
            &&& prog[84] == "@LCL"@
            &&& prog[85] == "M=D-M"@
            &&& prog[86] == "A=D-M"@
            &&& prog[87] == "A=A-1"@
            &&& prog[88] == "A=M"@
            &&& prog[89] == "0;JMP"@
        }),
{
    reveal(frame_program);
    let prog = frame_program(file, f, n, c, k);
    reveal_strlit("@");
    reveal_strlit("LCL");
    reveal_strlit("ARG");
    reveal_strlit("THIS");
    reveal_strlit("THAT");
    reveal_strlit("@LCL");
    reveal_strlit("@ARG");
    reveal_strlit("@THIS");
    reveal_strlit("@THAT");
    assert("@LCL"@ =~= "@"@ + "LCL"@);
    assert("@ARG"@ =~= "@"@ + "ARG"@);
    assert("@THIS"@ =~= "@"@ + "THIS"@);
    assert("@THAT"@ =~= "@"@ + "THAT"@);
    assert(call_asm(file, f, n, k).len() == 42);
    assert(function_asm(f, 0).len() == 6);
    assert(push_asm(file, MemorySegments::Constant, c).len() == 7);
    assert(return_asm().len() == 35);
}

/// `@` loads the line of the return label, and that of `f`.
proof fn lemma_frame_labels(file: Seq<char>, f: Seq<char>, n: nat, c: nat, k: nat)
    requires
        is_label(f),
        !is_register_name(f),
    ensures
        at_value(frame_program(file, f, n, c, k), return_label(file, f, k)) == 41,
        at_value(frame_program(file, f, n, c, k), f) == 43,
        frame_program(file, f, n, c, k).len() == 90,
{
    let prog = frame_program(file, f, n, c, k);
    let ret = return_label(file, f, k);
    lemma_frame_lines(file, f, n, c, k);
    reveal_strlit("//call ");
    reveal_strlit("//function ");
    reveal_strlit("//return");
    reveal_strlit("//push ");
    reveal_strlit("@");
    reveal_strlit("(");
    reveal_strlit(")");
    reveal_strlit("D=A");
    reveal_strlit("D=M");
    reveal_strlit("M=D");
    reveal_strlit("A=A-1");
    reveal_strlit("A=M-1");
    reveal_strlit("AM=M-1");
    reveal_strlit("AM=M+1");
    reveal_strlit("M=D+M");
    reveal_strlit("D=D-A");
    reveal_strlit("M=M+D");
    reveal_strlit("A=M");
    reveal_strlit("M=D+1");
    reveal_strlit("D=D+M");
    reveal_strlit("M=D-M");
    reveal_strlit("A=D-M");
    reveal_strlit("0;JMP");
    reveal_strlit("@SP");
    reveal_strlit("@LCL");
    reveal_strlit("@ARG");
    reveal_strlit("@THIS");
    reveal_strlit("@THAT");
    reveal_strlit(".");
    reveal_strlit(".return.");
    assert(prog[41] == "("@ + ret + ")"@);
    assert(prog[43] == "("@ + f + ")"@);
    assert forall|i: int| 0 <= i < 90 && i != 41 && i != 43 implies prog[i].len() == 0 || prog[i][0] != '(' by {
        if i == 0 {
        } else if i == 1 {
        } else if i == 2 {
        } else if i == 3 {
        } else if i == 4 {
        } else if i == 5 {
        } else if i == 6 {
        } else if i == 7 {
        } else if i == 8 {
        } else if i == 9 {
        } else if i == 10 {
        } else if i == 11 {
        } else if i == 12 {
        } else if i == 13 {
        } else if i == 14 {
        } else if i == 15 {
        } else if i == 16 {
        } else if i == 17 {
        } else if i == 18 {
        } else if i == 19 {
        } else if i == 20 {
        } else if i == 21 {
        } else if i == 22 {
        } else if i == 23 {
        } else if i == 24 {
        } else if i == 25 {
        } else if i == 26 {
        } else if i == 27 {
        } else if i == 28 {
        } else if i == 29 {
        } else if i == 30 {
        } else if i == 31 {
        } else if i == 32 {
        } else if i == 33 {
        } else if i == 34 {
        } else if i == 35 {
        } else if i == 36 {
        } else if i == 37 {
        } else if i == 38 {
        } else if i == 39 {
        } else if i == 40 {
        } else if i == 42 {
        } else if i == 44 {
        } else if i == 45 {
        } else if i == 46 {
        } else if i == 47 {
        } else if i == 48 {
        } else if i == 49 {
        } else if i == 50 {
        } else if i == 51 {
        } else if i == 52 {
        } else if i == 53 {
        } else if i == 54 {
        } else if i == 55 {
        } else if i == 56 {
        } else if i == 57 {
        } else if i == 58 {
        } else if i == 59 {
        } else if i == 60 {
        } else if i == 61 {
        } else if i == 62 {
        } else if i == 63 {
        } else if i == 64 {
        } else if i == 65 {
        } else if i == 66 {
        } else if i == 67 {
        } else if i == 68 {
        } else if i == 69 {
        } else if i == 70 {
        } else if i == 71 {
        } else if i == 72 {
        } else if i == 73 {
        } else if i == 74 {
        } else if i == 75 {
        } else if i == 76 {
        } else if i == 77 {
        } else if i == 78 {
        } else if i == 79 {
        } else if i == 80 {
        } else if i == 81 {
        } else if i == 82 {
        } else if i == 83 {
        } else if i == 84 {
        } else if i == 85 {
        } else if i == 86 {
        } else if i == 87 {
        } else if i == 88 {
        } else if i == 89 {
        }
    }
    assert("("@ + ret + ")"@ != "("@ + f + ")"@) by {
        assert(ret.len() > f.len());
        assert(("("@ + ret + ")"@).len() == ret.len() + 2);
        assert(("("@ + f + ")"@).len() == f.len() + 2);
    }
    let j = file.len() as int;
    assert(ret[j] == '.');
    lemma_dotted_symbol(ret, j);
    assert(!is_digits(f)) by {
        assert(!crate::text::is_digit(f[0]));
    }
}

pub proof fn lemma_word_cancel(p: int, q: int)
    requires
        0 <= p < 65536,
        0 <= q < 65536,
    ensures
        word(word(p + q) - p) == q,
        word(word(p + q) - q) == p,
{
}

proof fn lemma_prologue_part(prog: Seq<Seq<char>>, g: Hack, file: Seq<char>, f: Seq<char>, n: nat, c: nat, k: nat, sp: int)
    requires
        prog == frame_program(file, f, n, c, k),
        prog.len() == 90,
        g.pc == 43,
        g.ram[0] == sp + 5,
        0 <= sp,
        sp + 6 < 65536,
    ensures
        run(prog, g, 5) == (Hack { a: 0, d: 0, ram: g.ram.insert(0, sp + 5), pc: 48 }),
{
    let ret = return_label(file, f, k);
    lemma_frame_lines(file, f, n, c, k);
    reveal_strlit("(");
    let w0 = (Hack { a: g.a, d: g.d, ram: g.ram, pc: 43 });
    let w1 = (Hack { a: g.a, d: g.d, ram: g.ram, pc: 44 });
    assert(step(prog, w0) == w1) by {
        lemma_skip_step(prog, w0);
    }
    let w2 = (Hack { a: 0, d: g.d, ram: g.ram, pc: 45 });
    assert(step(prog, w1) == w2) by {
        lemma_at_number(prog, w1, 0);
    }
    let w3 = (Hack { a: 0, d: 0, ram: g.ram, pc: 46 });
    assert(step(prog, w2) == w3) by {
        lemma_steps(prog, w2);
    }
    let w4 = (Hack { a: 0, d: 0, ram: g.ram, pc: 47 });
    assert(step(prog, w3) == w4) by {
        lemma_steps(prog, w3);
    }
    let w5 = (Hack { a: 0, d: 0, ram: g.ram.insert(0, sp + 5), pc: 48 });
    assert(step(prog, w4) == w5) by {
        lemma_steps(prog, w4);
    }
    assert(run(prog, w0, 5) == run(prog, w1, 4)) by {
        lemma_run_step(prog, w0, 5);
    }
    assert(run(prog, w1, 4) == run(prog, w2, 3)) by {
        lemma_run_step(prog, w1, 4);
    }
    assert(run(prog, w2, 3) == run(prog, w3, 2)) by {
        lemma_run_step(prog, w2, 3);
    }
    assert(run(prog, w3, 2) == run(prog, w4, 1)) by {
        lemma_run_step(prog, w3, 2);
    }
    assert(run(prog, w4, 1) == run(prog, w5, 0)) by {
        lemma_run_step(prog, w4, 1);
    }
}

#[verifier::rlimit(100)]
proof fn lemma_call_chunk_0(prog: Seq<Seq<char>>, s: Hack, file: Seq<char>, f: Seq<char>, n: nat, c: nat, k: nat, sp: int, lcl: int, arg: int, ths: int, tht: int, base: Map<int, int>, a0: int, d0: int)
    requires
        prog == frame_program(file, f, n, c, k),
        at_value(prog, return_label(file, f, k)) == 41,
        at_value(prog, f) == 43,
        1 <= n,
        5 <= sp - n,
        sp + 6 < 65536,
        0 <= lcl < 65536,
        base[0] == sp,
        base[1] == lcl,
        base[2] == arg,
        base[3] == ths,
        base[4] == tht,
        s == (Hack { a: a0, d: d0, ram: base, pc: 0 }),
    ensures
        run(prog, s, 6) == (Hack { a: sp, d: 41, ram: base.insert(0, sp + 1), pc: 6 }),
{
    let ret = return_label(file, f, k);
    let ni = n as int;
    let ci = c as int;
    lemma_frame_lines(file, f, n, c, k);
    reveal_strlit("//call ");
    reveal_strlit("//return");
    reveal_strlit("(");
    reveal_strlit("@");
    lemma_word_cancel(sp + 1, lcl);
    let t1 = (Hack { a: a0, d: d0, ram: base, pc: 1 });
    assert(step(prog, s) == t1) by {
        lemma_skip_step(prog, s);
    }
    let t2 = (Hack { a: 41, d: d0, ram: base, pc: 2 });
    assert(step(prog, t1) == t2) by {
        assert(prog[1].drop_first() =~= ret);
    }
    let t3 = (Hack { a: 41, d: 41, ram: base, pc: 3 });
    assert(step(prog, t2) == t3) by {
        lemma_steps(prog, t2);
    }
    let t4 = (Hack { a: 0, d: 41, ram: base, pc: 4 });
    assert(step(prog, t3) == t4) by {
        lemma_steps(prog, t3);
    }
    let t5 = (Hack { a: sp + 1, d: 41, ram: base.insert(0, sp + 1), pc: 5 });
    assert(step(prog, t4) == t5) by {
        lemma_steps(prog, t4);
    }
    let t6 = (Hack { a: sp, d: 41, ram: base.insert(0, sp + 1), pc: 6 });
    assert(step(prog, t5) == t6) by {
        lemma_steps(prog, t5);
    }
    assert(run(prog, s, 6) == run(prog, t1, 5)) by {
        lemma_run_step(prog, s, 6);
    }
    assert(run(prog, t1, 5) == run(prog, t2, 4)) by {
        lemma_run_step(prog, t1, 5);
    }
    assert(run(prog, t2, 4) == run(prog, t3, 3)) by {
        lemma_run_step(prog, t2, 4);
    }
    assert(run(prog, t3, 3) == run(prog, t4, 2)) by {
        lemma_run_step(prog, t3, 3);
    }
    assert(run(prog, t4, 2) == run(prog, t5, 1)) by {
        lemma_run_step(prog, t4, 2);
    }
    assert(run(prog, t5, 1) == run(prog, t6, 0)) by {
        lemma_run_step(prog, t5, 1);
    }
}

#[verifier::rlimit(100)]
proof fn lemma_call_chunk_1(prog: Seq<Seq<char>>, s: Hack, file: Seq<char>, f: Seq<char>, n: nat, c: nat, k: nat, sp: int, lcl: int, arg: int, ths: int, tht: int, base: Map<int, int>, a0: int, d0: int)
    requires
        prog == frame_program(file, f, n, c, k),
        at_value(prog, return_label(file, f, k)) == 41,
        at_value(prog, f) == 43,
        1 <= n,
        5 <= sp - n,
        sp + 6 < 65536,
        0 <= lcl < 65536,
        base[0] == sp,
        base[1] == lcl,
        base[2] == arg,
        base[3] == ths,
        base[4] == tht,
        s == (Hack { a: sp, d: 41, ram: base.insert(0, sp + 1), pc: 6 }),
    ensures
        run(prog, s, 6) == (Hack { a: sp + 1, d: lcl, ram: base.insert(0, sp + 1).insert(sp, 41).insert(0, sp + 2), pc: 12 }),
{
    let ret = return_label(file, f, k);
    let ni = n as int;
    let ci = c as int;
    lemma_frame_lines(file, f, n, c, k);
    reveal_strlit("//call ");
    reveal_strlit("//return");
    reveal_strlit("(");
    reveal_strlit("@");
    lemma_word_cancel(sp + 1, lcl);
    let t1 = (Hack { a: sp, d: 41, ram: base.insert(0, sp + 1).insert(sp, 41), pc: 7 });
    assert(step(prog, s) == t1) by {
        lemma_steps(prog, s);
    }
    let t2 = (Hack { a: 1, d: 41, ram: base.insert(0, sp + 1).insert(sp, 41), pc: 8 });
    assert(step(prog, t1) == t2) by {
        lemma_steps(prog, t1);
    }
    let t3 = (Hack { a: 1, d: lcl, ram: base.insert(0, sp + 1).insert(sp, 41), pc: 9 });
    assert(step(prog, t2) == t3) by {
        lemma_steps(prog, t2);
    }
    let t4 = (Hack { a: 0, d: lcl, ram: base.insert(0, sp + 1).insert(sp, 41), pc: 10 });
    assert(step(prog, t3) == t4) by {
        lemma_steps(prog, t3);
    }
    let t5 = (Hack { a: sp + 2, d: lcl, ram: base.insert(0, sp + 1).insert(sp, 41).insert(0, sp + 2), pc: 11 });
    assert(step(prog, t4) == t5) by {
        lemma_steps(prog, t4);
    }
    let t6 = (Hack { a: sp + 1, d: lcl, ram: base.insert(0, sp + 1).insert(sp, 41).insert(0, sp + 2), pc: 12 });
    assert(step(prog, t5) == t6) by {
        lemma_steps(prog, t5);
    }
    assert(run(prog, s, 6) == run(prog, t1, 5)) by {
        lemma_run_step(prog, s, 6);
    }
    assert(run(prog, t1, 5) == run(prog, t2, 4)) by {
        lemma_run_step(prog, t1, 5);
    }
    assert(run(prog, t2, 4) == run(prog, t3, 3)) by {
        lemma_run_step(prog, t2, 4);
    }
    assert(run(prog, t3, 3) == run(prog, t4, 2)) by {
        lemma_run_step(prog, t3, 3);
    }
    assert(run(prog, t4, 2) == run(prog, t5, 1)) by {
        lemma_run_step(prog, t4, 2);
    }
    assert(run(prog, t5, 1) == run(prog, t6, 0)) by {
        lemma_run_step(prog, t5, 1);
    }
}

#[verifier::rlimit(100)]
proof fn lemma_call_chunk_2(prog: Seq<Seq<char>>, s: Hack, file: Seq<char>, f: Seq<char>, n: nat, c: nat, k: nat, sp: int, lcl: int, arg: int, ths: int, tht: int, base: Map<int, int>, a0: int, d0: int)
    requires
        prog == frame_program(file, f, n, c, k),
        at_value(prog, return_label(file, f, k)) == 41,
        at_value(prog, f) == 43,
        1 <= n,
        5 <= sp - n,
        sp + 6 < 65536,
        0 <= lcl < 65536,
        base[0] == sp,
        base[1] == lcl,
        base[2] == arg,
        base[3] == ths,
        base[4] == tht,
        s == (Hack { a: sp + 1, d: lcl, ram: base.insert(0, sp + 1).insert(sp, 41).insert(0, sp + 2), pc: 12 }),
    ensures
        run(prog, s, 6) == (Hack { a: sp + 2, d: arg, ram: base.insert(0, sp + 1).insert(sp, 41).insert(0, sp + 2).insert(sp + 1, lcl).insert(0, sp + 3), pc: 18 }),
{
    let ret = return_label(file, f, k);
    let ni = n as int;
    let ci = c as int;
    lemma_frame_lines(file, f, n, c, k);
    reveal_strlit("//call ");
    reveal_strlit("//return");
    reveal_strlit("(");
    reveal_strlit("@");
    lemma_word_cancel(sp + 1, lcl);
    let t1 = (Hack { a: sp + 1, d: lcl, ram: base.insert(0, sp + 1).insert(sp, 41).insert(0, sp + 2).insert(sp + 1, lcl), pc: 13 });
    assert(step(prog, s) == t1) by {
        lemma_steps(prog, s);
    }
    let t2 = (Hack { a: 2, d: lcl, ram: base.insert(0, sp + 1).insert(sp, 41).insert(0, sp + 2).insert(sp + 1, lcl), pc: 14 });
    assert(step(prog, t1) == t2) by {
        lemma_steps(prog, t1);
    }
    let t3 = (Hack { a: 2, d: arg, ram: base.insert(0, sp + 1).insert(sp, 41).insert(0, sp + 2).insert(sp + 1, lcl), pc: 15 });
    assert(step(prog, t2) == t3) by {
        lemma_steps(prog, t2);
    }
    let t4 = (Hack { a: 0, d: arg, ram: base.insert(0, sp + 1).insert(sp, 41).insert(0, sp + 2).insert(sp + 1, lcl), pc: 16 });
    assert(step(prog, t3) == t4) by {
        lemma_steps(prog, t3);
    }
    let t5 = (Hack { a: sp + 3, d: arg, ram: base.insert(0, sp + 1).insert(sp, 41).insert(0, sp + 2).insert(sp + 1, lcl).insert(0, sp + 3), pc: 17 });
    assert(step(prog, t4) == t5) by {
        lemma_steps(prog, t4);
    }
    let t6 = (Hack { a: sp + 2, d: arg, ram: base.insert(0, sp + 1).insert(sp, 41).insert(0, sp + 2).insert(sp + 1, lcl).insert(0, sp + 3), pc: 18 });
    assert(step(prog, t5) == t6) by {
        lemma_steps(prog, t5);
    }
    assert(run(prog, s, 6) == run(prog, t1, 5)) by {
        lemma_run_step(prog, s, 6);
    }
    assert(run(prog, t1, 5) == run(prog, t2, 4)) by {
        lemma_run_step(prog, t1, 5);
    }
    assert(run(prog, t2, 4) == run(prog, t3, 3)) by {
        lemma_run_step(prog, t2, 4);
    }
    assert(run(prog, t3, 3) == run(prog, t4, 2)) by {
        lemma_run_step(prog, t3, 3);
    }
    assert(run(prog, t4, 2) == run(prog, t5, 1)) by {
        lemma_run_step(prog, t4, 2);
    }
    assert(run(prog, t5, 1) == run(prog, t6, 0)) by {
        lemma_run_step(prog, t5, 1);
    }
}

#[verifier::rlimit(100)]
proof fn lemma_call_chunk_3(prog: Seq<Seq<char>>, s: Hack, file: Seq<char>, f: Seq<char>, n: nat, c: nat, k: nat, sp: int, lcl: int, arg: int, ths: int, tht: int, base: Map<int, int>, a0: int, d0: int)
    requires
        prog == frame_program(file, f, n, c, k),
        at_value(prog, return_label(file, f, k)) == 41,
        at_value(prog, f) == 43,
        1 <= n,
        5 <= sp - n,
        sp + 6 < 65536,
        0 <= lcl < 65536,
        base[0] == sp,
        base[1] == lcl,
        base[2] == arg,
        base[3] == ths,
        base[4] == tht,
        s == (Hack { a: sp + 2, d: arg, ram: base.insert(0, sp + 1).insert(sp, 41).insert(0, sp + 2).insert(sp + 1, lcl).insert(0, sp + 3), pc: 18 }),
    ensures
        run(prog, s, 6) == (Hack { a: sp + 3, d: ths, ram: base.insert(0, sp + 1).insert(sp, 41).insert(0, sp + 2).insert(sp + 1, lcl).insert(0, sp + 3).insert(sp + 2, arg).insert(0, sp + 4), pc: 24 }),
{
    let ret = return_label(file, f, k);
    let ni = n as int;
    let ci = c as int;
    lemma_frame_lines(file, f, n, c, k);
    reveal_strlit("//call ");
    reveal_strlit("//return");
    reveal_strlit("(");
    reveal_strlit("@");
    lemma_word_cancel(sp + 1, lcl);
    let t1 = (Hack { a: sp + 2, d: arg, ram: base.insert(0, sp + 1).insert(sp, 41).insert(0, sp + 2).insert(sp + 1, lcl).insert(0, sp + 3).insert(sp + 2, arg), pc: 19 });
    assert(step(prog, s) == t1) by {
        lemma_steps(prog, s);
    }
    let t2 = (Hack { a: 3, d: arg, ram: base.insert(0, sp + 1).insert(sp, 41).insert(0, sp + 2).insert(sp + 1, lcl).insert(0, sp + 3).insert(sp + 2, arg), pc: 20 });
    assert(step(prog, t1) == t2) by {
        lemma_steps(prog, t1);
    }
    let t3 = (Hack { a: 3, d: ths, ram: base.insert(0, sp + 1).insert(sp, 41).insert(0, sp + 2).insert(sp + 1, lcl).insert(0, sp + 3).insert(sp + 2, arg), pc: 21 });
    assert(step(prog, t2) == t3) by {
        lemma_steps(prog, t2);
    }
    let t4 = (Hack { a: 0, d: ths, ram: base.insert(0, sp + 1).insert(sp, 41).insert(0, sp + 2).insert(sp + 1, lcl).insert(0, sp + 3).insert(sp + 2, arg), pc: 22 });
    assert(step(prog, t3) == t4) by {
        lemma_steps(prog, t3);
    }
    let t5 = (Hack { a: sp + 4, d: ths, ram: base.insert(0, sp + 1).insert(sp, 41).insert(0, sp + 2).insert(sp + 1, lcl).insert(0, sp + 3).insert(sp + 2, arg).insert(0, sp + 4), pc: 23 });
    assert(step(prog, t4) == t5) by {
        lemma_steps(prog, t4);
    }
    let t6 = (Hack { a: sp + 3, d: ths, ram: base.insert(0, sp + 1).insert(sp, 41).insert(0, sp + 2).insert(sp + 1, lcl).insert(0, sp + 3).insert(sp + 2, arg).insert(0, sp + 4), pc: 24 });
    assert(step(prog, t5) == t6) by {
        lemma_steps(prog, t5);
    }
    assert(run(prog, s, 6) == run(prog, t1, 5)) by {
        lemma_run_step(prog, s, 6);
    }
    assert(run(prog, t1, 5) == run(prog, t2, 4)) by {
        lemma_run_step(prog, t1, 5);
    }
    assert(run(prog, t2, 4) == run(prog, t3, 3)) by {
        lemma_run_step(prog, t2, 4);
    }
    assert(run(prog, t3, 3) == run(prog, t4, 2)) by {
        lemma_run_step(prog, t3, 3);
    }
    assert(run(prog, t4, 2) == run(prog, t5, 1)) by {
        lemma_run_step(prog, t4, 2);
    }
    assert(run(prog, t5, 1) == run(prog, t6, 0)) by {
        lemma_run_step(prog, t5, 1);
    }
}

#[verifier::rlimit(100)]
proof fn lemma_call_chunk_4(prog: Seq<Seq<char>>, s: Hack, file: Seq<char>, f: Seq<char>, n: nat, c: nat, k: nat, sp: int, lcl: int, arg: int, ths: int, tht: int, base: Map<int, int>, a0: int, d0: int)
    requires
        prog == frame_program(file, f, n, c, k),
        at_value(prog, return_label(file, f, k)) == 41,
        at_value(prog, f) == 43,
        1 <= n,
        5 <= sp - n,
        sp + 6 < 65536,
        0 <= lcl < 65536,
        base[0] == sp,
        base[1] == lcl,
        base[2] == arg,
        base[3] == ths,
        base[4] == tht,
        s == (Hack { a: sp + 3, d: ths, ram: base.insert(0, sp + 1).insert(sp, 41).insert(0, sp + 2).insert(sp + 1, lcl).insert(0, sp + 3).insert(sp + 2, arg).insert(0, sp + 4), pc: 24 }),
    ensures
        run(prog, s, 6) == (Hack { a: sp + 4, d: tht, ram: base.insert(0, sp + 1).insert(sp, 41).insert(0, sp + 2).insert(sp + 1, lcl).insert(0, sp + 3).insert(sp + 2, arg).insert(0, sp + 4).insert(sp + 3, ths).insert(0, sp + 5), pc: 30 }),
{
    let ret = return_label(file, f, k);
    let ni = n as int;
    let ci = c as int;
    lemma_frame_lines(file, f, n, c, k);
    reveal_strlit("//call ");
    reveal_strlit("//return");
    reveal_strlit("(");
    reveal_strlit("@");
    lemma_word_cancel(sp + 1, lcl);
    let t1 = (Hack { a: sp + 3, d: ths, ram: base.insert(0, sp + 1).insert(sp, 41).insert(0, sp + 2).insert(sp + 1, lcl).insert(0, sp + 3).insert(sp + 2, arg).insert(0, sp + 4).insert(sp + 3, ths), pc: 25 });
    assert(step(prog, s) == t1) by {
        lemma_steps(prog, s);
    }
    let t2 = (Hack { a: 4, d: ths, ram: base.insert(0, sp + 1).insert(sp, 41).insert(0, sp + 2).insert(sp + 1, lcl).insert(0, sp + 3).insert(sp + 2, arg).insert(0, sp + 4).insert(sp + 3, ths), pc: 26 });
    assert(step(prog, t1) == t2) by {
        lemma_steps(prog, t1);
    }
    let t3 = (Hack { a: 4, d: tht, ram: base.insert(0, sp + 1).insert(sp, 41).insert(0, sp + 2).insert(sp + 1, lcl).insert(0, sp + 3).insert(sp + 2, arg).insert(0, sp + 4).insert(sp + 3, ths), pc: 27 });
    assert(step(prog, t2) == t3) by {
        lemma_steps(prog, t2);
    }
    let t4 = (Hack { a: 0, d: tht, ram: base.insert(0, sp + 1).insert(sp, 41).insert(0, sp + 2).insert(sp + 1, lcl).insert(0, sp + 3).insert(sp + 2, arg).insert(0, sp + 4).insert(sp + 3, ths), pc: 28 });
    assert(step(prog, t3) == t4) by {
        lemma_steps(prog, t3);
    }
    let t5 = (Hack { a: sp + 5, d: tht, ram: base.insert(0, sp + 1).insert(sp, 41).insert(0, sp + 2).insert(sp + 1, lcl).insert(0, sp + 3).insert(sp + 2, arg).insert(0, sp + 4).insert(sp + 3, ths).insert(0, sp + 5), pc: 29 });
    assert(step(prog, t4) == t5) by {
        lemma_steps(prog, t4);
    }
    let t6 = (Hack { a: sp + 4, d: tht, ram: base.insert(0, sp + 1).insert(sp, 41).insert(0, sp + 2).insert(sp + 1, lcl).insert(0, sp + 3).insert(sp + 2, arg).insert(0, sp + 4).insert(sp + 3, ths).insert(0, sp + 5), pc: 30 });
    assert(step(prog, t5) == t6) by {
        lemma_steps(prog, t5);
    }
    assert(run(prog, s, 6) == run(prog, t1, 5)) by {
        lemma_run_step(prog, s, 6);
    }
    assert(run(prog, t1, 5) == run(prog, t2, 4)) by {
        lemma_run_step(prog, t1, 5);
    }
    assert(run(prog, t2, 4) == run(prog, t3, 3)) by {
        lemma_run_step(prog, t2, 4);
    }
    assert(run(prog, t3, 3) == run(prog, t4, 2)) by {
        lemma_run_step(prog, t3, 3);
    }
    assert(run(prog, t4, 2) == run(prog, t5, 1)) by {
        lemma_run_step(prog, t4, 2);
    }
    assert(run(prog, t5, 1) == run(prog, t6, 0)) by {
        lemma_run_step(prog, t5, 1);
    }
}

#[verifier::rlimit(100)]
proof fn lemma_call_chunk_5(prog: Seq<Seq<char>>, s: Hack, file: Seq<char>, f: Seq<char>, n: nat, c: nat, k: nat, sp: int, lcl: int, arg: int, ths: int, tht: int, base: Map<int, int>, a0: int, d0: int)
    requires
        prog == frame_program(file, f, n, c, k),
        at_value(prog, return_label(file, f, k)) == 41,
        at_value(prog, f) == 43,
        1 <= n,
        5 <= sp - n,
        sp + 6 < 65536,
        0 <= lcl < 65536,
        base[0] == sp,
        base[1] == lcl,
        base[2] == arg,
        base[3] == ths,
        base[4] == tht,
        s == (Hack { a: sp + 4, d: tht, ram: base.insert(0, sp + 1).insert(sp, 41).insert(0, sp + 2).insert(sp + 1, lcl).insert(0, sp + 3).insert(sp + 2, arg).insert(0, sp + 4).insert(sp + 3, ths).insert(0, sp + 5), pc: 30 }),
    ensures
        run(prog, s, 6) == (Hack { a: (n as int) + 5, d: sp + 5, ram: base.insert(0, sp + 1).insert(sp, 41).insert(0, sp + 2).insert(sp + 1, lcl).insert(0, sp + 3).insert(sp + 2, arg).insert(0, sp + 4).insert(sp + 3, ths).insert(0, sp + 5).insert(sp + 4, tht).insert(1, sp + 5), pc: 36 }),
{
    let ret = return_label(file, f, k);
    let ni = n as int;
    let ci = c as int;
    lemma_frame_lines(file, f, n, c, k);
    reveal_strlit("//call ");
    reveal_strlit("//return");
    reveal_strlit("(");
    reveal_strlit("@");
    lemma_word_cancel(sp + 1, lcl);
    let t1 = (Hack { a: sp + 4, d: tht, ram: base.insert(0, sp + 1).insert(sp, 41).insert(0, sp + 2).insert(sp + 1, lcl).insert(0, sp + 3).insert(sp + 2, arg).insert(0, sp + 4).insert(sp + 3, ths).insert(0, sp + 5).insert(sp + 4, tht), pc: 31 });
    assert(step(prog, s) == t1) by {
        lemma_steps(prog, s);
    }
    let t2 = (Hack { a: 0, d: tht, ram: base.insert(0, sp + 1).insert(sp, 41).insert(0, sp + 2).insert(sp + 1, lcl).insert(0, sp + 3).insert(sp + 2, arg).insert(0, sp + 4).insert(sp + 3, ths).insert(0, sp + 5).insert(sp + 4, tht), pc: 32 });
    assert(step(prog, t1) == t2) by {
        lemma_steps(prog, t1);
    }
    let t3 = (Hack { a: 0, d: sp + 5, ram: base.insert(0, sp + 1).insert(sp, 41).insert(0, sp + 2).insert(sp + 1, lcl).insert(0, sp + 3).insert(sp + 2, arg).insert(0, sp + 4).insert(sp + 3, ths).insert(0, sp + 5).insert(sp + 4, tht), pc: 33 });
    assert(step(prog, t2) == t3) by {
        lemma_steps(prog, t2);
    }
    let t4 = (Hack { a: 1, d: sp + 5, ram: base.insert(0, sp + 1).insert(sp, 41).insert(0, sp + 2).insert(sp + 1, lcl).insert(0, sp + 3).insert(sp + 2, arg).insert(0, sp + 4).insert(sp + 3, ths).insert(0, sp + 5).insert(sp + 4, tht), pc: 34 });
    assert(step(prog, t3) == t4) by {
        lemma_steps(prog, t3);
    }
    let t5 = (Hack { a: 1, d: sp + 5, ram: base.insert(0, sp + 1).insert(sp, 41).insert(0, sp + 2).insert(sp + 1, lcl).insert(0, sp + 3).insert(sp + 2, arg).insert(0, sp + 4).insert(sp + 3, ths).insert(0, sp + 5).insert(sp + 4, tht).insert(1, sp + 5), pc: 35 });
    assert(step(prog, t4) == t5) by {
        lemma_steps(prog, t4);
    }
    let t6 = (Hack { a: ni + 5, d: sp + 5, ram: base.insert(0, sp + 1).insert(sp, 41).insert(0, sp + 2).insert(sp + 1, lcl).insert(0, sp + 3).insert(sp + 2, arg).insert(0, sp + 4).insert(sp + 3, ths).insert(0, sp + 5).insert(sp + 4, tht).insert(1, sp + 5), pc: 36 });
    assert(step(prog, t5) == t6) by {
        lemma_at_number(prog, t5, n + 5);
    }
    assert(run(prog, s, 6) == run(prog, t1, 5)) by {
        lemma_run_step(prog, s, 6);
    }
    assert(run(prog, t1, 5) == run(prog, t2, 4)) by {
        lemma_run_step(prog, t1, 5);
    }
    assert(run(prog, t2, 4) == run(prog, t3, 3)) by {
        lemma_run_step(prog, t2, 4);
    }
    assert(run(prog, t3, 3) == run(prog, t4, 2)) by {
        lemma_run_step(prog, t3, 3);
    }
    assert(run(prog, t4, 2) == run(prog, t5, 1)) by {
        lemma_run_step(prog, t4, 2);
    }
    assert(run(prog, t5, 1) == run(prog, t6, 0)) by {
        lemma_run_step(prog, t5, 1);
    }
}

#[verifier::rlimit(100)]
proof fn lemma_call_chunk_6(prog: Seq<Seq<char>>, s: Hack, file: Seq<char>, f: Seq<char>, n: nat, c: nat, k: nat, sp: int, lcl: int, arg: int, ths: int, tht: int, base: Map<int, int>, a0: int, d0: int)
    requires
        prog == frame_program(file, f, n, c, k),
        at_value(prog, return_label(file, f, k)) == 41,
        at_value(prog, f) == 43,
        1 <= n,
        5 <= sp - n,
        sp + 6 < 65536,
        0 <= lcl < 65536,
        base[0] == sp,
        base[1] == lcl,
        base[2] == arg,
        base[3] == ths,
        base[4] == tht,
        s == (Hack { a: (n as int) + 5, d: sp + 5, ram: base.insert(0, sp + 1).insert(sp, 41).insert(0, sp + 2).insert(sp + 1, lcl).insert(0, sp + 3).insert(sp + 2, arg).insert(0, sp + 4).insert(sp + 3, ths).insert(0, sp + 5).insert(sp + 4, tht).insert(1, sp + 5), pc: 36 }),
    ensures
        run(prog, s, 5) == (Hack { a: 43, d: sp - (n as int), ram: base.insert(0, sp + 1).insert(sp, 41).insert(0, sp + 2).insert(sp + 1, lcl).insert(0, sp + 3).insert(sp + 2, arg).insert(0, sp + 4).insert(sp + 3, ths).insert(0, sp + 5).insert(sp + 4, tht).insert(1, sp + 5).insert(2, sp - (n as int)), pc: 43 }),
{
    let ret = return_label(file, f, k);
    let ni = n as int;
    let ci = c as int;
    lemma_frame_lines(file, f, n, c, k);
    reveal_strlit("//call ");
    reveal_strlit("//return");
    reveal_strlit("(");
    reveal_strlit("@");
    lemma_word_cancel(sp + 1, lcl);
    let t1 = (Hack { a: ni + 5, d: sp - ni, ram: base.insert(0, sp + 1).insert(sp, 41).insert(0, sp + 2).insert(sp + 1, lcl).insert(0, sp + 3).insert(sp + 2, arg).insert(0, sp + 4).insert(sp + 3, ths).insert(0, sp + 5).insert(sp + 4, tht).insert(1, sp + 5), pc: 37 });
    assert(step(prog, s) == t1) by {
        lemma_steps(prog, s);
    }
    let t2 = (Hack { a: 2, d: sp - ni, ram: base.insert(0, sp + 1).insert(sp, 41).insert(0, sp + 2).insert(sp + 1, lcl).insert(0, sp + 3).insert(sp + 2, arg).insert(0, sp + 4).insert(sp + 3, ths).insert(0, sp + 5).insert(sp + 4, tht).insert(1, sp + 5), pc: 38 });
    assert(step(prog, t1) == t2) by {
        lemma_steps(prog, t1);
    }
    let t3 = (Hack { a: 2, d: sp - ni, ram: base.insert(0, sp + 1).insert(sp, 41).insert(0, sp + 2).insert(sp + 1, lcl).insert(0, sp + 3).insert(sp + 2, arg).insert(0, sp + 4).insert(sp + 3, ths).insert(0, sp + 5).insert(sp + 4, tht).insert(1, sp + 5).insert(2, sp - ni), pc: 39 });
    assert(step(prog, t2) == t3) by {
        lemma_steps(prog, t2);
    }
    let t4 = (Hack { a: 43, d: sp - ni, ram: base.insert(0, sp + 1).insert(sp, 41).insert(0, sp + 2).insert(sp + 1, lcl).insert(0, sp + 3).insert(sp + 2, arg).insert(0, sp + 4).insert(sp + 3, ths).insert(0, sp + 5).insert(sp + 4, tht).insert(1, sp + 5).insert(2, sp - ni), pc: 40 });
    assert(step(prog, t3) == t4) by {
        assert(prog[39].drop_first() =~= f);
    }
    let t5 = (Hack { a: 43, d: sp - ni, ram: base.insert(0, sp + 1).insert(sp, 41).insert(0, sp + 2).insert(sp + 1, lcl).insert(0, sp + 3).insert(sp + 2, arg).insert(0, sp + 4).insert(sp + 3, ths).insert(0, sp + 5).insert(sp + 4, tht).insert(1, sp + 5).insert(2, sp - ni), pc: 43 });
    assert(step(prog, t4) == t5) by {
        lemma_steps(prog, t4);
    }
    assert(run(prog, s, 5) == run(prog, t1, 4)) by {
        lemma_run_step(prog, s, 5);
    }
    assert(run(prog, t1, 4) == run(prog, t2, 3)) by {
        lemma_run_step(prog, t1, 4);
    }
    assert(run(prog, t2, 3) == run(prog, t3, 2)) by {
        lemma_run_step(prog, t2, 3);
    }
    assert(run(prog, t3, 2) == run(prog, t4, 1)) by {
        lemma_run_step(prog, t3, 2);
    }
    assert(run(prog, t4, 1) == run(prog, t5, 0)) by {
        lemma_run_step(prog, t4, 1);
    }
}

proof fn lemma_call_part(prog: Seq<Seq<char>>, s: Hack, file: Seq<char>, f: Seq<char>, n: nat, c: nat, k: nat, sp: int, lcl: int, arg: int, ths: int, tht: int, base: Map<int, int>, a0: int, d0: int)
    requires
        prog == frame_program(file, f, n, c, k),
        at_value(prog, return_label(file, f, k)) == 41,
        at_value(prog, f) == 43,
        1 <= n,
        5 <= sp - n,
        sp + 6 < 65536,
        0 <= lcl < 65536,
        base[0] == sp,
        base[1] == lcl,
        base[2] == arg,
        base[3] == ths,
        base[4] == tht,
        s == (Hack { a: a0, d: d0, ram: base, pc: 0 }),
    ensures
        run(prog, s, 41) == (Hack { a: 43, d: sp - (n as int), ram: base.insert(0, sp + 1).insert(sp, 41).insert(0, sp + 2).insert(sp + 1, lcl).insert(0, sp + 3).insert(sp + 2, arg).insert(0, sp + 4).insert(sp + 3, ths).insert(0, sp + 5).insert(sp + 4, tht).insert(1, sp + 5).insert(2, sp - (n as int)), pc: 43 }),
{
    let s0 = s;
    lemma_call_chunk_0(prog, s0, file, f, n, c, k, sp, lcl, arg, ths, tht, base, a0, d0);
    let s1 = run(prog, s0, 6);
    lemma_call_chunk_1(prog, s1, file, f, n, c, k, sp, lcl, arg, ths, tht, base, a0, d0);
    let s2 = run(prog, s1, 6);
    lemma_call_chunk_2(prog, s2, file, f, n, c, k, sp, lcl, arg, ths, tht, base, a0, d0);
    let s3 = run(prog, s2, 6);
    lemma_call_chunk_3(prog, s3, file, f, n, c, k, sp, lcl, arg, ths, tht, base, a0, d0);
    let s4 = run(prog, s3, 6);
    lemma_call_chunk_4(prog, s4, file, f, n, c, k, sp, lcl, arg, ths, tht, base, a0, d0);
    let s5 = run(prog, s4, 6);
    lemma_call_chunk_5(prog, s5, file, f, n, c, k, sp, lcl, arg, ths, tht, base, a0, d0);
    let s6 = run(prog, s5, 6);
    lemma_call_chunk_6(prog, s6, file, f, n, c, k, sp, lcl, arg, ths, tht, base, a0, d0);
    let s7 = run(prog, s6, 5);
    lemma_run_split(prog, s0, 6, 35);
    lemma_run_split(prog, s1, 6, 29);
    lemma_run_split(prog, s2, 6, 23);
    lemma_run_split(prog, s3, 6, 17);
    lemma_run_split(prog, s4, 6, 11);
    lemma_run_split(prog, s5, 6, 5);
    lemma_run_split(prog, s6, 5, 0);
}

#[verifier::rlimit(100)]
proof fn lemma_return_chunk_0(prog: Seq<Seq<char>>, s: Hack, file: Seq<char>, f: Seq<char>, n: nat, c: nat, k: nat, sp: int, lcl: int, arg: int, ths: int, tht: int, base: Map<int, int>, a0: int, d0: int)
    requires
        prog == frame_program(file, f, n, c, k),
        at_value(prog, return_label(file, f, k)) == 41,
        at_value(prog, f) == 43,
        1 <= n,
        5 <= sp - n,
        sp + 6 < 65536,
        0 <= lcl < 65536,
        base[0] == sp + 6,
        base[1] == sp + 5,
        base[2] == sp - n,
        base[sp + 5] == c,
        base[sp] == 41,
        base[sp + 1] == lcl,
        base[sp + 2] == arg,
        base[sp + 3] == ths,
        base[sp + 4] == tht,
        s == (Hack { a: a0, d: d0, ram: base, pc: 55 }),
    ensures
        run(prog, s, 6) == (Hack { a: sp - (n as int), d: (c as int), ram: base, pc: 61 }),
{
    let ret = return_label(file, f, k);
    let ni = n as int;
    let ci = c as int;
    lemma_frame_lines(file, f, n, c, k);
    reveal_strlit("//call ");
    reveal_strlit("//return");
    reveal_strlit("(");
    reveal_strlit("@");
    lemma_word_cancel(sp + 1, lcl);
    let t1 = (Hack { a: a0, d: d0, ram: base, pc: 56 });
    assert(step(prog, s) == t1) by {
        lemma_skip_step(prog, s);
    }
    let t2 = (Hack { a: 0, d: d0, ram: base, pc: 57 });
    assert(step(prog, t1) == t2) by {
        lemma_steps(prog, t1);
    }
    let t3 = (Hack { a: sp + 5, d: d0, ram: base, pc: 58 });
    assert(step(prog, t2) == t3) by {
        lemma_steps(prog, t2);
    }
    let t4 = (Hack { a: sp + 5, d: ci, ram: base, pc: 59 });
    assert(step(prog, t3) == t4) by {
        lemma_steps(prog, t3);
    }
    let t5 = (Hack { a: 2, d: ci, ram: base, pc: 60 });
    assert(step(prog, t4) == t5) by {
        lemma_steps(prog, t4);
    }
    let t6 = (Hack { a: sp - ni, d: ci, ram: base, pc: 61 });
    assert(step(prog, t5) == t6) by {
        lemma_steps(prog, t5);
    }
    assert(run(prog, s, 6) == run(prog, t1, 5)) by {
        lemma_run_step(prog, s, 6);
    }
    assert(run(prog, t1, 5) == run(prog, t2, 4)) by {
        lemma_run_step(prog, t1, 5);
    }
    assert(run(prog, t2, 4) == run(prog, t3, 3)) by {
        lemma_run_step(prog, t2, 4);
    }
    assert(run(prog, t3, 3) == run(prog, t4, 2)) by {
        lemma_run_step(prog, t3, 3);
    }
    assert(run(prog, t4, 2) == run(prog, t5, 1)) by {
        lemma_run_step(prog, t4, 2);
    }
    assert(run(prog, t5, 1) == run(prog, t6, 0)) by {
        lemma_run_step(prog, t5, 1);
    }
}

#[verifier::rlimit(100)]
proof fn lemma_return_chunk_1(prog: Seq<Seq<char>>, s: Hack, file: Seq<char>, f: Seq<char>, n: nat, c: nat, k: nat, sp: int, lcl: int, arg: int, ths: int, tht: int, base: Map<int, int>, a0: int, d0: int)
    requires
        prog == frame_program(file, f, n, c, k),
        at_value(prog, return_label(file, f, k)) == 41,
        at_value(prog, f) == 43,
        1 <= n,
        5 <= sp - n,
        sp + 6 < 65536,
        0 <= lcl < 65536,
        base[0] == sp + 6,
        base[1] == sp + 5,
        base[2] == sp - n,
        base[sp + 5] == c,
        base[sp] == 41,
        base[sp + 1] == lcl,
        base[sp + 2] == arg,
        base[sp + 3] == ths,
        base[sp + 4] == tht,
        s == (Hack { a: sp - (n as int), d: (c as int), ram: base, pc: 61 }),
    ensures
        run(prog, s, 6) == (Hack { a: sp + 4, d: sp - (n as int), ram: base.insert(sp - (n as int), (c as int)).insert(0, sp - (n as int) + 1).insert(1, sp + 4), pc: 67 }),
{
    let ret = return_label(file, f, k);
    let ni = n as int;
    let ci = c as int;
    lemma_frame_lines(file, f, n, c, k);
    reveal_strlit("//call ");
    reveal_strlit("//return");
    reveal_strlit("(");
    reveal_strlit("@");
    lemma_word_cancel(sp + 1, lcl);
    let t1 = (Hack { a: sp - ni, d: ci, ram: base.insert(sp - ni, ci), pc: 62 });
    assert(step(prog, s) == t1) by {
        lemma_steps(prog, s);
    }
    let t2 = (Hack { a: sp - ni, d: sp - ni, ram: base.insert(sp - ni, ci), pc: 63 });
    assert(step(prog, t1) == t2) by {
        lemma_steps(prog, t1);
    }
    let t3 = (Hack { a: 0, d: sp - ni, ram: base.insert(sp - ni, ci), pc: 64 });
    assert(step(prog, t2) == t3) by {
        lemma_steps(prog, t2);
    }
    let t4 = (Hack { a: 0, d: sp - ni, ram: base.insert(sp - ni, ci).insert(0, sp - ni + 1), pc: 65 });
    assert(step(prog, t3) == t4) by {
        lemma_steps(prog, t3);
    }
    let t5 = (Hack { a: 1, d: sp - ni, ram: base.insert(sp - ni, ci).insert(0, sp - ni + 1), pc: 66 });
    assert(step(prog, t4) == t5) by {
        lemma_steps(prog, t4);
    }
    let t6 = (Hack { a: sp + 4, d: sp - ni, ram: base.insert(sp - ni, ci).insert(0, sp - ni + 1).insert(1, sp + 4), pc: 67 });
    assert(step(prog, t5) == t6) by {
        lemma_steps(prog, t5);
    }
    assert(run(prog, s, 6) == run(prog, t1, 5)) by {
        lemma_run_step(prog, s, 6);
    }
    assert(run(prog, t1, 5) == run(prog, t2, 4)) by {
        lemma_run_step(prog, t1, 5);
    }
    assert(run(prog, t2, 4) == run(prog, t3, 3)) by {
        lemma_run_step(prog, t2, 4);
    }
    assert(run(prog, t3, 3) == run(prog, t4, 2)) by {
        lemma_run_step(prog, t3, 3);
    }
    assert(run(prog, t4, 2) == run(prog, t5, 1)) by {
        lemma_run_step(prog, t4, 2);
    }
    assert(run(prog, t5, 1) == run(prog, t6, 0)) by {
        lemma_run_step(prog, t5, 1);
    }
}

#[verifier::rlimit(100)]
proof fn lemma_return_chunk_2(prog: Seq<Seq<char>>, s: Hack, file: Seq<char>, f: Seq<char>, n: nat, c: nat, k: nat, sp: int, lcl: int, arg: int, ths: int, tht: int, base: Map<int, int>, a0: int, d0: int)
    requires
        prog == frame_program(file, f, n, c, k),
        at_value(prog, return_label(file, f, k)) == 41,
        at_value(prog, f) == 43,
        1 <= n,
        5 <= sp - n,
        sp + 6 < 65536,
        0 <= lcl < 65536,
        base[0] == sp + 6,
        base[1] == sp + 5,
        base[2] == sp - n,
        base[sp + 5] == c,
        base[sp] == 41,
        base[sp + 1] == lcl,
        base[sp + 2] == arg,
        base[sp + 3] == ths,
        base[sp + 4] == tht,
        s == (Hack { a: sp + 4, d: sp - (n as int), ram: base.insert(sp - (n as int), (c as int)).insert(0, sp - (n as int) + 1).insert(1, sp + 4), pc: 67 }),
    ensures
        run(prog, s, 6) == (Hack { a: sp + 3, d: ths, ram: base.insert(sp - (n as int), (c as int)).insert(0, sp - (n as int) + 1).insert(1, sp + 4).insert(4, tht).insert(1, sp + 3), pc: 73 }),
{
    let ret = return_label(file, f, k);
    let ni = n as int;
    let ci = c as int;
    lemma_frame_lines(file, f, n, c, k);
    reveal_strlit("//call ");
    reveal_strlit("//return");
    reveal_strlit("(");
    reveal_strlit("@");
    lemma_word_cancel(sp + 1, lcl);
    let t1 = (Hack { a: sp + 4, d: tht, ram: base.insert(sp - ni, ci).insert(0, sp - ni + 1).insert(1, sp + 4), pc: 68 });
    assert(step(prog, s) == t1) by {
        lemma_steps(prog, s);
    }
    let t2 = (Hack { a: 4, d: tht, ram: base.insert(sp - ni, ci).insert(0, sp - ni + 1).insert(1, sp + 4), pc: 69 });
    assert(step(prog, t1) == t2) by {
        lemma_steps(prog, t1);
    }
    let t3 = (Hack { a: 4, d: tht, ram: base.insert(sp - ni, ci).insert(0, sp - ni + 1).insert(1, sp + 4).insert(4, tht), pc: 70 });
    assert(step(prog, t2) == t3) by {
        lemma_steps(prog, t2);
    }
    let t4 = (Hack { a: 1, d: tht, ram: base.insert(sp - ni, ci).insert(0, sp - ni + 1).insert(1, sp + 4).insert(4, tht), pc: 71 });
    assert(step(prog, t3) == t4) by {
        lemma_steps(prog, t3);
    }
    let t5 = (Hack { a: sp + 3, d: tht, ram: base.insert(sp - ni, ci).insert(0, sp - ni + 1).insert(1, sp + 4).insert(4, tht).insert(1, sp + 3), pc: 72 });
    assert(step(prog, t4) == t5) by {
        lemma_steps(prog, t4);
    }
    let t6 = (Hack { a: sp + 3, d: ths, ram: base.insert(sp - ni, ci).insert(0, sp - ni + 1).insert(1, sp + 4).insert(4, tht).insert(1, sp + 3), pc: 73 });
    assert(step(prog, t5) == t6) by {
        lemma_steps(prog, t5);
    }
    assert(run(prog, s, 6) == run(prog, t1, 5)) by {
        lemma_run_step(prog, s, 6);
    }
    assert(run(prog, t1, 5) == run(prog, t2, 4)) by {
        lemma_run_step(prog, t1, 5);
    }
    assert(run(prog, t2, 4) == run(prog, t3, 3)) by {
        lemma_run_step(prog, t2, 4);
    }
    assert(run(prog, t3, 3) == run(prog, t4, 2)) by {
        lemma_run_step(prog, t3, 3);
    }
    assert(run(prog, t4, 2) == run(prog, t5, 1)) by {
        lemma_run_step(prog, t4, 2);
    }
    assert(run(prog, t5, 1) == run(prog, t6, 0)) by {
        lemma_run_step(prog, t5, 1);
    }
}

#[verifier::rlimit(100)]
proof fn lemma_return_chunk_3(prog: Seq<Seq<char>>, s: Hack, file: Seq<char>, f: Seq<char>, n: nat, c: nat, k: nat, sp: int, lcl: int, arg: int, ths: int, tht: int, base: Map<int, int>, a0: int, d0: int)
    requires
        prog == frame_program(file, f, n, c, k),
        at_value(prog, return_label(file, f, k)) == 41,
        at_value(prog, f) == 43,
        1 <= n,
        5 <= sp - n,
        sp + 6 < 65536,
        0 <= lcl < 65536,
        base[0] == sp + 6,
        base[1] == sp + 5,
        base[2] == sp - n,
        base[sp + 5] == c,
        base[sp] == 41,
        base[sp + 1] == lcl,
        base[sp + 2] == arg,
        base[sp + 3] == ths,
        base[sp + 4] == tht,
        s == (Hack { a: sp + 3, d: ths, ram: base.insert(sp - (n as int), (c as int)).insert(0, sp - (n as int) + 1).insert(1, sp + 4).insert(4, tht).insert(1, sp + 3), pc: 73 }),
    ensures
        run(prog, s, 6) == (Hack { a: 2, d: arg, ram: base.insert(sp - (n as int), (c as int)).insert(0, sp - (n as int) + 1).insert(1, sp + 4).insert(4, tht).insert(1, sp + 3).insert(3, ths).insert(1, sp + 2), pc: 79 }),
{
    let ret = return_label(file, f, k);
    let ni = n as int;
    let ci = c as int;
    lemma_frame_lines(file, f, n, c, k);
    reveal_strlit("//call ");
    reveal_strlit("//return");
    reveal_strlit("(");
    reveal_strlit("@");
    lemma_word_cancel(sp + 1, lcl);
    let t1 = (Hack { a: 3, d: ths, ram: base.insert(sp - ni, ci).insert(0, sp - ni + 1).insert(1, sp + 4).insert(4, tht).insert(1, sp + 3), pc: 74 });
    assert(step(prog, s) == t1) by {
        lemma_steps(prog, s);
    }
    let t2 = (Hack { a: 3, d: ths, ram: base.insert(sp - ni, ci).insert(0, sp - ni + 1).insert(1, sp + 4).insert(4, tht).insert(1, sp + 3).insert(3, ths), pc: 75 });
    assert(step(prog, t1) == t2) by {
        lemma_steps(prog, t1);
    }
    let t3 = (Hack { a: 1, d: ths, ram: base.insert(sp - ni, ci).insert(0, sp - ni + 1).insert(1, sp + 4).insert(4, tht).insert(1, sp + 3).insert(3, ths), pc: 76 });
    assert(step(prog, t2) == t3) by {
        lemma_steps(prog, t2);
    }
    let t4 = (Hack { a: sp + 2, d: ths, ram: base.insert(sp - ni, ci).insert(0, sp - ni + 1).insert(1, sp + 4).insert(4, tht).insert(1, sp + 3).insert(3, ths).insert(1, sp + 2), pc: 77 });
    assert(step(prog, t3) == t4) by {
        lemma_steps(prog, t3);
    }
    let t5 = (Hack { a: sp + 2, d: arg, ram: base.insert(sp - ni, ci).insert(0, sp - ni + 1).insert(1, sp + 4).insert(4, tht).insert(1, sp + 3).insert(3, ths).insert(1, sp + 2), pc: 78 });
    assert(step(prog, t4) == t5) by {
        lemma_steps(prog, t4);
    }
    let t6 = (Hack { a: 2, d: arg, ram: base.insert(sp - ni, ci).insert(0, sp - ni + 1).insert(1, sp + 4).insert(4, tht).insert(1, sp + 3).insert(3, ths).insert(1, sp + 2), pc: 79 });
    assert(step(prog, t5) == t6) by {
        lemma_steps(prog, t5);
    }
    assert(run(prog, s, 6) == run(prog, t1, 5)) by {
        lemma_run_step(prog, s, 6);
    }
    assert(run(prog, t1, 5) == run(prog, t2, 4)) by {
        lemma_run_step(prog, t1, 5);
    }
    assert(run(prog, t2, 4) == run(prog, t3, 3)) by {
        lemma_run_step(prog, t2, 4);
    }
    assert(run(prog, t3, 3) == run(prog, t4, 2)) by {
        lemma_run_step(prog, t3, 3);
    }
    assert(run(prog, t4, 2) == run(prog, t5, 1)) by {
        lemma_run_step(prog, t4, 2);
    }
    assert(run(prog, t5, 1) == run(prog, t6, 0)) by {
        lemma_run_step(prog, t5, 1);
    }
}

#[verifier::rlimit(100)]
proof fn lemma_return_chunk_4(prog: Seq<Seq<char>>, s: Hack, file: Seq<char>, f: Seq<char>, n: nat, c: nat, k: nat, sp: int, lcl: int, arg: int, ths: int, tht: int, base: Map<int, int>, a0: int, d0: int)
    requires
        prog == frame_program(file, f, n, c, k),
        at_value(prog, return_label(file, f, k)) == 41,
        at_value(prog, f) == 43,
        1 <= n,
        5 <= sp - n,
        sp + 6 < 65536,
        0 <= lcl < 65536,
        base[0] == sp + 6,
        base[1] == sp + 5,
        base[2] == sp - n,
        base[sp + 5] == c,
        base[sp] == 41,
        base[sp + 1] == lcl,
        base[sp + 2] == arg,
        base[sp + 3] == ths,
        base[sp + 4] == tht,
        s == (Hack { a: 2, d: arg, ram: base.insert(sp - (n as int), (c as int)).insert(0, sp - (n as int) + 1).insert(1, sp + 4).insert(4, tht).insert(1, sp + 3).insert(3, ths).insert(1, sp + 2), pc: 79 }),
    ensures
        run(prog, s, 6) == (Hack { a: 1, d: word(sp + 1 + lcl), ram: base.insert(sp - (n as int), (c as int)).insert(0, sp - (n as int) + 1).insert(1, sp + 4).insert(4, tht).insert(1, sp + 3).insert(3, ths).insert(1, sp + 2).insert(2, arg).insert(1, sp + 1), pc: 85 }),
{
    let ret = return_label(file, f, k);
    let ni = n as int;
    let ci = c as int;
    lemma_frame_lines(file, f, n, c, k);
    reveal_strlit("//call ");
    reveal_strlit("//return");
    reveal_strlit("(");
    reveal_strlit("@");
    lemma_word_cancel(sp + 1, lcl);
    let t1 = (Hack { a: 2, d: arg, ram: base.insert(sp - ni, ci).insert(0, sp - ni + 1).insert(1, sp + 4).insert(4, tht).insert(1, sp + 3).insert(3, ths).insert(1, sp + 2).insert(2, arg), pc: 80 });
    assert(step(prog, s) == t1) by {
        lemma_steps(prog, s);
    }
    let t2 = (Hack { a: 1, d: arg, ram: base.insert(sp - ni, ci).insert(0, sp - ni + 1).insert(1, sp + 4).insert(4, tht).insert(1, sp + 3).insert(3, ths).insert(1, sp + 2).insert(2, arg), pc: 81 });
    assert(step(prog, t1) == t2) by {
        lemma_steps(prog, t1);
    }
    let t3 = (Hack { a: sp + 1, d: arg, ram: base.insert(sp - ni, ci).insert(0, sp - ni + 1).insert(1, sp + 4).insert(4, tht).insert(1, sp + 3).insert(3, ths).insert(1, sp + 2).insert(2, arg).insert(1, sp + 1), pc: 82 });
    assert(step(prog, t2) == t3) by {
        lemma_steps(prog, t2);
    }
    let t4 = (Hack { a: sp + 1, d: sp + 1, ram: base.insert(sp - ni, ci).insert(0, sp - ni + 1).insert(1, sp + 4).insert(4, tht).insert(1, sp + 3).insert(3, ths).insert(1, sp + 2).insert(2, arg).insert(1, sp + 1), pc: 83 });
    assert(step(prog, t3) == t4) by {
        lemma_steps(prog, t3);
    }
    let t5 = (Hack { a: sp + 1, d: word(sp + 1 + lcl), ram: base.insert(sp - ni, ci).insert(0, sp - ni + 1).insert(1, sp + 4).insert(4, tht).insert(1, sp + 3).insert(3, ths).insert(1, sp + 2).insert(2, arg).insert(1, sp + 1), pc: 84 });
    assert(step(prog, t4) == t5) by {
        lemma_steps(prog, t4);
    }
    let t6 = (Hack { a: 1, d: word(sp + 1 + lcl), ram: base.insert(sp - ni, ci).insert(0, sp - ni + 1).insert(1, sp + 4).insert(4, tht).insert(1, sp + 3).insert(3, ths).insert(1, sp + 2).insert(2, arg).insert(1, sp + 1), pc: 85 });
    assert(step(prog, t5) == t6) by {
        lemma_steps(prog, t5);
    }
    assert(run(prog, s, 6) == run(prog, t1, 5)) by {
        lemma_run_step(prog, s, 6);
    }
    assert(run(prog, t1, 5) == run(prog, t2, 4)) by {
        lemma_run_step(prog, t1, 5);
    }
    assert(run(prog, t2, 4) == run(prog, t3, 3)) by {
        lemma_run_step(prog, t2, 4);
    }
    assert(run(prog, t3, 3) == run(prog, t4, 2)) by {
        lemma_run_step(prog, t3, 3);
    }
    assert(run(prog, t4, 2) == run(prog, t5, 1)) by {
        lemma_run_step(prog, t4, 2);
    }
    assert(run(prog, t5, 1) == run(prog, t6, 0)) by {
        lemma_run_step(prog, t5, 1);
    }
}

#[verifier::rlimit(100)]
proof fn lemma_return_chunk_5(prog: Seq<Seq<char>>, s: Hack, file: Seq<char>, f: Seq<char>, n: nat, c: nat, k: nat, sp: int, lcl: int, arg: int, ths: int, tht: int, base: Map<int, int>, a0: int, d0: int)
    requires
        prog == frame_program(file, f, n, c, k),
        at_value(prog, return_label(file, f, k)) == 41,
        at_value(prog, f) == 43,
        1 <= n,
        5 <= sp - n,
        sp + 6 < 65536,
        0 <= lcl < 65536,
        base[0] == sp + 6,
        base[1] == sp + 5,
        base[2] == sp - n,
        base[sp + 5] == c,
        base[sp] == 41,
        base[sp + 1] == lcl,
        base[sp + 2] == arg,
        base[sp + 3] == ths,
        base[sp + 4] == tht,
        s == (Hack { a: 1, d: word(sp + 1 + lcl), ram: base.insert(sp - (n as int), (c as int)).insert(0, sp - (n as int) + 1).insert(1, sp + 4).insert(4, tht).insert(1, sp + 3).insert(3, ths).insert(1, sp + 2).insert(2, arg).insert(1, sp + 1), pc: 85 }),
    ensures
        run(prog, s, 6) == (Hack { a: 41, d: word(sp + 1 + lcl), ram: base.insert(sp - (n as int), (c as int)).insert(0, sp - (n as int) + 1).insert(1, sp + 4).insert(4, tht).insert(1, sp + 3).insert(3, ths).insert(1, sp + 2).insert(2, arg).insert(1, sp + 1).insert(1, lcl), pc: 42 }),
{
    let ret = return_label(file, f, k);
    let ni = n as int;
    let ci = c as int;
    lemma_frame_lines(file, f, n, c, k);
    reveal_strlit("//call ");
    reveal_strlit("//return");
    reveal_strlit("(");
    reveal_strlit("@");
    lemma_word_cancel(sp + 1, lcl);
    let t1 = (Hack { a: 1, d: word(sp + 1 + lcl), ram: base.insert(sp - ni, ci).insert(0, sp - ni + 1).insert(1, sp + 4).insert(4, tht).insert(1, sp + 3).insert(3, ths).insert(1, sp + 2).insert(2, arg).insert(1, sp + 1).insert(1, lcl), pc: 86 });
    assert(step(prog, s) == t1) by {
        lemma_steps(prog, s);
    }
    let t2 = (Hack { a: sp + 1, d: word(sp + 1 + lcl), ram: base.insert(sp - ni, ci).insert(0, sp - ni + 1).insert(1, sp + 4).insert(4, tht).insert(1, sp + 3).insert(3, ths).insert(1, sp + 2).insert(2, arg).insert(1, sp + 1).insert(1, lcl), pc: 87 });
    assert(step(prog, t1) == t2) by {
        lemma_steps(prog, t1);
    }
    let t3 = (Hack { a: sp, d: word(sp + 1 + lcl), ram: base.insert(sp - ni, ci).insert(0, sp - ni + 1).insert(1, sp + 4).insert(4, tht).insert(1, sp + 3).insert(3, ths).insert(1, sp + 2).insert(2, arg).insert(1, sp + 1).insert(1, lcl), pc: 88 });
    assert(step(prog, t2) == t3) by {
        lemma_steps(prog, t2);
    }
    let t4 = (Hack { a: 41, d: word(sp + 1 + lcl), ram: base.insert(sp - ni, ci).insert(0, sp - ni + 1).insert(1, sp + 4).insert(4, tht).insert(1, sp + 3).insert(3, ths).insert(1, sp + 2).insert(2, arg).insert(1, sp + 1).insert(1, lcl), pc: 89 });
    assert(step(prog, t3) == t4) by {
        lemma_steps(prog, t3);
    }
    let t5 = (Hack { a: 41, d: word(sp + 1 + lcl), ram: base.insert(sp - ni, ci).insert(0, sp - ni + 1).insert(1, sp + 4).insert(4, tht).insert(1, sp + 3).insert(3, ths).insert(1, sp + 2).insert(2, arg).insert(1, sp + 1).insert(1, lcl), pc: 41 });
    assert(step(prog, t4) == t5) by {
        lemma_steps(prog, t4);
    }
    let t6 = (Hack { a: 41, d: word(sp + 1 + lcl), ram: base.insert(sp - ni, ci).insert(0, sp - ni + 1).insert(1, sp + 4).insert(4, tht).insert(1, sp + 3).insert(3, ths).insert(1, sp + 2).insert(2, arg).insert(1, sp + 1).insert(1, lcl), pc: 42 });
    assert(step(prog, t5) == t6) by {
        lemma_skip_step(prog, t5);
    }
    assert(run(prog, s, 6) == run(prog, t1, 5)) by {
        lemma_run_step(prog, s, 6);
    }
    assert(run(prog, t1, 5) == run(prog, t2, 4)) by {
        lemma_run_step(prog, t1, 5);
    }
    assert(run(prog, t2, 4) == run(prog, t3, 3)) by {
        lemma_run_step(prog, t2, 4);
    }
    assert(run(prog, t3, 3) == run(prog, t4, 2)) by {
        lemma_run_step(prog, t3, 3);
    }
    assert(run(prog, t4, 2) == run(prog, t5, 1)) by {
        lemma_run_step(prog, t4, 2);
    }
    assert(run(prog, t5, 1) == run(prog, t6, 0)) by {
        lemma_run_step(prog, t5, 1);
    }
}

proof fn lemma_return_part(prog: Seq<Seq<char>>, s: Hack, file: Seq<char>, f: Seq<char>, n: nat, c: nat, k: nat, sp: int, lcl: int, arg: int, ths: int, tht: int, base: Map<int, int>, a0: int, d0: int)
    requires
        prog == frame_program(file, f, n, c, k),
        at_value(prog, return_label(file, f, k)) == 41,
        at_value(prog, f) == 43,
        1 <= n,
        5 <= sp - n,
        sp + 6 < 65536,
        0 <= lcl < 65536,
        base[0] == sp + 6,
        base[1] == sp + 5,
        base[2] == sp - n,
        base[sp + 5] == c,
        base[sp] == 41,
        base[sp + 1] == lcl,
        base[sp + 2] == arg,
        base[sp + 3] == ths,
        base[sp + 4] == tht,
        s == (Hack { a: a0, d: d0, ram: base, pc: 55 }),
    ensures
        run(prog, s, 36) == (Hack { a: 41, d: word(sp + 1 + lcl), ram: base.insert(sp - (n as int), (c as int)).insert(0, sp - (n as int) + 1).insert(1, sp + 4).insert(4, tht).insert(1, sp + 3).insert(3, ths).insert(1, sp + 2).insert(2, arg).insert(1, sp + 1).insert(1, lcl), pc: 42 }),
{
    let s0 = s;
    lemma_return_chunk_0(prog, s0, file, f, n, c, k, sp, lcl, arg, ths, tht, base, a0, d0);
    let s1 = run(prog, s0, 6);
    lemma_return_chunk_1(prog, s1, file, f, n, c, k, sp, lcl, arg, ths, tht, base, a0, d0);
    let s2 = run(prog, s1, 6);
    lemma_return_chunk_2(prog, s2, file, f, n, c, k, sp, lcl, arg, ths, tht, base, a0, d0);
    let s3 = run(prog, s2, 6);
    lemma_return_chunk_3(prog, s3, file, f, n, c, k, sp, lcl, arg, ths, tht, base, a0, d0);
    let s4 = run(prog, s3, 6);
    lemma_return_chunk_4(prog, s4, file, f, n, c, k, sp, lcl, arg, ths, tht, base, a0, d0);
    let s5 = run(prog, s4, 6);
    lemma_return_chunk_5(prog, s5, file, f, n, c, k, sp, lcl, arg, ths, tht, base, a0, d0);
    let s6 = run(prog, s5, 6);
    lemma_run_split(prog, s0, 6, 30);
    lemma_run_split(prog, s1, 6, 24);
    lemma_run_split(prog, s2, 6, 18);
    lemma_run_split(prog, s3, 6, 12);
    lemma_run_split(prog, s4, 6, 6);
    lemma_run_split(prog, s5, 6, 0);
}

/// A call of `f` with `n` arguments, answered by `f`'s return, leaves the
/// stack pointer `n - 1` below where it was before the call (the arguments
/// gone, one result in their place) and LCL, ARG, THIS and THAT as they were;
/// the machine goes on at the line after the call.
///
/// `n` is at least 1: with no arguments ARG points at the saved return
/// address, and the return stores the result there before it reads the
/// address back, so it jumps to the result instead.
pub proof fn lemma_call_return_frame(file: Seq<char>, f: Seq<char>, n: nat, c: nat, k: nat, h: Hack)
    requires
        is_label(f),
        !is_register_name(f),
        1 <= n,
        c <= 32767,
        h.pc == 0,
        5 <= h.ram[0] - n,
        h.ram[0] + 6 < 65536,
        0 <= h.ram[1] < 65536,
    ensures
        ({
            let prog = frame_program(file, f, n, c, k);
            let r = run(prog, h, 89);
            &&& r.pc == 42
            &&& r.ram[0] == h.ram[0] - n + 1
            &&& r.ram[1] == h.ram[1]
            &&& r.ram[2] == h.ram[2]
            &&& r.ram[3] == h.ram[3]
            &&& r.ram[4] == h.ram[4]
            &&& r.ram[h.ram[0] - n] == c
        }),
{
    let prog = frame_program(file, f, n, c, k);
    let sp = h.ram[0];
    lemma_frame_labels(file, f, n, c, k);
    lemma_call_part(prog, h, file, f, n, c, k, sp, h.ram[1], h.ram[2], h.ram[3], h.ram[4], h.ram, h.a, h.d);
    let g = run(prog, h, 41);
    lemma_prologue_part(prog, g, file, f, n, c, k, sp);
    let pushed_from = run(prog, g, 5);
    lemma_frame_lines(file, f, n, c, k);
    let ret = return_label(file, f, k);
    assert forall|j: int| 0 <= j < 7 implies prog[pushed_from.pc + j] == #[trigger] push_asm(file, MemorySegments::Constant, c)[j] by {
        if j == 0 {} else if j == 1 {} else if j == 2 {} else if j == 3 {} else if j == 4 {} else if j == 5 {} else {}
    }
    lemma_push_constant(prog, pushed_from, file, c);
    let q = run(prog, pushed_from, 7);
    lemma_return_part(prog, q, file, f, n, c, k, sp, h.ram[1], h.ram[2], h.ram[3], h.ram[4], q.ram, q.a, q.d);
    lemma_run_split(prog, pushed_from, 7, 36);
    lemma_run_split(prog, g, 5, 43);
    lemma_run_split(prog, h, 41, 48);
}

/// The RAM cell of the base register of an indirect segment.
pub open spec fn base_register(seg: MemorySegments) -> int {
    match seg {
        MemorySegments::Local => 1,
        MemorySegments::Argument => 2,
        MemorySegments::This => 3,
        _ => 4,
    }
}

/// `@` with a segment's base register loads that register's cell.
proof fn lemma_at_base(prog: Seq<Seq<char>>, h: Hack, seg: MemorySegments)
    requires
        0 <= h.pc < prog.len(),
        is_indirect(seg),
        prog[h.pc] == "@"@ + segment_base(seg),
    ensures
        step(prog, h) == (Hack { a: base_register(seg), pc: h.pc + 1, ..h }),
{
    reveal_strlit("@");
    reveal_strlit("SP");
    reveal_strlit("LCL");
    reveal_strlit("ARG");
    reveal_strlit("THIS");
    reveal_strlit("THAT");
    let x = prog[h.pc].drop_first();
    assert(x =~= segment_base(seg));
    assert(!crate::text::is_digit(x[0]));
    assert("THIS"@ != "THAT"@) by {
        assert("THIS"@[2] != "THAT"@[2]);
    }
    assert("LCL"@ != "ARG"@) by {
        assert("LCL"@[0] != "ARG"@[0]);
    }
}

pub proof fn lemma_word_shift(v: int, b: int, i: int)
    requires
        0 <= v < 65536,
        0 <= b < 65536,
        0 <= i < 65536,
    ensures
        word(word(word(v + b) + i) - v) == word(b + i),
        word(word(word(v + b) + i) - word(b + i)) == v,
{
}

/// `pop seg i` for an indirect segment at `h.pc`: the top value is stored at
/// base + i and the stack shrinks by one.
#[verifier::rlimit(100)]
proof fn lemma_pop_indirect(prog: Seq<Seq<char>>, h: Hack, file: Seq<char>, seg: MemorySegments, i: nat)
    requires
        0 <= h.pc,
        h.pc + 13 <= prog.len(),
        forall|j: int| 0 <= j < 13 ==> prog[h.pc + j] == #[trigger] pop_asm(file, seg, i)[j],
        is_indirect(seg),
        i <= 32767,
        6 <= h.ram[0] < 65536,
        0 <= h.ram[base_register(seg)] < 65536,
        0 <= h.ram[h.ram[0] - 1] < 65536,
        5 <= word(h.ram[base_register(seg)] + i),
    ensures
        ({
            let sp = h.ram[0];
            let v = h.ram[sp - 1];
            let b = h.ram[base_register(seg)];
            run(prog, h, 13) == (Hack {
                a: word(b + i),
                d: word(word(v + b) + i),
                ram: h.ram.insert(0, sp - 1).insert(word(b + i), v),
                pc: h.pc + 13,
            })
        }),
{
    let f = pop_asm(file, seg, i);
    let s = h.pc;
    let sp = h.ram[0];
    let v = h.ram[sp - 1];
    let r = base_register(seg);
    let b = h.ram[r];
    let t = word(b + i);
    let dd = word(word(v + b) + i);
    lemma_word_shift(v, b, i as int);
    reveal_strlit("//pop ");
    let r1 = h.ram.insert(0, sp - 1);
    let h1 = Hack { pc: s + 1, ..h };
    assert(step(prog, h) == h1) by {
        assert(prog[s] == f[0]);
        lemma_skip_step(prog, h);
    }
    let h2 = Hack { a: 0, pc: s + 2, ..h1 };
    assert(step(prog, h1) == h2) by {
        assert(prog[s + 1] == f[1]);
        lemma_steps(prog, h1);
    }
    let h3 = Hack { a: sp - 1, ram: r1, pc: s + 3, ..h2 };
    assert(step(prog, h2) == h3) by {
        assert(prog[s + 2] == f[2]);
        lemma_steps(prog, h2);
    }
    let h4 = Hack { d: v, pc: s + 4, ..h3 };
    assert(step(prog, h3) == h4) by {
        assert(prog[s + 3] == f[3]);
        lemma_steps(prog, h3);
    }
    let h5 = Hack { a: r, pc: s + 5, ..h4 };
    assert(step(prog, h4) == h5) by {
        assert(prog[s + 4] == f[4]);
        lemma_at_base(prog, h4, seg);
    }
    let h6 = Hack { d: word(v + b), pc: s + 6, ..h5 };
    assert(step(prog, h5) == h6) by {
        assert(prog[s + 5] == f[5]);
        lemma_steps(prog, h5);
    }
    let h7 = Hack { a: i as int, pc: s + 7, ..h6 };
    assert(step(prog, h6) == h7) by {
        assert(prog[s + 6] == f[6]);
        lemma_at_number(prog, h6, i);
    }
    let h8 = Hack { d: dd, pc: s + 8, ..h7 };
    assert(step(prog, h7) == h8) by {
        assert(prog[s + 7] == f[7]);
        lemma_access_steps(prog, h7);
    }
    let h9 = Hack { a: 0, pc: s + 9, ..h8 };
    assert(step(prog, h8) == h9) by {
        assert(prog[s + 8] == f[8]);
        lemma_steps(prog, h8);
    }
    let h10 = Hack { a: sp - 1, pc: s + 10, ..h9 };
    assert(step(prog, h9) == h10) by {
        assert(prog[s + 9] == f[9]);
        lemma_steps(prog, h9);
    }
    let h11 = Hack { a: v, pc: s + 11, ..h10 };
    assert(step(prog, h10) == h11) by {
        assert(prog[s + 10] == f[10]);
        lemma_steps(prog, h10);
    }
    let h12 = Hack { a: t, pc: s + 12, ..h11 };
    assert(step(prog, h11) == h12) by {
        assert(prog[s + 11] == f[11]);
        lemma_access_steps(prog, h11);
    }
    let h13 = Hack { ram: r1.insert(t, v), pc: s + 13, ..h12 };
    assert(step(prog, h12) == h13) by {
        assert(prog[s + 12] == f[12]);
        lemma_access_steps(prog, h12);
    }
    lemma_run_step(prog, h, 13);
    lemma_run_step(prog, h1, 12);
    lemma_run_step(prog, h2, 11);
    lemma_run_step(prog, h3, 10);
    lemma_run_step(prog, h4, 9);
    lemma_run_step(prog, h5, 8);
    lemma_run_step(prog, h6, 7);
    lemma_run_step(prog, h7, 6);
    lemma_run_step(prog, h8, 5);
    lemma_run_step(prog, h9, 4);
    lemma_run_step(prog, h10, 3);
    lemma_run_step(prog, h11, 2);
    lemma_run_step(prog, h12, 1);
}

/// `push seg i` for an indirect segment at `h.pc`: the cell at base + i is
/// pushed.
#[verifier::rlimit(100)]
proof fn lemma_push_indirect(prog: Seq<Seq<char>>, h: Hack, file: Seq<char>, seg: MemorySegments, i: nat)
    requires
        0 <= h.pc,
        h.pc + 11 <= prog.len(),
        forall|j: int| 0 <= j < 11 ==> prog[h.pc + j] == #[trigger] push_asm(file, seg, i)[j],
        is_indirect(seg),
        i <= 32767,
        5 <= h.ram[0],
        h.ram[0] + 1 < 65536,
        0 <= h.ram[base_register(seg)] < 65536,
        word(h.ram[base_register(seg)] + i) != 0,
    ensures
        ({
            let sp = h.ram[0];
            let u = h.ram[word(h.ram[base_register(seg)] + i)];
            run(prog, h, 11) == (Hack { a: 0, d: u, ram: h.ram.insert(sp, u).insert(0, sp + 1), pc: h.pc + 11 })
        }),
{
    let f = push_asm(file, seg, i);
    let s = h.pc;
    let sp = h.ram[0];
    let r = base_register(seg);
    let b = h.ram[r];
    let t = word(b + i);
    let u = h.ram[t];
    reveal_strlit("//push ");
    let h1 = Hack { pc: s + 1, ..h };
    assert(step(prog, h) == h1) by {
        assert(prog[s] == f[0]);
        lemma_skip_step(prog, h);
    }
    let h2 = Hack { a: r, pc: s + 2, ..h1 };
    assert(step(prog, h1) == h2) by {
        assert(prog[s + 1] == f[1]);
        lemma_at_base(prog, h1, seg);
    }
    let h3 = Hack { d: b, pc: s + 3, ..h2 };
    assert(step(prog, h2) == h3) by {
        assert(prog[s + 2] == f[2]);
        lemma_steps(prog, h2);
    }
    let h4 = Hack { a: i as int, pc: s + 4, ..h3 };
    assert(step(prog, h3) == h4) by {
        assert(prog[s + 3] == f[3]);
        lemma_at_number(prog, h3, i);
    }
    let h5 = Hack { a: t, pc: s + 5, ..h4 };
    assert(step(prog, h4) == h5) by {
        assert(prog[s + 4] == f[4]);
        lemma_access_steps(prog, h4);
    }
    let h6 = Hack { d: u, pc: s + 6, ..h5 };
    assert(step(prog, h5) == h6) by {
        assert(prog[s + 5] == f[5]);
        lemma_steps(prog, h5);
    }
    let h7 = Hack { a: 0, pc: s + 7, ..h6 };
    assert(step(prog, h6) == h7) by {
        assert(prog[s + 6] == f[6]);
        lemma_steps(prog, h6);
    }
    let h8 = Hack { a: sp, pc: s + 8, ..h7 };
    assert(step(prog, h7) == h8) by {
        assert(prog[s + 7] == f[7]);
        lemma_steps(prog, h7);
    }
    let r1 = h.ram.insert(sp, u);
    let h9 = Hack { ram: r1, pc: s + 9, ..h8 };
    assert(step(prog, h8) == h9) by {
        assert(prog[s + 8] == f[8]);
        lemma_steps(prog, h8);
    }
    let h10 = Hack { a: 0, pc: s + 10, ..h9 };
    assert(step(prog, h9) == h10) by {
        assert(prog[s + 9] == f[9]);
        lemma_steps(prog, h9);
    }
    let h11 = Hack { ram: r1.insert(0, sp + 1), pc: s + 11, ..h10 };
    assert(step(prog, h10) == h11) by {
        assert(prog[s + 10] == f[10]);
        lemma_access_steps(prog, h10);
    }
    lemma_run_step(prog, h, 11);
    lemma_run_step(prog, h1, 10);
    lemma_run_step(prog, h2, 9);
    lemma_run_step(prog, h3, 8);
    lemma_run_step(prog, h4, 7);
    lemma_run_step(prog, h5, 6);
    lemma_run_step(prog, h6, 5);
    lemma_run_step(prog, h7, 4);
    lemma_run_step(prog, h8, 3);
    lemma_run_step(prog, h9, 2);
    lemma_run_step(prog, h10, 1);
}

/// Popping the top value into cell `i` of an indirect segment stores it at
/// the segment's base plus `i`, keeping the value through the address
/// arithmetic; pushing that cell again restores the stack as it was.
pub proof fn lemma_pop_then_push(file: Seq<char>, seg: MemorySegments, i: nat, h: Hack)
    requires
        is_indirect(seg),
        i <= 32767,
        h.pc == 0,
        6 <= h.ram[0] < 65536,
        0 <= h.ram[base_register(seg)] < 65536,
        0 <= h.ram[h.ram[0] - 1] < 65536,
        5 <= word(h.ram[base_register(seg)] + i),
    ensures
        ({
            let prog = pop_asm(file, seg, i) + push_asm(file, seg, i);
            let r = run(prog, h, 24);
            let sp = h.ram[0];
            let v = h.ram[sp - 1];
            &&& r.pc == prog.len()
            &&& r.ram[word(h.ram[base_register(seg)] + i)] == v
            &&& r.ram[0] == sp
            &&& r.ram[sp - 1] == v
        }),
{
    let pop = pop_asm(file, seg, i);
    let push = push_asm(file, seg, i);
    let prog = pop + push;
    assert(pop.len() == 13 && push.len() == 11);
    assert forall|j: int| 0 <= j < 13 implies prog[0 + j] == #[trigger] pop[j] by {}
    lemma_pop_indirect(prog, h, file, seg, i);
    let g = run(prog, h, 13);
    assert forall|j: int| 0 <= j < 11 implies prog[g.pc + j] == #[trigger] push[j] by {
        assert(prog[13 + j] == push[j]);
    }
    lemma_push_indirect(prog, g, file, seg, i);
    lemma_run_split(prog, h, 13, 11);
}

} // verus!
