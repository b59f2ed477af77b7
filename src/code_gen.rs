//! Lowers one stack-machine instruction into its fixed fragment of symbolic
//! assembly. Every fragment starts with a comment line that echoes the
//! instruction.
use vstd::prelude::*;
use crate::segment::{MemorySegments, segment_token, segment_base, pointer_register};
use crate::text::{decimal, is_digit, lemma_decimal_is_digits, lines_of, owned_lines, append_lines, usize_text, join2, join3, put, put_string, text_eq};

verus! {

/// Pops the top of the stack into D, leaving A at the popped cell.
pub open spec fn pop_to_d_asm() -> Seq<Seq<char>> {
    seq!["@SP"@, "AM=M-1"@, "D=M"@]
}

/// Points A at the top of the stack.
pub open spec fn top_asm() -> Seq<Seq<char>> {
    seq!["@SP"@, "A=M-1"@]
}

pub open spec fn add_asm() -> Seq<Seq<char>> {
    seq!["//add"@] + pop_to_d_asm() + top_asm() + seq!["M=D+M"@]
}

pub open spec fn sub_asm() -> Seq<Seq<char>> {
    seq!["//sub"@] + pop_to_d_asm() + top_asm() + seq!["M=M-D"@]
}

pub open spec fn and_asm() -> Seq<Seq<char>> {
    seq!["//and"@] + pop_to_d_asm() + top_asm() + seq!["M=D&M"@]
}

pub open spec fn or_asm() -> Seq<Seq<char>> {
    seq!["//or"@] + pop_to_d_asm() + top_asm() + seq!["M=D|M"@]
}

pub open spec fn neg_asm() -> Seq<Seq<char>> {
    seq!["//neg"@] + top_asm() + seq!["M=-M"@]
}

pub open spec fn not_asm() -> Seq<Seq<char>> {
    seq!["//not"@] + top_asm() + seq!["M=!M"@]
}

pub open spec fn bootstrap_asm() -> Seq<Seq<char>> {
    seq!["@256"@, "D=A"@, "@SP"@, "M=D"@]
}

pub open spec fn is_comparison(comp: Seq<char>) -> bool {
    comp == "eq"@ || comp == "gt"@ || comp == "lt"@
}

/// The jump condition under which `x - y` makes the comparison true.
pub open spec fn comparison_jump(comp: Seq<char>) -> Seq<char> {
    if comp == "eq"@ {
        "D;JEQ"@
    } else if comp == "gt"@ {
        "D;JGT"@
    } else {
        "D;JLT"@
    }
}

/// The join label of the `k`-th comparison of a unit.
pub open spec fn comparison_label(file: Seq<char>, comp: Seq<char>, k: nat) -> Seq<char> {
    file + "."@ + comp + "."@ + decimal(k)
}

pub open spec fn compare_asm(file: Seq<char>, comp: Seq<char>, k: nat) -> Seq<Seq<char>> {
    seq!["//"@ + comp]
    + pop_to_d_asm()
    + seq![
        "A=A-1"@,
        "D=M-D"@,
        "M=-1"@,
        "@"@ + comparison_label(file, comp, k),
        comparison_jump(comp),
    ]
    + top_asm()
    + seq!["M=0"@, "("@ + comparison_label(file, comp, k) + ")"@]
}

/// The cell of `static i` in the unit named `file`.
pub open spec fn static_cell(file: Seq<char>, i: nat) -> Seq<char> {
    file + "."@ + decimal(i)
}

/// A name followed by `.` and a number splits back into the two: text with
/// no `.` after the last one is the number.
pub proof fn lemma_dot_number_split(a1: Seq<char>, i1: nat, a2: Seq<char>, i2: nat)
    requires
        a1 + "."@ + decimal(i1) == a2 + "."@ + decimal(i2),
    ensures
        a1 == a2,
        i1 == i2,
{
    reveal_strlit(".");
    lemma_decimal_is_digits(i1);
    lemma_decimal_is_digits(i2);
    let (d1, d2) = (decimal(i1), decimal(i2));
    let w = a1 + "."@ + d1;
    assert(w == a2 + "."@ + d2);
    if d1.len() < d2.len() {
        let j = w.len() - d1.len() - 1;
        assert(w[j] == '.');
        assert(w[j] == d2[j - a2.len() - 1]);
        assert(is_digit(d2[j - a2.len() - 1]));
    } else if d2.len() < d1.len() {
        let j = w.len() - d2.len() - 1;
        assert(w[j] == '.');
        assert(w[j] == d1[j - a1.len() - 1]);
        assert(is_digit(d1[j - a1.len() - 1]));
    }
    assert(d1.len() == d2.len());
    assert(a1.len() == a2.len());
    assert(d1 =~= w.subrange(w.len() - d1.len(), w.len() as int));
    assert(d2 =~= (a2 + "."@ + d2).subrange(w.len() - d2.len(), w.len() as int));
    assert(a1 =~= w.subrange(0, a1.len() as int));
    assert(a2 =~= (a2 + "."@ + d2).subrange(0, a2.len() as int));
}

/// Static cells never alias: two cells with the same name belong to the
/// same unit and have the same index.
pub proof fn lemma_static_cells_distinct(file1: Seq<char>, i1: nat, file2: Seq<char>, i2: nat)
    requires
        static_cell(file1, i1) == static_cell(file2, i2),
    ensures
        file1 == file2,
        i1 == i2,
{
    lemma_dot_number_split(file1, i1, file2, i2);
}

/// Within a unit, each comparison gets its own join label, and each call its
/// own return label.
pub proof fn lemma_generated_labels_distinct(file: Seq<char>, name: Seq<char>, k1: nat, k2: nat)
    requires
        k1 != k2,
    ensures
        comparison_label(file, name, k1) != comparison_label(file, name, k2),
        return_label(file, name, k1) != return_label(file, name, k2),
{
    if comparison_label(file, name, k1) == comparison_label(file, name, k2) {
        lemma_dot_number_split(file + "."@ + name, k1, file + "."@ + name, k2);
    }
    if return_label(file, name, k1) == return_label(file, name, k2) {
        reveal_strlit(".return.");
        reveal_strlit(".");
        let pre = file + "."@ + name + ".return"@;
        reveal_strlit(".return");
        assert(".return."@ =~= ".return"@ + "."@);
        assert(return_label(file, name, k1) =~= pre + "."@ + decimal(k1));
        assert(return_label(file, name, k2) =~= pre + "."@ + decimal(k2));
        lemma_dot_number_split(pre, k1, pre, k2);
    }
}

pub open spec fn push_header(seg: MemorySegments, i: nat) -> Seq<char> {
    "//push "@ + segment_token(seg) + " "@ + decimal(i)
}

pub open spec fn pop_header(seg: MemorySegments, i: nat) -> Seq<char> {
    "//pop "@ + segment_token(seg) + " "@ + decimal(i)
}

/// Pushes the cell that A points at after `@addr`.
pub open spec fn push_cell_asm(addr: Seq<char>) -> Seq<Seq<char>> {
    seq!["@"@ + addr, "D=M"@, "@SP"@, "M=M+1"@, "A=M-1"@, "M=D"@]
}

pub open spec fn push_asm(file: Seq<char>, seg: MemorySegments, i: nat) -> Seq<Seq<char>> {
    seq![push_header(seg, i)] + match seg {
        MemorySegments::Constant => seq![
            "@"@ + decimal(i),
            "D=A"@,
            "@SP"@,
            "AM=M+1"@,
            "A=A-1"@,
            "M=D"@,
        ],
        MemorySegments::Static => push_cell_asm(static_cell(file, i)),
        MemorySegments::Temp => push_cell_asm(decimal(i + 5)),
        MemorySegments::Pointer => push_cell_asm(pointer_register(i)),
        _ => seq![
            "@"@ + segment_base(seg),
            "D=M"@,
            "@"@ + decimal(i),
            "A=D+A"@,
            "D=M"@,
            "@SP"@,
            "A=M"@,
            "M=D"@,
            "@SP"@,
            "M=M+1"@,
        ],
    }
}

pub open spec fn pop_asm(file: Seq<char>, seg: MemorySegments, i: nat) -> Seq<Seq<char>> {
    seq![pop_header(seg, i)] + pop_to_d_asm() + match seg {
        MemorySegments::Static => seq!["@"@ + static_cell(file, i), "M=D"@],
        MemorySegments::Temp => seq!["@"@ + decimal(i + 5), "M=D"@],
        MemorySegments::Pointer => seq!["@"@ + pointer_register(i), "M=D"@],
        _ => seq![
            "@"@ + segment_base(seg),
            "D=D+M"@,
            "@"@ + decimal(i),
            "D=D+A"@,
            "@SP"@,
            "A=M"@,
            "A=M"@,
            "A=D-A"@,
            "M=D-A"@,
        ],
    }
}

/// A label of the stack-machine language, qualified by its function.
pub open spec fn qualified_label(function: Seq<char>, label: Seq<char>) -> Seq<char> {
    function + "$"@ + label
}

/// Labels of the same text in two different functions never collide.
pub proof fn lemma_label_uniqueness(f1: Seq<char>, f2: Seq<char>, label: Seq<char>)
    requires
        f1 != f2,
    ensures
        qualified_label(f1, label) != qualified_label(f2, label),
{
    if qualified_label(f1, label) == qualified_label(f2, label) {
        let tail = "$"@ + label;
        assert(qualified_label(f1, label) =~= f1 + tail);
        assert(qualified_label(f2, label) =~= f2 + tail);
        assert(f1.len() == f2.len());
        assert(f1 =~= (f1 + tail).take(f1.len() as int));
        assert(f2 =~= (f2 + tail).take(f2.len() as int));
    }
}

pub open spec fn label_asm(function: Seq<char>, label: Seq<char>) -> Seq<Seq<char>> {
    seq!["//label "@ + label, "("@ + qualified_label(function, label) + ")"@]
}

pub open spec fn goto_asm(function: Seq<char>, label: Seq<char>) -> Seq<Seq<char>> {
    seq!["//goto "@ + label, "@"@ + qualified_label(function, label), "0;JMP"@]
}

pub open spec fn if_goto_asm(function: Seq<char>, label: Seq<char>) -> Seq<Seq<char>> {
    seq!["//if-goto "@ + label] + pop_to_d_asm() + seq![
        "@"@ + qualified_label(function, label),
        "D;JNE"@,
    ]
}

/// The return-address label of the `k`-th call of a unit.
pub open spec fn return_label(file: Seq<char>, function: Seq<char>, k: nat) -> Seq<char> {
    file + "."@ + function + ".return."@ + decimal(k)
}

/// Pushes the value of D.
pub open spec fn push_d_asm() -> Seq<Seq<char>> {
    seq!["@SP"@, "AM=M+1"@, "A=A-1"@, "M=D"@]
}

/// Pushes the value of register `reg`.
pub open spec fn save_asm(reg: Seq<char>) -> Seq<Seq<char>> {
    seq!["@"@ + reg, "D=M"@] + push_d_asm()
}

pub open spec fn call_asm(file: Seq<char>, function: Seq<char>, n: nat, k: nat) -> Seq<Seq<char>> {
    seq!["//call "@ + function + " "@ + decimal(n), "@"@ + return_label(file, function, k), "D=A"@]
    + push_d_asm()
    + save_asm("LCL"@)
    + save_asm("ARG"@)
    + save_asm("THIS"@)
    + save_asm("THAT"@)
    + seq![
        "@SP"@,
        "D=M"@,
        "@LCL"@,
        "M=D"@,
        "@"@ + decimal(n + 5),
        "D=D-A"@,
        "@ARG"@,
        "M=D"@,
        "@"@ + function,
        "0;JMP"@,
        "("@ + return_label(file, function, k) + ")"@,
    ]
}

pub open spec fn function_asm(function: Seq<char>, n: nat) -> Seq<Seq<char>> {
    seq![
        "//function "@ + function + " "@ + decimal(n),
        "("@ + function + ")"@,
        "@"@ + decimal(n),
        "D=A"@,
        "@SP"@,
        "M=M+D"@,
    ]
}

/// Loads the next saved register below the frame's base into `reg`.
pub open spec fn restore_asm(reg: Seq<char>) -> Seq<Seq<char>> {
    seq!["@LCL"@, "AM=M-1"@, "D=M"@, "@"@ + reg, "M=D"@]
}

pub open spec fn return_asm() -> Seq<Seq<char>> {
    seq!["//return"@, "@SP"@, "A=M-1"@, "D=M"@, "@ARG"@, "A=M"@, "M=D"@, "D=A"@, "@SP"@, "M=D+1"@]
    + restore_asm("THAT"@)
    + restore_asm("THIS"@)
    + restore_asm("ARG"@)
    + seq![
        "@LCL"@,
        "AM=M-1"@,
        "D=A"@,
        "D=D+M"@,
        "@LCL"@,
        "M=D-M"@,
        "A=D-M"@,
        "A=A-1"@,
        "A=M"@,
        "0;JMP"@,
    ]
}

/// The per-unit counters that keep generated labels unique.
pub struct CodeGen {
    binary_counter: usize,
    call_counter: usize,
}

impl Default for CodeGen {
    fn default() -> (r: Self)
        ensures
            r.comparisons() == 0,
            r.calls() == 0,
    {
        CodeGen { binary_counter: 0, call_counter: 0 }
    }
}

impl CodeGen {
    /// How many comparisons this unit has emitted.
    pub closed spec fn comparisons(&self) -> nat {
        self.binary_counter as nat
    }

    /// How many calls this unit has emitted.
    pub closed spec fn calls(&self) -> nat {
        self.call_counter as nat
    }

    pub fn new() -> (r: Self)
        ensures
            r.comparisons() == 0,
            r.calls() == 0,
    {
        CodeGen { binary_counter: 0, call_counter: 0 }
    }

    /// Sets the stack pointer to its base address.
    pub fn bootstrap() -> (r: Vec<String>)
        ensures
            lines_of(r@) == bootstrap_asm(),
    {
        let r = owned_lines(&["@256", "D=A", "@SP", "M=D"]);
        assert(lines_of(r@) =~= bootstrap_asm());
        r
    }

    fn sp_minus_1_load_d() -> (r: Vec<String>)
        ensures
            lines_of(r@) == pop_to_d_asm(),
    {
        let r = owned_lines(&["@SP", "AM=M-1", "D=M"]);
        assert(lines_of(r@) =~= pop_to_d_asm());
        r
    }

    fn sp_a_m_minus_1() -> (r: Vec<String>)
        ensures
            lines_of(r@) == top_asm(),
    {
        let r = owned_lines(&["@SP", "A=M-1"]);
        assert(lines_of(r@) =~= top_asm());
        r
    }

    /// The fragment of a binary operator: pops the right operand into D and
    /// combines it into the new top with `combine`.
    fn binary(header: &str, combine: &str) -> (r: Vec<String>)
        ensures
            lines_of(r@) == seq![header@] + pop_to_d_asm() + top_asm() + seq![combine@],
    {
        let mut out = owned_lines(&[header]);
        append_lines(&mut out, Self::sp_minus_1_load_d());
        append_lines(&mut out, Self::sp_a_m_minus_1());
        append_lines(&mut out, owned_lines(&[combine]));
        assert(lines_of(out@) =~= seq![header@] + pop_to_d_asm() + top_asm() + seq![combine@]);
        out
    }

    /// The fragment of a unary operator, applied to the top in place.
    fn unary(header: &str, apply: &str) -> (r: Vec<String>)
        ensures
            lines_of(r@) == seq![header@] + top_asm() + seq![apply@],
    {
        let mut out = owned_lines(&[header]);
        append_lines(&mut out, Self::sp_a_m_minus_1());
        append_lines(&mut out, owned_lines(&[apply]));
        assert(lines_of(out@) =~= seq![header@] + top_asm() + seq![apply@]);
        out
    }

    pub fn add() -> (r: Vec<String>)
        ensures
            lines_of(r@) == add_asm(),
    {
        Self::binary("//add", "M=D+M")
    }

    pub fn sub() -> (r: Vec<String>)
        ensures
            lines_of(r@) == sub_asm(),
    {
        Self::binary("//sub", "M=M-D")
    }

    pub fn neg() -> (r: Vec<String>)
        ensures
            lines_of(r@) == neg_asm(),
    {
        Self::unary("//neg", "M=-M")
    }

    pub fn and() -> (r: Vec<String>)
        ensures
            lines_of(r@) == and_asm(),
    {
        Self::binary("//and", "M=D&M")
    }

    pub fn or() -> (r: Vec<String>)
        ensures
            lines_of(r@) == or_asm(),
    {
        Self::binary("//or", "M=D|M")
    }

    pub fn not() -> (r: Vec<String>)
        ensures
            lines_of(r@) == not_asm(),
    {
        Self::unary("//not", "M=!M")
    }

    /// Compares the two top values with `comp` (`eq`, `gt` or `lt`) and leaves
    /// true (-1) or false (0) in their place.
    pub fn bin_comp(&mut self, file_name: &String, comp: &str) -> (r: Vec<String>)
        requires
            is_comparison(comp@),
            old(self).comparisons() < usize::MAX,
        ensures
            final(self).comparisons() == old(self).comparisons() + 1,
            final(self).calls() == old(self).calls(),
            lines_of(r@) == compare_asm(file_name@, comp@, old(self).comparisons()),
    {
        let k = self.binary_counter;
        self.binary_counter = self.binary_counter + 1;
        let jump = if text_eq(comp, "eq") {
            "D;JEQ"
        } else if text_eq(comp, "gt") {
            "D;JGT"
        } else {
            "D;JLT"
        };
        let mut label = join3(file_name.as_str(), ".", comp);
        label.append(".");
        label.append(usize_text(k).as_str());
        let mut out = owned_lines(&[]);
        put_string(&mut out, join2("//", comp));
        append_lines(&mut out, Self::sp_minus_1_load_d());
        put(&mut out, "A=A-1");
        put(&mut out, "D=M-D");
        put(&mut out, "M=-1");
        put_string(&mut out, join2("@", label.as_str()));
        put(&mut out, jump);
        append_lines(&mut out, Self::sp_a_m_minus_1());
        put(&mut out, "M=0");
        put_string(&mut out, join3("(", label.as_str(), ")"));
        assert(lines_of(out@) =~= compare_asm(file_name@, comp@, k as nat));
        out
    }

    /// Pushes the cell that `@addr` selects.
    fn push_cell(out: &mut Vec<String>, addr: &str)
        ensures
            lines_of(final(out)@) == lines_of(old(out)@) + push_cell_asm(addr@),
    {
        put_string(out, join2("@", addr));
        append_lines(out, owned_lines(&["D=M", "@SP", "M=M+1", "A=M-1", "M=D"]));
        assert(lines_of(out@) =~= lines_of(old(out)@) + push_cell_asm(addr@));
    }

    /// Pushes `memory_segment[i]`.
    pub fn push_segment(file_name: &String, memory_segment: MemorySegments, i: usize) -> (r: Vec<String>)
        requires
            memory_segment is Pointer ==> i <= 1,
            memory_segment is Temp ==> i <= usize::MAX - 5,
        ensures
            lines_of(r@) == push_asm(file_name@, memory_segment, i as nat),
    {
        let index = usize_text(i);
        let mut header = join3("//push ", memory_segment.to_token(), " ");
        header.append(index.as_str());
        let mut out = owned_lines(&[]);
        put_string(&mut out, header);
        let ghost start = lines_of(out@);
        match memory_segment {
            MemorySegments::Constant => {
                put_string(&mut out, join2("@", index.as_str()));
                append_lines(&mut out, owned_lines(&["D=A", "@SP", "AM=M+1", "A=A-1", "M=D"]));
            },
            MemorySegments::Static => {
                let cell = join3(file_name.as_str(), ".", index.as_str());
                Self::push_cell(&mut out, cell.as_str());
            },
            MemorySegments::Temp => {
                let cell = usize_text(i + 5);
                Self::push_cell(&mut out, cell.as_str());
            },
            MemorySegments::Pointer => {
                let reg = if i == 0 {
                    "THIS"
                } else {
                    "THAT"
                };
                Self::push_cell(&mut out, reg);
            },
            _ => {
                put_string(&mut out, join2("@", memory_segment.to_asm()));
                put(&mut out, "D=M");
                put_string(&mut out, join2("@", index.as_str()));
                append_lines(
                    &mut out,
                    owned_lines(&["A=D+A", "D=M", "@SP", "A=M", "M=D", "@SP", "M=M+1"]),
                );
            },
        }
        assert(lines_of(out@) =~= push_asm(file_name@, memory_segment, i as nat));
        out
    }

    /// Pops the top of the stack into `memory_segment[i]`.
    pub fn pop_segment(file_name: &String, memory_segment: MemorySegments, i: usize) -> (r: Vec<String>)
        requires
            !(memory_segment is Constant),
            memory_segment is Pointer ==> i <= 1,
            memory_segment is Temp ==> i <= usize::MAX - 5,
        ensures
            lines_of(r@) == pop_asm(file_name@, memory_segment, i as nat),
    {
        let index = usize_text(i);
        let mut header = join3("//pop ", memory_segment.to_token(), " ");
        header.append(index.as_str());
        let mut out = owned_lines(&[]);
        put_string(&mut out, header);
        append_lines(&mut out, Self::sp_minus_1_load_d());
        match memory_segment {
            MemorySegments::Static => {
                let cell = join3(file_name.as_str(), ".", index.as_str());
                put_string(&mut out, join2("@", cell.as_str()));
                put(&mut out, "M=D");
            },
            MemorySegments::Temp => {
                let cell = usize_text(i + 5);
                put_string(&mut out, join2("@", cell.as_str()));
                put(&mut out, "M=D");
            },
            MemorySegments::Pointer => {
                let reg = if i == 0 {
                    "@THIS"
                } else {
                    "@THAT"
                };
                proof {
                    reveal_strlit("@THIS");
                    reveal_strlit("@THAT");
                    reveal_strlit("@");
                    reveal_strlit("THIS");
                    reveal_strlit("THAT");
                }
                assert(reg@ =~= "@"@ + pointer_register(i as nat));
                put(&mut out, reg);
                put(&mut out, "M=D");
            },
            _ => {
                put_string(&mut out, join2("@", memory_segment.to_asm()));
                put(&mut out, "D=D+M");
                put_string(&mut out, join2("@", index.as_str()));
                append_lines(
                    &mut out,
                    owned_lines(&["D=D+A", "@SP", "A=M", "A=M", "A=D-A", "M=D-A"]),
                );
            },
        }
        assert(lines_of(out@) =~= pop_asm(file_name@, memory_segment, i as nat));
        out
    }

    /// The assembly name of `label` inside `function_label`.
    pub fn generate_asm_label(function_label: &String, label: &String) -> (r: String)
        ensures
            r@ == qualified_label(function_label@, label@),
    {
        join3(function_label.as_str(), "$", label.as_str())
    }

    pub fn label(function_label: &String, label: &String) -> (r: Vec<String>)
        ensures
            lines_of(r@) == label_asm(function_label@, label@),
    {
        let name = Self::generate_asm_label(function_label, label);
        let mut out = owned_lines(&[]);
        put_string(&mut out, join2("//label ", label.as_str()));
        put_string(&mut out, join3("(", name.as_str(), ")"));
        assert(lines_of(out@) =~= label_asm(function_label@, label@));
        out
    }

    pub fn goto_label(function_label: &String, label: &String) -> (r: Vec<String>)
        ensures
            lines_of(r@) == goto_asm(function_label@, label@),
    {
        let name = Self::generate_asm_label(function_label, label);
        let mut out = owned_lines(&[]);
        put_string(&mut out, join2("//goto ", label.as_str()));
        put_string(&mut out, join2("@", name.as_str()));
        put(&mut out, "0;JMP");
        assert(lines_of(out@) =~= goto_asm(function_label@, label@));
        out
    }

    pub fn if_goto_label(function_label: &String, label: &String) -> (r: Vec<String>)
        ensures
            lines_of(r@) == if_goto_asm(function_label@, label@),
    {
        let name = Self::generate_asm_label(function_label, label);
        let mut out = owned_lines(&[]);
        put_string(&mut out, join2("//if-goto ", label.as_str()));
        append_lines(&mut out, Self::sp_minus_1_load_d());
        put_string(&mut out, join2("@", name.as_str()));
        put(&mut out, "D;JNE");
        assert(lines_of(out@) =~= if_goto_asm(function_label@, label@));
        out
    }

    /// Pushes D.
    fn push_d(out: &mut Vec<String>)
        ensures
            lines_of(final(out)@) == lines_of(old(out)@) + push_d_asm(),
    {
        append_lines(out, owned_lines(&["@SP", "AM=M+1", "A=A-1", "M=D"]));
        assert(lines_of(out@) =~= lines_of(old(out)@) + push_d_asm());
    }

    /// Pushes the register whose assembly line is `at_reg`.
    fn save(out: &mut Vec<String>, at_reg: &str)
        ensures
            lines_of(final(out)@) == lines_of(old(out)@) + seq![at_reg@, "D=M"@] + push_d_asm(),
    {
        put(out, at_reg);
        put(out, "D=M");
        Self::push_d(out);
        assert(lines_of(out@) =~= lines_of(old(out)@) + seq![at_reg@, "D=M"@] + push_d_asm());
    }

    /// Calls `function_name` with the `nargs` values on top of the stack as
    /// its arguments, saving the caller's frame.
    pub fn call(&mut self, file_name: &String, function_name: &String, nargs: usize) -> (r: Vec<String>)
        requires
            nargs <= usize::MAX - 5,
            old(self).calls() < usize::MAX,
        ensures
            final(self).calls() == old(self).calls() + 1,
            final(self).comparisons() == old(self).comparisons(),
            lines_of(r@) == call_asm(file_name@, function_name@, nargs as nat, old(self).calls()),
    {
        let k = self.call_counter;
        self.call_counter = self.call_counter + 1;
        let mut ret = join3(file_name.as_str(), ".", function_name.as_str());
        ret.append(".return.");
        ret.append(usize_text(k).as_str());
        let mut header = join3("//call ", function_name.as_str(), " ");
        header.append(usize_text(nargs).as_str());
        let mut out = owned_lines(&[]);
        put_string(&mut out, header);
        put_string(&mut out, join2("@", ret.as_str()));
        put(&mut out, "D=A");
        Self::push_d(&mut out);
        proof {
            reveal_strlit("@LCL");
            reveal_strlit("@ARG");
            reveal_strlit("@THIS");
            reveal_strlit("@THAT");
            reveal_strlit("@");
            reveal_strlit("LCL");
            reveal_strlit("ARG");
            reveal_strlit("THIS");
            reveal_strlit("THAT");
        }
        assert("@LCL"@ =~= "@"@ + "LCL"@);
        assert("@ARG"@ =~= "@"@ + "ARG"@);
        assert("@THIS"@ =~= "@"@ + "THIS"@);
        assert("@THAT"@ =~= "@"@ + "THAT"@);
        Self::save(&mut out, "@LCL");
        Self::save(&mut out, "@ARG");
        Self::save(&mut out, "@THIS");
        Self::save(&mut out, "@THAT");
        append_lines(&mut out, owned_lines(&["@SP", "D=M", "@LCL", "M=D"]));
        put_string(&mut out, join2("@", usize_text(nargs + 5).as_str()));
        append_lines(&mut out, owned_lines(&["D=D-A", "@ARG", "M=D"]));
        put_string(&mut out, join2("@", function_name.as_str()));
        put(&mut out, "0;JMP");
        put_string(&mut out, join3("(", ret.as_str(), ")"));
        assert(lines_of(out@) =~= call_asm(file_name@, function_name@, nargs as nat, k as nat));
        out
    }

    /// Declares `function_name` and reserves `nargs` local cells, which are
    /// left as they were.
    pub fn function(function_name: &String, nargs: usize) -> (r: Vec<String>)
        ensures
            lines_of(r@) == function_asm(function_name@, nargs as nat),
    {
        let n = usize_text(nargs);
        let mut header = join3("//function ", function_name.as_str(), " ");
        header.append(n.as_str());
        let mut out = owned_lines(&[]);
        put_string(&mut out, header);
        put_string(&mut out, join3("(", function_name.as_str(), ")"));
        put_string(&mut out, join2("@", n.as_str()));
        append_lines(&mut out, owned_lines(&["D=A", "@SP", "M=M+D"]));
        assert(lines_of(out@) =~= function_asm(function_name@, nargs as nat));
        out
    }

    /// Returns to the caller: the top value replaces the arguments and the
    /// caller's frame is restored.
    pub fn f_return() -> (r: Vec<String>)
        ensures
            lines_of(r@) == return_asm(),
    {
        let out = owned_lines(
            &[
                "//return",
                "@SP",
                "A=M-1",
                "D=M",
                "@ARG",
                "A=M",
                "M=D",
                "D=A",
                "@SP",
                "M=D+1",
                "@LCL",
                "AM=M-1",
                "D=M",
                "@THAT",
                "M=D",
                "@LCL",
                "AM=M-1",
                "D=M",
                "@THIS",
                "M=D",
                "@LCL",
                "AM=M-1",
                "D=M",
                "@ARG",
                "M=D",
                "@LCL",
                "AM=M-1",
                "D=A",
                "D=D+M",
                "@LCL",
                "M=D-M",
                "A=D-M",
                "A=A-1",
                "A=M",
                "0;JMP",
            ],
        );
        proof {
            reveal_strlit("@THAT");
            reveal_strlit("@THIS");
            reveal_strlit("@ARG");
            reveal_strlit("@");
            reveal_strlit("THIS");
            reveal_strlit("THAT");
            reveal_strlit("ARG");
        }
        assert("@ARG"@ =~= "@"@ + "ARG"@);
        assert("@THIS"@ =~= "@"@ + "THIS"@);
        assert("@THAT"@ =~= "@"@ + "THAT"@);
        assert(lines_of(out@) =~= return_asm());
        out
    }
}

} // verus!
