//! The two-pass assembler: binds instruction labels to ROM addresses, then
//! encodes each A- and C-instruction as a 16-bit word.
use vstd::prelude::*;
use crate::hack_code::{SimpleAssembler, binary, dest_bits, comp_bits, jump_bits, A_MAX};
use crate::parser::{Parser, split_on, clean, trim, is_code_end, code_part, lemma_code_end_unique};
use crate::symbol_table::{SimpleSymbolTable, predefined, lookup, FIRST_VARIABLE};
use crate::text::{chars_of, is_digits, digits_value, parse_unsigned, unsigned_digits};

verus! {

pub open spec fn is_asm_label_start(c: char) -> bool {
    ('a' <= c && c <= 'z') || ('A' <= c && c <= 'Z') || c == '_' || c == '.' || c == '$' || c == ':'
}

pub open spec fn is_asm_label_char(c: char) -> bool {
    is_asm_label_start(c) || ('0' <= c && c <= '9')
}

/// A symbol: a letter, `_`, `.`, `$` or `:`, then letters, digits, `_`,
/// `.`, `$` or `:`.
pub open spec fn is_asm_label(s: Seq<char>) -> bool {
    &&& s.len() > 0
    &&& is_asm_label_start(s[0])
    &&& forall|i: int| 1 <= i < s.len() ==> is_asm_label_char(#[trigger] s[i])
}

/// The effect of a line handed to the label pass.
pub open spec fn label_line_spec(st: Assembly, t: Seq<char>, addr: nat) -> Assembly {
    if is_label_line(t) {
        define_label(st, t, addr)
    } else {
        Assembly { error: true, ..st }
    }
}

/// The effect of a line handed to the A-instruction pass.
pub open spec fn a_line_spec(st: Assembly, t: Seq<char>) -> Assembly {
    if t.len() > 0 && t[0] == '@' {
        a_spec(st, t)
    } else {
        Assembly { error: true, ..st }
    }
}

/// A line that declares an instruction label: `(` ... `)`.
pub open spec fn is_label_line(t: Seq<char>) -> bool {
    t.len() > 0 && t[0] == '(' && t.last() == ')'
}

/// The text between the parentheses of a label line.
pub open spec fn label_inside(t: Seq<char>) -> Seq<char> {
    t.subrange(1, t.len() - 1)
}

/// The state of an assembly: the words so far, the symbols, the next
/// variable cell, and whether an error was met.
pub ghost struct Assembly {
    pub rom: Seq<Seq<char>>,
    pub symbols: Map<Seq<char>, usize>,
    pub next: nat,
    pub error: bool,
}

pub open spec fn predefined_symbols() -> Map<Seq<char>, usize> {
    Map::new(|k: Seq<char>| lookup(predefined(), k) is Some, |k: Seq<char>| lookup(predefined(), k)->0)
}

pub open spec fn start_assembly() -> Assembly {
    Assembly { rom: seq![], symbols: predefined_symbols(), next: FIRST_VARIABLE as nat, error: false }
}

/// Binds the label of line `t` to ROM address `addr`.
pub open spec fn define_label(st: Assembly, t: Seq<char>, addr: nat) -> Assembly {
    let name = label_inside(t);
    if !is_asm_label(name) || st.symbols.contains_key(name) {
        Assembly { error: true, ..st }
    } else {
        Assembly { symbols: st.symbols.insert(name, addr as usize), ..st }
    }
}

/// The first pass over the cleaned lines: the state after binding the
/// labels, and the instruction lines that remain.
pub open spec fn first_pass_spec(st: Assembly, lines: Seq<Seq<char>>) -> (Assembly, Seq<Seq<char>>)
    decreases lines.len(),
{
    if lines.len() == 0 {
        (st, seq![])
    } else {
        let (s, kept) = first_pass_spec(st, lines.drop_last());
        let t = lines.last();
        if is_label_line(t) {
            (define_label(s, t, kept.len()), kept)
        } else {
            (s, kept.push(t))
        }
    }
}

/// Emits the word of a value, if it fits an A-instruction.
pub open spec fn load_value(st: Assembly, v: nat) -> Assembly {
    if v > A_MAX {
        Assembly { error: true, ..st }
    } else {
        Assembly { rom: st.rom.push(binary(v, 16)), ..st }
    }
}

/// The effect of an A-instruction line `@...`.
pub open spec fn a_spec(st: Assembly, t: Seq<char>) -> Assembly {
    let x = t.drop_first();
    if x.len() == 0 {
        Assembly { error: true, ..st }
    } else if is_asm_label(x) {
        if st.symbols.contains_key(x) {
            load_value(st, st.symbols[x] as nat)
        } else {
            load_value(
                Assembly { symbols: st.symbols.insert(x, st.next as usize), next: st.next + 1, ..st },
                st.next,
            )
        }
    } else if is_digits(unsigned_digits(x)) && digits_value(unsigned_digits(x)) <= usize::MAX {
        load_value(st, digits_value(unsigned_digits(x)))
    } else {
        Assembly { error: true, ..st }
    }
}

/// `k` is the first position of `c` in `s`.
pub open spec fn is_first(s: Seq<char>, c: char, k: int) -> bool {
    0 <= k < s.len() && s[k] == c && forall|j: int| 0 <= j < k ==> s[j] != c
}

pub open spec fn has_char(s: Seq<char>, c: char) -> bool {
    exists|k: int| 0 <= k < s.len() && s[k] == c
}

/// The text before the first `c` and the text after it.
pub open spec fn split_first(s: Seq<char>, c: char) -> (Seq<char>, Seq<char>) {
    let k = choose|k: int| is_first(s, c, k);
    (s.take(k), s.skip(k + 1))
}

pub proof fn lemma_first_unique(s: Seq<char>, c: char, k1: int, k2: int)
    requires
        is_first(s, c, k1),
        is_first(s, c, k2),
    ensures
        k1 == k2,
{
    if k1 < k2 {
        assert(s[k1] != c);
    } else if k2 < k1 {
        assert(s[k2] != c);
    }
}

/// The first position of `c` in `chars[a..b]`, as an index of `chars`.
fn first_index(chars: &Vec<char>, a: usize, b: usize, c: char) -> (r: Option<usize>)
    requires
        a <= b <= chars@.len(),
    ensures
        r matches Some(k) ==> a <= k < b && is_first(chars@.subrange(a as int, b as int), c, k - a),
        r is None ==> !has_char(chars@.subrange(a as int, b as int), c),
{
    let ghost s = chars@.subrange(a as int, b as int);
    let mut i = a;
    while i < b
        invariant
            a <= i <= b <= chars@.len(),
            s == chars@.subrange(a as int, b as int),
            forall|j: int| 0 <= j < i - a ==> s[j] != c,
        decreases b - i,
    {
        if chars[i] == c {
            assert(s[i - a] == c);
            return Some(i);
        }
        i = i + 1;
    }
    None
}

/// The trimmed text of `chars[a..b]`, which is also `text[a..b]`.
fn trimmed<'a>(text: &'a str, chars: &Vec<char>, a: usize, b: usize) -> (r: &'a str)
    requires
        chars@ == text@,
        a <= b <= chars@.len(),
    ensures
        r@ == trim(chars@.subrange(a as int, b as int)),
{
    let (x, y) = Parser::trim_bounds(chars, a, b);
    text.substring_char(x, y)
}

/// The dest, comp and jump fields of a C-instruction line.
pub open spec fn c_fields(t: Seq<char>) -> (Seq<char>, Seq<char>, Seq<char>) {
    let (dest, rest) = if has_char(t, '=') {
        split_first(t, '=')
    } else {
        ("null"@, t)
    };
    let (comp, jump) = if has_char(rest, ';') {
        split_first(rest, ';')
    } else {
        (rest, "null"@)
    };
    (trim(dest), trim(comp), trim(jump))
}

/// The effect of a C-instruction line.
pub open spec fn c_spec(st: Assembly, t: Seq<char>) -> Assembly {
    let (dest, comp, jump) = c_fields(t);
    if dest_bits(dest) is None || comp_bits(comp) is None || jump_bits(jump) is None {
        Assembly { error: true, ..st }
    } else {
        Assembly {
            rom: st.rom.push(seq!['1', '1', '1'] + comp_bits(comp)->0 + dest_bits(dest)->0 + jump_bits(jump)->0),
            ..st
        }
    }
}

/// The second pass over the instruction lines.
pub open spec fn second_pass_spec(st: Assembly, lines: Seq<Seq<char>>) -> Assembly
    decreases lines.len(),
{
    if lines.len() == 0 {
        st
    } else {
        let s = second_pass_spec(st, lines.drop_last());
        let t = lines.last();
        if t.len() > 0 && t[0] == '@' {
            a_spec(s, t)
        } else {
            c_spec(s, t)
        }
    }
}

/// The numbered lines that hold anything once cleaned, cleaned.
pub open spec fn cleaned(ls: Seq<(Seq<char>, nat)>) -> Seq<(Seq<char>, nat)>
    decreases ls.len(),
{
    if ls.len() == 0 {
        seq![]
    } else if clean(ls.last().0).len() == 0 {
        cleaned(ls.drop_last())
    } else {
        cleaned(ls.drop_last()).push((clean(ls.last().0), ls.last().1))
    }
}

pub open spec fn texts(ls: Seq<(Seq<char>, nat)>) -> Seq<Seq<char>> {
    ls.map_values(|l: (Seq<char>, nat)| l.0)
}

/// What a program of the assembly language assembles to: its words, or
/// `None` when it holds an error.
pub open spec fn assemble(source: Seq<char>) -> Option<Seq<Seq<char>>> {
    let lines = texts(cleaned(numbered(split_on(source, '\n'))));
    let (st, kept) = first_pass_spec(start_assembly(), lines);
    let fin = second_pass_spec(st, kept);
    if fin.error {
        None
    } else {
        Some(fin.rom)
    }
}

pub proof fn lemma_split_len(s: Seq<char>, sep: char)
    ensures
        split_on(s, sep).len() <= s.len() + 1,
        split_on(s, sep).len() >= 1,
    decreases s.len(),
{
    if s.len() > 0 {
        lemma_split_len(s.drop_last(), sep);
    }
}

pub proof fn lemma_cleaned_len(ls: Seq<(Seq<char>, nat)>)
    ensures
        cleaned(ls).len() <= ls.len(),
    decreases ls.len(),
{
    if ls.len() > 0 {
        lemma_cleaned_len(ls.drop_last());
    }
}

pub proof fn lemma_first_pass_len(st: Assembly, lines: Seq<Seq<char>>)
    ensures
        first_pass_spec(st, lines).1.len() <= lines.len(),
        first_pass_spec(st, lines).0.next == st.next,
    decreases lines.len(),
{
    if lines.len() > 0 {
        lemma_first_pass_len(st, lines.drop_last());
    }
}

/// A line of the program with its 0-based index.
#[derive(Debug)]
pub struct LineSource {
    pub source: String,
    pub line: usize,
}

impl LineSource {
    pub fn new(source: String, line: usize) -> (r: Self)
        ensures
            r.source@ == source@,
            r.line == line,
    {
        LineSource { source, line }
    }
}

pub open spec fn line_views(v: Seq<LineSource>) -> Seq<(Seq<char>, nat)> {
    v.map_values(|l: LineSource| (l.source@, l.line as nat))
}

/// The lines of a text, each with its 0-based index.
pub open spec fn numbered(ls: Seq<Seq<char>>) -> Seq<(Seq<char>, nat)> {
    Seq::new(ls.len(), |i: int| (ls[i], i as nat))
}

pub struct Simple {
    pub rom: Vec<[char; 16]>,
    pub line_sources: Vec<LineSource>,
    pub symbol_table: SimpleSymbolTable,
    pub had_error: bool,
}

pub open spec fn words_of(rom: Seq<[char; 16]>) -> Seq<Seq<char>> {
    rom.map_values(|w: [char; 16]| w@)
}

impl Simple {
    pub open spec fn state(&self) -> Assembly {
        Assembly {
            rom: words_of(self.rom@),
            symbols: self.symbol_table.symbols(),
            next: self.symbol_table.next_variable(),
            error: self.had_error,
        }
    }

    fn error(&mut self)
        ensures
            final(self).state() == (Assembly { error: true, ..old(self).state() }),
            final(self).line_sources == old(self).line_sources,
    {
        self.had_error = true;
    }

    /// Whether `label` is a valid symbol.
    pub fn is_valid_label(label: &[char]) -> (r: bool)
        ensures
            r == is_asm_label(label@),
    {
        if label.len() == 0 {
            return false;
        }
        let c = label[0];
        if !(('a' <= c && c <= 'z') || ('A' <= c && c <= 'Z') || c == '_' || c == '.' || c == '$' || c == ':') {
            return false;
        }
        let mut i: usize = 1;
        while i < label.len()
            invariant
                1 <= i <= label@.len(),
                forall|j: int| 1 <= j < i ==> is_asm_label_char(#[trigger] label@[j]),
            decreases label@.len() - i,
        {
            let c = label[i];
            if !(('a' <= c && c <= 'z') || ('A' <= c && c <= 'Z') || ('0' <= c && c <= '9') || c == '_' || c == '.' || c == '$' || c == ':') {
                assert(!is_asm_label_char(label@[i as int]));
                return false;
            }
            i = i + 1;
        }
        true
    }

    /// The characters `chars[a..b]`, copied.
    fn copy_range(chars: &Vec<char>, a: usize, b: usize) -> (r: Vec<char>)
        requires
            a <= b <= chars@.len(),
        ensures
            r@ == chars@.subrange(a as int, b as int),
    {
        let mut r: Vec<char> = Vec::new();
        let mut i = a;
        while i < b
            invariant
                a <= i <= b <= chars@.len(),
                r@ == chars@.subrange(a as int, i as int),
            decreases b - i,
        {
            r.push(chars[i]);
            i = i + 1;
            assert(r@ =~= chars@.subrange(a as int, i as int));
        }
        r
    }

    /// Binds the label that `line_source` declares to ROM address `value`.
    pub fn add_instruction_label(&mut self, line_source: &LineSource, value: usize)
        ensures
            final(self).state() == label_line_spec(old(self).state(), line_source.source@, value as nat),
            final(self).line_sources == old(self).line_sources,
    {
        let text = line_source.source.as_str();
        let chars = chars_of(text);
        let n = chars.len();
        if n == 0 || chars[0] != '(' || chars[n - 1] != ')' {
            self.error();
            return;
        }
        let inner = Self::copy_range(&chars, 1, n - 1);
        if !Self::is_valid_label(inner.as_slice()) {
            self.error();
            return;
        }
        let name = String::from_str(text.substring_char(1, n - 1));
        let ghost key = name@;
        let ghost before = self.state();
        match self.symbol_table.insert_instruction_label(name, value) {
            Ok(()) => {
                assert(self.state().symbols =~= before.symbols.insert(key, value));
            },
            Err(_) => {
                assert(before.symbols.contains_key(key));
                self.error();
            },
        }
    }

    /// Encodes an A-instruction line.
    pub fn a_instruction(&mut self, line_source: &LineSource)
        requires
            old(self).state().next < usize::MAX,
        ensures
            final(self).state() == a_line_spec(old(self).state(), line_source.source@),
            final(self).line_sources == old(self).line_sources,
    {
        let text = line_source.source.as_str();
        let chars = chars_of(text);
        let n = chars.len();
        if n == 0 || chars[0] != '@' {
            self.error();
            return;
        }
        let ghost x = chars@.drop_first();
        if n == 1 {
            assert(x.len() == 0);
            self.error();
            return;
        }
        let rest_chars = Self::copy_range(&chars, 1, n);
        assert(rest_chars@ =~= x);
        let rest = String::from_str(text.substring_char(1, n));
        let ghost before = self.state();
        let value = if Self::is_valid_label(rest_chars.as_slice()) {
            let v = self.symbol_table.get_or_insert_memory_label(rest);
            proof {
                if before.symbols.contains_key(x) {
                    assert(self.state().symbols =~= before.symbols);
                } else {
                    assert(self.state().symbols =~= before.symbols.insert(x, before.next as usize));
                }
            }
            v
        } else {
            match parse_unsigned(rest.as_str()) {
                Some(v) => v,
                None => {
                    self.error();
                    return;
                },
            }
        };
        match SimpleAssembler::a_instruction(value) {
            Err(_) => {
                self.error();
            },
            Ok(w) => {
                let ghost mid = self.state();
                self.rom.push(w);
                assert(words_of(self.rom@) =~= mid.rom.push(binary(value as nat, 16)));
            },
        }
    }

    /// Encodes a C-instruction line `dest=comp;jump`, where `dest=` and
    /// `;jump` may be left out.
    pub fn c_instruction(&mut self, line_source: &LineSource)
        ensures
            final(self).state() == c_spec(old(self).state(), line_source.source@),
            final(self).line_sources == old(self).line_sources,
    {
        let text = line_source.source.as_str();
        let chars = chars_of(text);
        let n = chars.len();
        let ghost t = chars@;
        proof {
            reveal_strlit("null");
            assert(chars@.subrange(0, n as int) =~= t);
        }
        let (dest, rest_start) = match first_index(&chars, 0, n, '=') {
            Some(k) => {
                proof {
                    let j = choose|j: int| is_first(t, '=', j);
                    lemma_first_unique(t, '=', j, k as int);
                    assert(t.take(k as int) =~= chars@.subrange(0, k as int));
                    assert(t.skip(k + 1) =~= chars@.subrange(k + 1, n as int));
                }
                (trimmed(text, &chars, 0, k), k + 1)
            },
            None => {
                assert(trim("null"@) == "null"@);
                ("null", 0)
            },
        };
        let ghost rest = chars@.subrange(rest_start as int, n as int);
        let (comp, jump) = match first_index(&chars, rest_start, n, ';') {
            Some(k) => {
                proof {
                    let j = choose|j: int| is_first(rest, ';', j);
                    lemma_first_unique(rest, ';', j, k - rest_start);
                    assert(rest.take(k - rest_start) =~= chars@.subrange(rest_start as int, k as int));
                    assert(rest.skip(k - rest_start + 1) =~= chars@.subrange(k + 1, n as int));
                }
                (trimmed(text, &chars, rest_start, k), trimmed(text, &chars, k + 1, n))
            },
            None => {
                assert(trim("null"@) == "null"@);
                (trimmed(text, &chars, rest_start, n), "null")
            },
        };
        assert(c_fields(t) == (dest@, comp@, jump@));
        let d = match SimpleAssembler::dest(dest) {
            Ok(v) => v,
            Err(_) => {
                self.error();
                return;
            },
        };
        let c = match SimpleAssembler::comp(comp) {
            Ok(v) => v,
            Err(_) => {
                self.error();
                return;
            },
        };
        let j = match SimpleAssembler::jump(jump) {
            Ok(v) => v,
            Err(_) => {
                self.error();
                return;
            },
        };
        let mut w = ['1'; 16];
        let mut i: usize = 0;
        while i < 7
            invariant
                0 <= i <= 7,
                forall|m: int| 0 <= m < 3 ==> w@[m] == '1',
                forall|m: int| 0 <= m < i ==> w@[3 + m] == c@[m],
            decreases 7 - i,
        {
            w[3 + i] = c[i];
            i = i + 1;
        }
        i = 0;
        while i < 3
            invariant
                0 <= i <= 3,
                forall|m: int| 0 <= m < 3 ==> w@[m] == '1',
                forall|m: int| 0 <= m < 7 ==> w@[3 + m] == c@[m],
                forall|m: int| 0 <= m < i ==> w@[10 + m] == d@[m],
            decreases 3 - i,
        {
            w[10 + i] = d[i];
            i = i + 1;
        }
        i = 0;
        while i < 3
            invariant
                0 <= i <= 3,
                forall|m: int| 0 <= m < 3 ==> w@[m] == '1',
                forall|m: int| 0 <= m < 7 ==> w@[3 + m] == c@[m],
                forall|m: int| 0 <= m < 3 ==> w@[10 + m] == d@[m],
                forall|m: int| 0 <= m < i ==> w@[13 + m] == j@[m],
            decreases 3 - i,
        {
            w[13 + i] = j[i];
            i = i + 1;
        }
        assert(w@ =~= seq!['1', '1', '1'] + c@ + d@ + j@);
        let ghost mid = self.state();
        self.rom.push(w);
        assert(words_of(self.rom@) =~= mid.rom.push(w@));
    }

    /// An assembler for `source`, split into numbered lines.
    pub fn new(source: String) -> (r: Self)
        requires
            source@.len() < usize::MAX,
        ensures
            line_views(r.line_sources@) == numbered(split_on(source@, '\n')),
            r.state() == start_assembly(),
    {
        let text = source.as_str();
        let chars = chars_of(text);
        let n = chars.len();
        let ghost mut done: Seq<Seq<char>> = seq![];
        let mut out: Vec<LineSource> = Vec::new();
        let mut start: usize = 0;
        let mut i: usize = 0;
        proof {
            assert(chars@.take(0) =~= Seq::<char>::empty());
            assert(chars@.subrange(0, 0) =~= Seq::<char>::empty());
            assert(line_views(out@) =~= numbered(done));
        }
        while i < n
            invariant
                chars@ == text@,
                text@ == source@,
                n == chars@.len(),
                n < usize::MAX,
                start <= i <= n,
                out@.len() == done.len(),
                done.len() <= i,
                split_on(chars@.take(i as int), '\n') == done.push(chars@.subrange(start as int, i as int)),
                line_views(out@) == numbered(done),
            decreases n - i,
        {
            assert(chars@.take(i + 1).drop_last() =~= chars@.take(i as int));
            if chars[i] == '\n' {
                let ghost piece = chars@.subrange(start as int, i as int);
                let line = out.len();
                let ghost old_out = out@;
                out.push(LineSource::new(String::from_str(text.substring_char(start, i)), line));
                proof {
                    let before = done;
                    done = done.push(piece);
                    assert(line_views(out@) =~= line_views(old_out).push((piece, line as nat)));
                    assert(numbered(done) =~= numbered(before).push((piece, before.len() as nat)));
                }
                start = i + 1;
                assert(chars@.subrange(start as int, start as int) =~= Seq::<char>::empty());
            } else {
                assert(chars@.subrange(start as int, i as int + 1) =~= chars@.subrange(start as int, i as int).push(chars@[i as int]));
            }
            i = i + 1;
        }
        assert(chars@.take(n as int) =~= source@);
        let line = out.len();
        let ghost old_out = out@;
        out.push(LineSource::new(String::from_str(text.substring_char(start, n)), line));
        proof {
            let piece = chars@.subrange(start as int, n as int);
            let all = done.push(piece);
            assert(line_views(out@) =~= line_views(old_out).push((piece, line as nat)));
            assert(numbered(all) =~= numbered(done).push((piece, done.len() as nat)));
        }
        let r = Simple { rom: Vec::new(), line_sources: out, symbol_table: SimpleSymbolTable::new(), had_error: false };
        assert(r.state().symbols =~= predefined_symbols());
        assert(words_of(r.rom@) =~= Seq::<Seq<char>>::empty());
        r
    }

    /// Drops comments and outer whitespace, and the lines left empty.
    pub fn remove_whtiespace(&mut self)
        ensures
            line_views(final(self).line_sources@) == cleaned(line_views(old(self).line_sources@)),
            final(self).state() == old(self).state(),
    {
        let mut lines: Vec<LineSource> = Vec::new();
        std::mem::swap(&mut lines, &mut self.line_sources);
        let ghost views = line_views(lines@);
        let mut out: Vec<LineSource> = Vec::new();
        let mut i: usize = 0;
        assert(views.take(0) =~= Seq::<(Seq<char>, nat)>::empty());
        while i < lines.len()
            invariant
                views == line_views(lines@),
                0 <= i <= lines@.len(),
                line_views(out@) == cleaned(views.take(i as int)),
            decreases lines@.len() - i,
        {
            let text = lines[i].source.as_str();
            let chars = chars_of(text);
            let n = chars.len();
            let ghost l = chars@;
            let cut = Parser::comment_start(&chars, 0, n);
            proof {
                assert(chars@.subrange(0, n as int) =~= l);
                let k = choose|k: int| is_code_end(l, k);
                lemma_code_end_unique(l, k, cut as int);
                assert(code_part(l) =~= chars@.subrange(0, cut as int));
                assert(views.take(i + 1).drop_last() =~= views.take(i as int));
            }
            let (x, y) = Parser::trim_bounds(&chars, 0, cut);
            if x < y {
                let ghost before = out@;
                out.push(LineSource::new(String::from_str(text.substring_char(x, y)), lines[i].line));
                assert(line_views(out@) =~= line_views(before).push((clean(l), lines@[i as int].line as nat)));
            }
            i = i + 1;
        }
        assert(views.take(lines@.len() as int) =~= views);
        self.line_sources = out;
    }

    /// Binds every label line to the address of the instruction after it,
    /// and keeps the instruction lines.
    pub fn first_pass(&mut self)
        ensures
            (final(self).state(), texts(line_views(final(self).line_sources@)))
                == first_pass_spec(old(self).state(), texts(line_views(old(self).line_sources@))),
            final(self).line_sources@.len() <= old(self).line_sources@.len(),
    {
        let mut lines: Vec<LineSource> = Vec::new();
        std::mem::swap(&mut lines, &mut self.line_sources);
        let ghost ts = texts(line_views(lines@));
        let ghost st0 = self.state();
        let mut kept: Vec<LineSource> = Vec::new();
        let mut i: usize = 0;
        assert(ts.take(0) =~= Seq::<Seq<char>>::empty());
        assert(texts(line_views(kept@)) =~= Seq::<Seq<char>>::empty());
        while i < lines.len()
            invariant
                ts == texts(line_views(lines@)),
                0 <= i <= lines@.len(),
                kept@.len() <= i,
                (self.state(), texts(line_views(kept@))) == first_pass_spec(st0, ts.take(i as int)),
                self.line_sources@.len() == 0,
            decreases lines@.len() - i,
        {
            let text = lines[i].source.as_str();
            let chars = chars_of(text);
            let n = chars.len();
            assert(ts.take(i + 1).drop_last() =~= ts.take(i as int));
            assert(ts[i as int] == chars@);
            if n > 0 && chars[0] == '(' && chars[n - 1] == ')' {
                self.add_instruction_label(&lines[i], kept.len());
            } else {
                let ghost before = kept@;
                kept.push(LineSource::new(lines[i].source.clone(), lines[i].line));
                assert(texts(line_views(kept@)) =~= texts(line_views(before)).push(chars@));
            }
            i = i + 1;
        }
        assert(ts.take(lines@.len() as int) =~= ts);
        self.line_sources = kept;
    }

    /// Encodes every instruction line, in order.
    pub fn hack(&mut self)
        requires
            old(self).state().next + old(self).line_sources@.len() < usize::MAX,
        ensures
            final(self).state() == second_pass_spec(old(self).state(), texts(line_views(old(self).line_sources@))),
    {
        let mut lines: Vec<LineSource> = Vec::new();
        std::mem::swap(&mut lines, &mut self.line_sources);
        let ghost ts = texts(line_views(lines@));
        let ghost st0 = self.state();
        let mut i: usize = 0;
        assert(ts.take(0) =~= Seq::<Seq<char>>::empty());
        while i < lines.len()
            invariant
                ts == texts(line_views(lines@)),
                0 <= i <= lines@.len(),
                st0.next + lines@.len() < usize::MAX,
                self.state().next <= st0.next + i,
                self.state() == second_pass_spec(st0, ts.take(i as int)),
            decreases lines@.len() - i,
        {
            let text = lines[i].source.as_str();
            let chars = chars_of(text);
            assert(ts.take(i + 1).drop_last() =~= ts.take(i as int));
            assert(ts[i as int] == chars@);
            if chars.len() > 0 && chars[0] == '@' {
                self.a_instruction(&lines[i]);
            } else {
                self.c_instruction(&lines[i]);
            }
            i = i + 1;
        }
        assert(ts.take(lines@.len() as int) =~= ts);
        self.line_sources = lines;
    }

    /// Assembles a program: its words, or `None` when it holds an error.
    pub fn compile(source: String) -> (r: Option<Vec<[char; 16]>>)
        requires
            source@.len() < usize::MAX - 32,
        ensures
            match r {
                Some(v) => assemble(source@) == Some(words_of(v@)),
                None => assemble(source@) is None,
            },
    {
        let ghost src = source@;
        proof {
            lemma_split_len(src, '\n');
            lemma_cleaned_len(numbered(split_on(src, '\n')));
            lemma_first_pass_len(start_assembly(), texts(cleaned(numbered(split_on(src, '\n')))));
        }
        let mut simple = Self::new(source);
        simple.remove_whtiespace();
        simple.first_pass();
        simple.hack();
        if simple.had_error {
            None
        } else {
            Some(simple.rom)
        }
    }
}

impl Default for Simple {
    fn default() -> (r: Self)
        ensures
            r.state() == start_assembly(),
            r.line_sources@.len() == 0,
    {
        let r = Simple { rom: Vec::new(), line_sources: Vec::new(), symbol_table: SimpleSymbolTable::new(), had_error: false };
        assert(r.state().symbols =~= predefined_symbols());
        assert(words_of(r.rom@) =~= Seq::<Seq<char>>::empty());
        r
    }
}

} // verus!
