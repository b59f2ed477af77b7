//! The assembler's symbol table: predefined registers, instruction labels
//! bound to ROM addresses, and variables bound to RAM cells from 16 upwards.
use vstd::prelude::*;
use crate::text::{join3, text_eq};

verus! {

/// The value bound to `key`: that of its first entry.
pub open spec fn lookup(e: Seq<(Seq<char>, usize)>, key: Seq<char>) -> Option<usize>
    decreases e.len(),
{
    if e.len() == 0 {
        None
    } else if e[0].0 == key {
        Some(e[0].1)
    } else {
        lookup(e.drop_first(), key)
    }
}

/// The symbols every program starts with.
pub open spec fn predefined() -> Seq<(Seq<char>, usize)> {
    seq![
        ("SP"@, 0usize),
        ("LCL"@, 1usize),
        ("ARG"@, 2usize),
        ("THIS"@, 3usize),
        ("THAT"@, 4usize),
        ("R0"@, 0usize),
        ("R1"@, 1usize),
        ("R2"@, 2usize),
        ("R3"@, 3usize),
        ("R4"@, 4usize),
        ("R5"@, 5usize),
        ("R6"@, 6usize),
        ("R7"@, 7usize),
        ("R8"@, 8usize),
        ("R9"@, 9usize),
        ("R10"@, 10usize),
        ("R11"@, 11usize),
        ("R12"@, 12usize),
        ("R13"@, 13usize),
        ("R14"@, 14usize),
        ("R15"@, 15usize),
        ("SCREEN"@, 16384usize),
        ("KBD"@, 24576usize),
    ]
}

/// The first RAM cell given to variables.
pub const FIRST_VARIABLE: usize = 16;

pub proof fn lemma_lookup_push(e: Seq<(Seq<char>, usize)>, k: Seq<char>, v: usize, key: Seq<char>)
    ensures
        lookup(e.push((k, v)), key) == if lookup(e, key) is Some {
            lookup(e, key)
        } else if key == k {
            Some(v)
        } else {
            None
        },
    decreases e.len(),
{
    if e.len() > 0 {
        assert(e.push((k, v))[0] == e[0]);
        assert(e.push((k, v)).drop_first() =~= e.drop_first().push((k, v)));
        lemma_lookup_push(e.drop_first(), k, v, key);
    } else {
        assert(e.push((k, v)).drop_first() =~= Seq::<(Seq<char>, usize)>::empty());
        assert(lookup(Seq::<(Seq<char>, usize)>::empty(), key) is None);
        assert(e.push((k, v))[0] == (k, v));
    }
}

pub struct SimpleSymbolTable {
    table: Vec<(String, usize)>,
    current_memory: usize,
}

impl SimpleSymbolTable {
    pub closed spec fn entries(&self) -> Seq<(Seq<char>, usize)> {
        self.table@.map_values(|e: (String, usize)| (e.0@, e.1))
    }

    /// The value bound to `key`, if any.
    pub open spec fn get(&self, key: Seq<char>) -> Option<usize> {
        lookup(self.entries(), key)
    }

    /// All bound symbols.
    pub open spec fn symbols(&self) -> Map<Seq<char>, usize> {
        Map::new(|k: Seq<char>| self.get(k) is Some, |k: Seq<char>| self.get(k)->0)
    }

    /// The RAM cell the next new variable gets.
    pub closed spec fn next_variable(&self) -> nat {
        self.current_memory as nat
    }

    pub fn new() -> (r: Self)
        ensures
            forall|k: Seq<char>| r.get(k) == lookup(predefined(), k),
            r.next_variable() == FIRST_VARIABLE,
    {
        let names = [
            "SP", "LCL", "ARG", "THIS", "THAT", "R0", "R1", "R2", "R3", "R4", "R5", "R6", "R7",
            "R8", "R9", "R10", "R11", "R12", "R13", "R14", "R15", "SCREEN", "KBD",
        ];
        let values: [usize; 23] = [
            0, 1, 2, 3, 4, 0, 1, 2, 3, 4, 5, 6, 7, 8, 9, 10, 11, 12, 13, 14, 15, 16384, 24576,
        ];
        let ghost p = seq![
            ("SP"@, 0usize),
            ("LCL"@, 1usize),
            ("ARG"@, 2usize),
            ("THIS"@, 3usize),
            ("THAT"@, 4usize),
            ("R0"@, 0usize),
            ("R1"@, 1usize),
            ("R2"@, 2usize),
            ("R3"@, 3usize),
            ("R4"@, 4usize),
            ("R5"@, 5usize),
            ("R6"@, 6usize),
            ("R7"@, 7usize),
            ("R8"@, 8usize),
            ("R9"@, 9usize),
            ("R10"@, 10usize),
            ("R11"@, 11usize),
            ("R12"@, 12usize),
            ("R13"@, 13usize),
            ("R14"@, 14usize),
            ("R15"@, 15usize),
            ("SCREEN"@, 16384usize),
            ("KBD"@, 24576usize),
        ];
        assert(p == predefined());
        assert forall|j: int| 0 <= j < 23 implies (#[trigger] names@[j])@ == p[j].0 && values@[j] == p[j].1 by {}
        let mut table: Vec<(String, usize)> = Vec::new();
        let mut i: usize = 0;
        while i < 23
            invariant
                0 <= i <= 23,
                p.len() == 23,
                forall|j: int| 0 <= j < 23 ==> (#[trigger] names@[j])@ == p[j].0 && values@[j] == p[j].1,
                table@.map_values(|e: (String, usize)| (e.0@, e.1)) == p.take(i as int),
            decreases 23 - i,
        {
            let name = String::from_str(names[i]);
            let ghost before = table@;
            table.push((name, values[i]));
            assert(table@.map_values(|e: (String, usize)| (e.0@, e.1)) =~= before.map_values(
                |e: (String, usize)| (e.0@, e.1),
            ).push(p[i as int]));
            assert(p.take(i + 1) =~= p.take(i as int).push(p[i as int]));
            i = i + 1;
            assert(table@.map_values(|e: (String, usize)| (e.0@, e.1)) =~= p.take(i as int));
        }
        assert(p.take(23) =~= p);
        SimpleSymbolTable { table, current_memory: FIRST_VARIABLE }
    }

    /// The value bound to `label`, looked up from the first entry.
    fn find(&self, label: &String) -> (r: Option<usize>)
        ensures
            r == self.get(label@),
    {
        let n = self.table.len();
        let mut i: usize = 0;
        proof {
            assert(self.entries().skip(0) =~= self.entries());
        }
        while i < n
            invariant
                n == self.table@.len(),
                0 <= i <= n,
                lookup(self.entries(), label@) == lookup(self.entries().skip(i as int), label@),
            decreases n - i,
        {
            assert(self.entries().skip(i as int)[0] == self.entries()[i as int]);
            if text_eq(self.table[i].0.as_str(), label.as_str()) {
                return Some(self.table[i].1);
            }
            assert(self.entries().skip(i as int).drop_first() =~= self.entries().skip(i + 1));
            i = i + 1;
        }
        None
    }

    /// Appends an entry for a key that is not bound yet.
    fn append(&mut self, label: String, value: usize)
        requires
            old(self).get(label@) is None,
        ensures
            forall|k: Seq<char>| #[trigger] final(self).get(k) == if k == label@ {
                Some(value)
            } else {
                old(self).get(k)
            },
            final(self).next_variable() == old(self).next_variable(),
    {
        let ghost key = label@;
        self.table.push((label, value));
        assert(self.entries() =~= old(self).entries().push((key, value)));
        assert forall|k: Seq<char>| #[trigger] self.get(k) == if k == key {
            Some(value)
        } else {
            old(self).get(k)
        } by {
            lemma_lookup_push(old(self).entries(), key, value, k);
        }
    }

    /// Binds an instruction label to a ROM address; a label that is already
    /// bound is refused.
    pub fn insert_instruction_label(&mut self, label: String, value: usize) -> (r: Result<(), String>)
        ensures
            r is Err <==> old(self).get(label@) is Some,
            r is Err ==> *final(self) == *old(self),
            r is Ok ==> forall|k: Seq<char>| #[trigger] final(self).get(k) == if k == label@ {
                Some(value)
            } else {
                old(self).get(k)
            },
            final(self).next_variable() == old(self).next_variable(),
    {
        match self.find(&label) {
            Some(_) => Err(join3("Instruction label, ", label.as_str(), ", already exists")),
            None => {
                self.append(label, value);
                Ok(())
            },
        }
    }

    /// The value of `label`; a new label becomes a variable in the next free
    /// RAM cell.
    pub fn get_or_insert_memory_label(&mut self, label: String) -> (r: usize)
        requires
            old(self).get(label@) is None ==> old(self).next_variable() < usize::MAX,
        ensures
            old(self).get(label@) matches Some(v) ==> r == v && *final(self) == *old(self),
            old(self).get(label@) is None ==> {
                &&& r == old(self).next_variable()
                &&& final(self).next_variable() == old(self).next_variable() + 1
                &&& forall|k: Seq<char>| #[trigger] final(self).get(k) == if k == label@ {
                    Some(r)
                } else {
                    old(self).get(k)
                }
            },
    {
        match self.find(&label) {
            Some(v) => v,
            None => {
                let cell = self.current_memory;
                self.append(label, cell);
                let ghost mid = *self;
                self.current_memory = self.current_memory + 1;
                assert(self.entries() == mid.entries());
                assert forall|k: Seq<char>| #[trigger] self.get(k) == mid.get(k) by {}
                cell
            },
        }
    }
}

impl Default for SimpleSymbolTable {
    fn default() -> (r: Self)
        ensures
            forall|k: Seq<char>| r.get(k) == lookup(predefined(), k),
            r.next_variable() == FIRST_VARIABLE,
    {
        Self::new()
    }
}

} // verus!
