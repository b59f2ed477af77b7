//! Joins the translated units of a program behind the bootstrap, which sets
//! the stack pointer and calls the entry point `Sys.init`.
use vstd::prelude::*;
use crate::code_gen::{CodeGen, bootstrap_asm, call_asm};
use crate::compiler::{Compiler, CompileError, ErrorKind, translate};
use crate::text::{lines_of, append_lines};

verus! {

/// The lines of all `units`, one after another.
pub open spec fn concat_units(units: Seq<Seq<Seq<char>>>) -> Seq<Seq<char>>
    decreases units.len(),
{
    if units.len() == 0 {
        seq![]
    } else {
        concat_units(units.drop_last()) + units.last()
    }
}

/// The startup sequence: the stack at its base, then a call of `Sys.init`
/// with no arguments.
pub open spec fn startup_asm() -> Seq<Seq<char>> {
    bootstrap_asm() + call_asm("bootstrap"@, "Sys.init"@, 0, 0)
}

/// A whole program from its translated units.
pub open spec fn program(units: Seq<Seq<Seq<char>>>) -> Seq<Seq<char>> {
    startup_asm() + concat_units(units)
}

/// One source unit of a program: its name and its text.
pub struct SourceUnit {
    pub name: String,
    pub text: String,
}

/// The first unit that failed, by its index, with its error.
#[derive(Debug, Clone, Copy, PartialEq, Eq, Structural)]
pub struct UnitError {
    pub unit: usize,
    pub error: CompileError,
}

/// The translation of each unit, while all of them succeed.
pub open spec fn translate_all(units: Seq<(Seq<char>, Seq<char>)>) -> Result<Seq<Seq<Seq<char>>>, (nat, (nat, ErrorKind))>
    decreases units.len(),
{
    if units.len() == 0 {
        Ok(seq![])
    } else {
        match translate_all(units.drop_last()) {
            Err(e) => Err(e),
            Ok(done) => match translate(units.last().0, units.last().1) {
                Err(e) => Err(((units.len() - 1) as nat, e)),
                Ok(lines) => Ok(done.push(lines)),
            },
        }
    }
}

/// What a program's units translate to.
pub open spec fn build(units: Seq<(Seq<char>, Seq<char>)>) -> Result<Seq<Seq<char>>, (nat, (nat, ErrorKind))> {
    match translate_all(units) {
        Err(e) => Err(e),
        Ok(done) => Ok(program(done)),
    }
}

pub open spec fn unit_views(units: Seq<SourceUnit>) -> Seq<(Seq<char>, Seq<char>)> {
    units.map_values(|u: SourceUnit| (u.name@, u.text@))
}

/// Building the same units, in the same order, twice gives the same
/// program, line for line: nothing carries over from one build to the next.
pub proof fn lemma_build_reproducible(a: Seq<SourceUnit>, b: Seq<SourceUnit>)
    requires
        unit_views(a) == unit_views(b),
    ensures
        build(unit_views(a)) == build(unit_views(b)),
{
}

/// The startup sequence.
pub fn startup() -> (r: Vec<String>)
    ensures
        lines_of(r@) == startup_asm(),
{
    let mut out = CodeGen::bootstrap();
    let mut code_gen = CodeGen::new();
    let entry = String::from_str("Sys.init");
    let name = String::from_str("bootstrap");
    append_lines(&mut out, code_gen.call(&name, &entry, 0));
    out
}

/// Joins translated units behind the startup sequence.
pub fn link(units: Vec<Vec<String>>) -> (r: Vec<String>)
    ensures
        lines_of(r@) == program(units@.map_values(|u: Vec<String>| lines_of(u@))),
{
    let ghost views = units@.map_values(|u: Vec<String>| lines_of(u@));
    let mut out = startup();
    let mut units = units;
    let ghost all = units@;
    let n = units.len();
    let mut done: usize = 0;
    assert(views.take(0) =~= Seq::<Seq<Seq<char>>>::empty());
    while units.len() > 0
        invariant
            n == all.len(),
            views == all.map_values(|u: Vec<String>| lines_of(u@)),
            units@.len() + done == n,
            units@ == all.subrange(done as int, n as int),
            lines_of(out@) == program(views.take(done as int)),
        decreases units.len(),
    {
        let u = units.remove(0);
        assert(u == all[done as int]);
        assert(views.take(done + 1).drop_last() =~= views.take(done as int));
        append_lines(&mut out, u);
        done = done + 1;
        assert(units@ =~= all.subrange(done as int, n as int));
        assert(lines_of(out@) =~= program(views.take(done as int)));
    }
    assert(views.take(n as int) =~= views);
    out
}

/// Translates each unit in order and joins them into one program; stops at
/// the first unit that fails.
#[verifier::rlimit(40)]
pub fn translate_program(units: &Vec<SourceUnit>) -> (r: Result<Vec<String>, UnitError>)
    requires
        forall|i: int| 0 <= i < units@.len() ==> (#[trigger] units@[i]).text@.len() < usize::MAX,
    ensures
        r matches Ok(v) ==> build(unit_views(units@)) == Ok::<Seq<Seq<char>>, (nat, (nat, ErrorKind))>(lines_of(v@)),
        r matches Err(e) ==> build(unit_views(units@)) == Err::<Seq<Seq<char>>, (nat, (nat, ErrorKind))>(
            (e.unit as nat, (e.error.line as nat, e.error.kind)),
        ),
{
    let ghost all = unit_views(units@);
    let n = units.len();
    let mut done: Vec<Vec<String>> = Vec::new();
    let mut k: usize = 0;
    assert(all.take(0) =~= Seq::<(Seq<char>, Seq<char>)>::empty());
    assert(done@.map_values(|u: Vec<String>| lines_of(u@)) =~= Seq::<Seq<Seq<char>>>::empty());
    while k < n
        invariant
            n == units@.len(),
            all == unit_views(units@),
            forall|i: int| 0 <= i < units@.len() ==> (#[trigger] units@[i]).text@.len() < usize::MAX,
            k <= n,
            translate_all(all.take(k as int)) == Ok::<Seq<Seq<Seq<char>>>, (nat, (nat, ErrorKind))>(
                done@.map_values(|u: Vec<String>| lines_of(u@)),
            ),
        decreases n - k,
    {
        let u = &units[k];
        let ghost prefix = all.take(k + 1);
        assert(prefix.drop_last() =~= all.take(k as int));
        assert(prefix.last() == (u.name@, u.text@));
        match Compiler::compile_unit(u.text.clone(), u.name.clone()) {
            Ok(lines) => {
                let ghost before = done@;
                done.push(lines);
                assert(done@.map_values(|u: Vec<String>| lines_of(u@)) =~= before.map_values(
                    |u: Vec<String>| lines_of(u@),
                ).push(lines_of(lines@)));
            },
            Err(error) => {
                proof {
                    lemma_failure_persists(all, k as nat + 1);
                }
                return Err(UnitError { unit: k, error });
            },
        }
        k = k + 1;
    }
    assert(all.take(n as int) =~= all);
    Ok(link(done))
}

/// Once a prefix of the units fails, the whole list fails the same way.
proof fn lemma_failure_persists(units: Seq<(Seq<char>, Seq<char>)>, k: nat)
    requires
        k <= units.len(),
        translate_all(units.take(k as int)) is Err,
    ensures
        translate_all(units) == translate_all(units.take(k as int)),
    decreases units.len() - k,
{
    if k < units.len() {
        assert(units.take(k + 1 as int).drop_last() =~= units.take(k as int));
        lemma_failure_persists(units, k + 1);
    } else {
        assert(units.take(k as int) =~= units);
    }
}

} // verus!
