use crate::assemble::Reg;
use crate::error::Error;
use crate::parse::{spec_parse, Parse};
use vstd::prelude::*;

verus! {

/// Evaluation of syntax to a `T`: by the interpreter (to a value) or by the
/// type checker (to a type), each starting from a fresh state.
pub trait Eval<T> {
    /// Whether `r` is what evaluating `self` gives.
    spec fn evaluates_to(&self, r: Result<T, Error>) -> bool;

    fn eval(&self) -> (r: Result<T, Error>)
        ensures
            self.evaluates_to(r),
    ;
}

/// Reads a `T1` from a source text that is in the grammar.
pub fn parse<T1: Parse, T2>(s: &str) -> (r: T1)
    requires
        spec_parse::<T1>(s@) is Some,
    ensures
        r@ == spec_parse::<T1>(s@)->0,
{
    crate::parse::parse::<T1>(s)
}

/// Reads a `T1` from a source text that is in the grammar and evaluates it.
pub fn parse_test<T1: Parse + Eval<T2>, T2>(s: &str) -> (r: Result<T2, Error>)
    requires
        spec_parse::<T1>(s@) is Some,
    ensures
        exists|x: T1| x@ == spec_parse::<T1>(s@)->0 && #[trigger] x.evaluates_to(r),
{
    let bl = crate::parse::parse::<T1>(s);
    let v = bl.eval();
    assert(bl.evaluates_to(v));
    v
}

/// The value of the first entry for `r`, 0 when there is none.
pub open spec fn rf_lookup(regs: Seq<(Reg, i32)>, r: Reg) -> i32
    decreases regs.len(),
{
    if regs.len() == 0 {
        0
    } else if regs[0].0 == r {
        regs[0].1
    } else {
        rf_lookup(regs.skip(1), r)
    }
}

/// Register values read back from a machine after a run.
pub struct TestRF {
    regs: Vec<(Reg, i32)>,
}

impl View for TestRF {
    type V = Seq<(Reg, i32)>;

    closed spec fn view(&self) -> Seq<(Reg, i32)> {
        self.regs@
    }
}

impl TestRF {
    pub fn new(regs: Vec<(Reg, i32)>) -> (rf: TestRF)
        ensures
            rf@ == regs@,
    {
        TestRF { regs }
    }

    /// The value read back for a register (0 when none was); `zero` reads
    /// as `t0`.
    pub fn get(&self, r: Reg) -> (v: i32)
        ensures
            v == rf_lookup(self@, if r == Reg::zero { Reg::t0 } else { r }),
    {
        let key = if r == Reg::zero { Reg::t0 } else { r };
        let ghost m = self@;
        let mut i: usize = 0;
        assert(m.skip(0) =~= m);
        while i < self.regs.len()
            invariant
                m == self@,
                key == (if r == Reg::zero { Reg::t0 } else { r }),
                i <= m.len(),
                rf_lookup(m, key) == rf_lookup(m.skip(i as int), key),
            decreases m.len() - i,
        {
            if self.regs[i].0 == key {
                assert(m.skip(i as int)[0] == m[i as int]);
                return self.regs[i].1;
            }
            assert(m.skip(i as int).skip(1) =~= m.skip(i + 1));
            i = i + 1;
        }
        0
    }
}

/// A machine after a run: its registers and what it printed.
pub struct TestMachine {
    pub rf: TestRF,
    pub output: String,
}

} // verus!
