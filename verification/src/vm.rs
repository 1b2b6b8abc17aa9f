//! The virtual machine: a fetch-decode-execute loop over a fixed instruction
//! list, with an operand stack of strings, a counter register, a transient
//! scope, and read-only external variable and array tables.
//!
//! `step_spec` is the machine's definition: one instruction's effect on the
//! abstract state. `trace_n` iterates it; `run` is proved to follow a trace.
//! The program counter and the counter register wrap around at the machine
//! word, as the executable registers do.

use vstd::prelude::*;

use crate::decimal::decimal_of;
use crate::decimal::usize_to_decimal;
use crate::ir::Op;
use crate::ir::OpV;
use crate::ir::is_name_reserved;
use crate::ir::spec_is_reserved;
use crate::seg::concat_range;
use crate::seg::graphemes_of;
use crate::seg::split_graphemes;
use crate::table::assoc;
use crate::table::lemma_assoc_push;
use crate::table::lemma_assoc_suffix_miss;

verus! {

/// A run-time fault, or the internal end-of-program signal that `run`
/// consumes as normal termination. `StepLimit` reports a program that was
/// still running after the run loop's enormous step budget; no program the
/// generator emits can reach it, since a loop body executes at most once per
/// array item.
#[derive(Debug, PartialEq, Eq, Structural, Copy, Clone)]
pub enum VmError {
    EndOfProgram,
    WriteError,
    EmptyStack,
    UndefinedScopeVar,
    ArrayIndexOverflow,
    StepLimit,
}

/// The abstract state of the machine.
#[verifier::ext_equal]
pub ghost struct VmModel {
    pub counter: usize,
    pub pc: usize,
    pub stack: Seq<Seq<char>>,
    pub vars: Map<Seq<char>, Seq<char>>,
    pub scope: Map<Seq<char>, Seq<char>>,
    pub arrays: Map<Seq<char>, Seq<Seq<char>>>,
}

/// Increment that wraps at the machine word, as the registers do.
pub open spec fn wrap_inc(x: usize) -> usize {
    if x == usize::MAX {
        0usize
    } else {
        (x + 1) as usize
    }
}

fn exec_wrap_inc(x: usize) -> (r: usize)
    ensures
        r == wrap_inc(x),
{
    if x == usize::MAX {
        0
    } else {
        x + 1
    }
}

/// Resolving a string variable: reserved names go to the scope and fault when
/// absent; ordinary names go to the external table and default to empty.
pub open spec fn spec_string_var(m: VmModel, name: Seq<char>) -> Result<Seq<char>, VmError> {
    if spec_is_reserved(name) {
        if m.scope.contains_key(name) {
            Ok(m.scope[name])
        } else {
            Err(VmError::UndefinedScopeVar)
        }
    } else {
        if m.vars.contains_key(name) {
            Ok(m.vars[name])
        } else {
            Ok(Seq::empty())
        }
    }
}

/// Resolving an array variable: a missing name is the empty array.
pub open spec fn spec_array_var(m: VmModel, name: Seq<char>) -> Seq<Seq<char>> {
    if m.arrays.contains_key(name) {
        m.arrays[name]
    } else {
        Seq::empty()
    }
}

/// The grapheme-index half-open slice of a value, both bounds clamped to the
/// value's grapheme count; an absent start is 0, an absent end is the count.
/// An empty window yields the empty string, never a fault.
pub open spec fn spec_slice(val: Seq<char>, start: Option<usize>, end: Option<usize>) -> Seq<char> {
    let gs = graphemes_of(val);
    let s0 = match start {
        Some(s) => s as int,
        None => 0,
    };
    let e0 = match end {
        Some(e) => if e as int <= gs.len() { e as int } else { gs.len() as int },
        None => gs.len() as int,
    };
    if s0 < e0 {
        gs.subrange(s0, e0).flatten()
    } else {
        Seq::empty()
    }
}

/// Slices `val` by grapheme index with clamped bounds.
pub fn slice_value(val: &str, start: Option<usize>, end: Option<usize>) -> (r: String)
    ensures
        r@ == spec_slice(val@, start, end),
{
    let gs = split_graphemes(val);
    let glen = gs.len();
    let s0 = match start {
        Some(s) => s,
        None => 0,
    };
    let e0 = match end {
        Some(e) => if e <= glen { e } else { glen },
        None => glen,
    };
    if s0 < e0 {
        concat_range(&gs, s0, e0)
    } else {
        String::new()
    }
}

/// What one step of the machine does to state `m` under `prog`.
pub ghost enum StepRes {
    Next { m: VmModel, out: Seq<char> },
    Halt,
    Fault { e: VmError },
}

/// One fetch-decode-execute step. The program counter advances (wrapping)
/// after every instruction, jumps included, so a jump's encoded target is the
/// address immediately preceding the desired landing instruction.
pub open spec fn step_spec(prog: Seq<OpV>, m: VmModel) -> StepRes {
    if m.pc >= prog.len() {
        StepRes::Halt
    } else {
        match prog[m.pc as int] {
            OpV::PutStr { value } => StepRes::Next {
                m: VmModel { pc: wrap_inc(m.pc), stack: m.stack.push(value), ..m },
                out: Seq::empty(),
            },
            OpV::Flush => StepRes::Next {
                m: VmModel { pc: wrap_inc(m.pc), stack: Seq::empty(), ..m },
                out: m.stack.flatten(),
            },
            OpV::Collapse => StepRes::Next {
                m: VmModel { pc: wrap_inc(m.pc), stack: seq![m.stack.flatten()], ..m },
                out: Seq::empty(),
            },
            OpV::PutName { start, end, name } => match spec_string_var(m, name) {
                Ok(v) => StepRes::Next {
                    m: VmModel {
                        pc: wrap_inc(m.pc),
                        stack: m.stack.push(spec_slice(v, start, end)),
                        ..m
                    },
                    out: Seq::empty(),
                },
                Err(e) => StepRes::Fault { e },
            },
            OpV::SetCounter { value } => StepRes::Next {
                m: VmModel { pc: wrap_inc(m.pc), counter: value, ..m },
                out: Seq::empty(),
            },
            OpV::IncCounter => StepRes::Next {
                m: VmModel { pc: wrap_inc(m.pc), counter: wrap_inc(m.counter), ..m },
                out: Seq::empty(),
            },
            OpV::LoadCounter => StepRes::Next {
                m: VmModel {
                    pc: wrap_inc(m.pc),
                    stack: m.stack.push(decimal_of(m.counter as nat)),
                    ..m
                },
                out: Seq::empty(),
            },
            OpV::CmpCounterLessJmp { op_index, value, name } => {
                let len = spec_array_var(m, name).len() as int;
                let bound = match value {
                    Some(v) => if v as int <= len { v as int } else { len },
                    None => len,
                };
                let pc2 = if (m.counter as int) < bound { op_index } else { m.pc };
                StepRes::Next { m: VmModel { pc: wrap_inc(pc2), ..m }, out: Seq::empty() }
            },
            OpV::CmpArrayEmptyJmp { op_index, start, end, name } => {
                let len = spec_array_var(m, name).len() as int;
                let e0 = match end {
                    Some(e) => if e as int <= len { e as int } else { len },
                    None => len,
                };
                let s0 = match start {
                    Some(s) => s as int,
                    None => 0,
                };
                let pc2 = if s0 >= e0 || e0 == 0 { op_index } else { m.pc };
                StepRes::Next { m: VmModel { pc: wrap_inc(pc2), ..m }, out: Seq::empty() }
            },
            OpV::LoadArrayItem { name } => {
                let arr = spec_array_var(m, name);
                if (m.counter as int) < arr.len() {
                    StepRes::Next {
                        m: VmModel {
                            pc: wrap_inc(m.pc),
                            stack: m.stack.push(arr[m.counter as int]),
                            ..m
                        },
                        out: Seq::empty(),
                    }
                } else {
                    StepRes::Fault { e: VmError::ArrayIndexOverflow }
                }
            },
            OpV::PutScopeVar { name } => {
                if m.stack.len() == 0 {
                    StepRes::Fault { e: VmError::EmptyStack }
                } else {
                    StepRes::Next {
                        m: VmModel {
                            pc: wrap_inc(m.pc),
                            stack: m.stack.drop_last(),
                            scope: m.scope.insert(name, m.stack.last()),
                            ..m
                        },
                        out: Seq::empty(),
                    }
                }
            },
            OpV::DestroyScope => StepRes::Next {
                m: VmModel { pc: wrap_inc(m.pc), scope: Map::empty(), ..m },
                out: Seq::empty(),
            },
        }
    }
}

/// The machine after `n` steps from `s0`: still running, halted, or faulted,
/// together with everything written to the output so far.
pub ghost enum Trace {
    Running { m: VmModel, out: Seq<char> },
    Halted { m: VmModel, out: Seq<char> },
    Faulted { e: VmError, m: VmModel, out: Seq<char> },
}

pub open spec fn trace_n(prog: Seq<OpV>, s0: VmModel, n: nat) -> Trace
    decreases n,
{
    if n == 0 {
        Trace::Running { m: s0, out: Seq::empty() }
    } else {
        match trace_n(prog, s0, (n - 1) as nat) {
            Trace::Running { m, out } => match step_spec(prog, m) {
                StepRes::Next { m: m2, out: o } => Trace::Running { m: m2, out: out + o },
                StepRes::Halt => Trace::Halted { m, out },
                StepRes::Fault { e } => Trace::Faulted { e, m, out },
            },
            t => t,
        }
    }
}

/// The virtual machine. The external tables are fixed at construction; the
/// stack, scope and registers are the run's private mutable state.
#[derive(Debug)]
pub struct Vm {
    counter: usize,
    pc: usize,
    stack: Vec<String>,
    vars: Vec<(String, String)>,
    scope: Vec<(String, String)>,
    arrays: Vec<(String, Vec<String>)>,
}

impl View for Vm {
    type V = VmModel;

    closed spec fn view(&self) -> VmModel {
        VmModel {
            counter: self.counter,
            pc: self.pc,
            stack: self.stack.deep_view(),
            vars: assoc(self.vars.deep_view()),
            scope: assoc(self.scope.deep_view()),
            arrays: assoc(self.arrays.deep_view()),
        }
    }
}

fn lookup_str<'a>(table: &'a Vec<(String, String)>, name: &String) -> (r: Option<&'a String>)
    ensures
        match r {
            Some(v) => assoc(table.deep_view()).contains_key(name@) && v@ == assoc(
                table.deep_view(),
            )[name@],
            None => !assoc(table.deep_view()).contains_key(name@),
        },
{
    let ghost tv = table.deep_view();
    let mut i: usize = table.len();
    while i > 0
        invariant
            i <= table.len(),
            tv == table.deep_view(),
            forall|j: int| i <= j < tv.len() ==> (#[trigger] tv[j]).0 != name@,
        decreases i,
    {
        i -= 1;
        proof {
            assert(tv[i as int] == (table@[i as int].0@, table@[i as int].1@));
        }
        if table[i].0.eq(name) {
            proof {
                lemma_assoc_suffix_miss(tv, i + 1, name@);
                assert(tv.subrange(0, i + 1).last() == tv[i as int]);
                assert(tv.subrange(0, i + 1).drop_last() =~= tv.subrange(0, i as int));
            }
            return Some(&table[i].1);
        }
    }
    proof {
        lemma_assoc_suffix_miss(tv, 0, name@);
        assert(tv.subrange(0, 0) =~= Seq::<(Seq<char>, Seq<char>)>::empty());
    }
    None
}

fn lookup_arr<'a>(table: &'a Vec<(String, Vec<String>)>, name: &String) -> (r: Option<
    &'a Vec<String>,
>)
    ensures
        match r {
            Some(v) => assoc(table.deep_view()).contains_key(name@) && v.deep_view() == assoc(
                table.deep_view(),
            )[name@],
            None => !assoc(table.deep_view()).contains_key(name@),
        },
{
    let ghost tv = table.deep_view();
    let mut i: usize = table.len();
    while i > 0
        invariant
            i <= table.len(),
            tv == table.deep_view(),
            forall|j: int| i <= j < tv.len() ==> (#[trigger] tv[j]).0 != name@,
        decreases i,
    {
        i -= 1;
        proof {
            assert(tv[i as int] == (table@[i as int].0@, table@[i as int].1.deep_view()));
        }
        if table[i].0.eq(name) {
            proof {
                lemma_assoc_suffix_miss(tv, i + 1, name@);
                assert(tv.subrange(0, i + 1).last() == tv[i as int]);
                assert(tv.subrange(0, i + 1).drop_last() =~= tv.subrange(0, i as int));
            }
            return Some(&table[i].1);
        }
    }
    proof {
        lemma_assoc_suffix_miss(tv, 0, name@);
        assert(tv.subrange(0, 0) =~= Seq::<(Seq<char>, Seq<Seq<char>>)>::empty());
    }
    None
}

impl Vm {
    /// A fresh machine over the given external tables. In each table a later
    /// entry for the same name shadows an earlier one.
    pub fn new(vars: Vec<(String, String)>, arrays: Vec<(String, Vec<String>)>) -> (r: Vm)
        ensures
            r@ == (VmModel {
                counter: 0,
                pc: 0,
                stack: Seq::empty(),
                vars: assoc(vars.deep_view()),
                scope: Map::empty(),
                arrays: assoc(arrays.deep_view()),
            }),
    {
        let vm = Vm { counter: 0, pc: 0, stack: Vec::new(), vars, scope: Vec::new(), arrays };
        proof {
            assert(vm.stack.deep_view() =~= Seq::<Seq<char>>::empty());
            assert(vm.scope.deep_view() =~= Seq::<(Seq<char>, Seq<char>)>::empty());
            assert(vm@ =~= (VmModel {
                counter: 0,
                pc: 0,
                stack: Seq::empty(),
                vars: assoc(vm.vars.deep_view()),
                scope: Map::empty(),
                arrays: assoc(vm.arrays.deep_view()),
            }));
        }
        vm
    }

    /// Rewinds the machine for a fresh render: program counter, stack and
    /// scope are reset; the counter register and the tables are kept.
    pub fn clear_state(&mut self)
        ensures
            final(self)@ == (VmModel { pc: 0, stack: Seq::empty(), scope: Map::empty(), ..old(
                self,
            )@ }),
    {
        self.pc = 0;
        self.stack = Vec::new();
        self.scope = Vec::new();
        proof {
            assert(self.stack.deep_view() =~= Seq::<Seq<char>>::empty());
            assert(self.scope.deep_view() =~= Seq::<(Seq<char>, Seq<char>)>::empty());
            assert(self@ =~= (VmModel {
                pc: 0,
                stack: Seq::empty(),
                scope: Map::empty(),
                ..old(self)@
            }));
        }
    }

    fn get_string_var(&self, name: &String) -> (r: Result<String, VmError>)
        ensures
            match (r, spec_string_var(self@, name@)) {
                (Ok(v), Ok(sv)) => v@ == sv,
                (Err(e), Err(se)) => e == se,
                _ => false,
            },
    {
        if is_name_reserved(name.as_str()) {
            match lookup_str(&self.scope, name) {
                Some(v) => Ok(v.clone()),
                None => Err(VmError::UndefinedScopeVar),
            }
        } else {
            match lookup_str(&self.vars, name) {
                Some(v) => Ok(v.clone()),
                None => Ok(String::new()),
            }
        }
    }

    fn get_array_len(&self, name: &String) -> (r: usize)
        ensures
            r == spec_array_var(self@, name@).len(),
    {
        match lookup_arr(&self.arrays, name) {
            Some(v) => v.len(),
            None => 0,
        }
    }

    /// Executes the single instruction at the program counter, appending what
    /// it flushes to `out`. `Err(EndOfProgram)` reports that the counter has
    /// run past the program: the normal termination signal, not a fault. A
    /// fault leaves the machine exactly as it was.
    pub fn step(&mut self, out: &mut String, program: &Vec<Op>) -> (r: Result<(), VmError>)
        ensures
            (match step_spec(program.deep_view(), old(self)@) {
                StepRes::Next { m, out: o } => r == Ok::<(), VmError>(()) && final(self)@ == m
                    && final(out)@ == old(out)@ + o,
                StepRes::Halt => r == Err::<(), VmError>(VmError::EndOfProgram) && final(self)@
                    == old(self)@ && final(out)@ == old(out)@,
                StepRes::Fault { e } => r == Err::<(), VmError>(e) && e != VmError::EndOfProgram
                    && final(self)@ == old(self)@ && final(out)@ == old(out)@,
            }),
    {
        let ghost pre = self@;
        let ghost pv = program.deep_view();
        let ghost out0 = out@;
        if self.pc >= program.len() {
            return Err(VmError::EndOfProgram);
        }
        proof {
            assert(pv[pre.pc as int] == program@[pre.pc as int]@);
        }
        match &program[self.pc] {
            Op::PutStr { value } => {
                self.stack.push(value.clone());
                self.pc = exec_wrap_inc(self.pc);
                proof {
                    assert(self.stack.deep_view() =~= pre.stack.push(value@));
                    assert(self@ =~= (VmModel {
                        pc: wrap_inc(pre.pc),
                        stack: pre.stack.push(value@),
                        ..pre
                    }));
                    assert(out@ =~= out0 + Seq::<char>::empty());
                }
                Ok(())
            },
            Op::Flush => {
                let flushed = concat_range(&self.stack, 0, self.stack.len());
                out.append(flushed.as_str());
                self.stack = Vec::new();
                self.pc = exec_wrap_inc(self.pc);
                proof {
                    assert(pre.stack.subrange(0, pre.stack.len() as int) =~= pre.stack);
                    assert(self.stack.deep_view() =~= Seq::<Seq<char>>::empty());
                    assert(self@ =~= (VmModel {
                        pc: wrap_inc(pre.pc),
                        stack: Seq::empty(),
                        ..pre
                    }));
                }
                Ok(())
            },
            Op::Collapse => {
                let merged = concat_range(&self.stack, 0, self.stack.len());
                self.stack = Vec::new();
                self.stack.push(merged);
                self.pc = exec_wrap_inc(self.pc);
                proof {
                    assert(pre.stack.subrange(0, pre.stack.len() as int) =~= pre.stack);
                    assert(self.stack.deep_view() =~= seq![pre.stack.flatten()]);
                    assert(self@ =~= (VmModel {
                        pc: wrap_inc(pre.pc),
                        stack: seq![pre.stack.flatten()],
                        ..pre
                    }));
                    assert(out@ =~= out0 + Seq::<char>::empty());
                }
                Ok(())
            },
            Op::PutName { start, end, name } => {
                match self.get_string_var(name) {
                    Ok(v) => {
                        let sliced = slice_value(v.as_str(), *start, *end);
                        self.stack.push(sliced);
                        self.pc = exec_wrap_inc(self.pc);
                        proof {
                            let sv = spec_string_var(pre, name@)->Ok_0;
                            assert(self.stack.deep_view() =~= pre.stack.push(
                                spec_slice(sv, *start, *end),
                            ));
                            assert(self@ =~= (VmModel {
                                pc: wrap_inc(pre.pc),
                                stack: pre.stack.push(spec_slice(sv, *start, *end)),
                                ..pre
                            }));
                            assert(out@ =~= out0 + Seq::<char>::empty());
                        }
                        Ok(())
                    },
                    Err(e) => Err(e),
                }
            },
            Op::SetCounter { value } => {
                self.counter = *value;
                self.pc = exec_wrap_inc(self.pc);
                proof {
                    assert(self@ =~= (VmModel { pc: wrap_inc(pre.pc), counter: *value, ..pre }));
                    assert(out@ =~= out0 + Seq::<char>::empty());
                }
                Ok(())
            },
            Op::IncCounter => {
                self.counter = exec_wrap_inc(self.counter);
                self.pc = exec_wrap_inc(self.pc);
                proof {
                    assert(self@ =~= (VmModel {
                        pc: wrap_inc(pre.pc),
                        counter: wrap_inc(pre.counter),
                        ..pre
                    }));
                    assert(out@ =~= out0 + Seq::<char>::empty());
                }
                Ok(())
            },
            Op::LoadCounter => {
                let text = usize_to_decimal(self.counter);
                self.stack.push(text);
                self.pc = exec_wrap_inc(self.pc);
                proof {
                    assert(self.stack.deep_view() =~= pre.stack.push(
                        decimal_of(pre.counter as nat),
                    ));
                    assert(self@ =~= (VmModel {
                        pc: wrap_inc(pre.pc),
                        stack: pre.stack.push(decimal_of(pre.counter as nat)),
                        ..pre
                    }));
                    assert(out@ =~= out0 + Seq::<char>::empty());
                }
                Ok(())
            },
            Op::CmpCounterLessJmp { op_index, value, name } => {
                let len = self.get_array_len(name);
                let bound = match value {
                    Some(v) => if *v <= len {
                        *v
                    } else {
                        len
                    },
                    None => len,
                };
                if self.counter < bound {
                    self.pc = *op_index;
                }
                self.pc = exec_wrap_inc(self.pc);
                proof {
                    assert(self@ =~= (VmModel { pc: self@.pc, ..pre }));
                    assert(out@ =~= out0 + Seq::<char>::empty());
                }
                Ok(())
            },
            Op::CmpArrayEmptyJmp { op_index, start, end, name } => {
                let len = self.get_array_len(name);
                let e0 = match end {
                    Some(e) => if *e <= len {
                        *e
                    } else {
                        len
                    },
                    None => len,
                };
                let s0 = match start {
                    Some(s) => *s,
                    None => 0,
                };
                if s0 >= e0 || e0 == 0 {
                    self.pc = *op_index;
                }
                self.pc = exec_wrap_inc(self.pc);
                proof {
                    assert(self@ =~= (VmModel { pc: self@.pc, ..pre }));
                    assert(out@ =~= out0 + Seq::<char>::empty());
                }
                Ok(())
            },
            Op::LoadArrayItem { name } => {
                match self.get_array_item(name, self.counter) {
                    Some(item) => {
                        self.stack.push(item);
                        self.pc = exec_wrap_inc(self.pc);
                        proof {
                            let arr = spec_array_var(pre, name@);
                            assert(self.stack.deep_view() =~= pre.stack.push(
                                arr[pre.counter as int],
                            ));
                            assert(self@ =~= (VmModel {
                                pc: wrap_inc(pre.pc),
                                stack: pre.stack.push(arr[pre.counter as int]),
                                ..pre
                            }));
                            assert(out@ =~= out0 + Seq::<char>::empty());
                        }
                        Ok(())
                    },
                    None => Err(VmError::ArrayIndexOverflow),
                }
            },
            Op::PutScopeVar { name } => {
                match self.stack.pop() {
                    Some(v) => {
                        self.scope.push((name.clone(), v));
                        self.pc = exec_wrap_inc(self.pc);
                        proof {
                            assert(self.stack.deep_view() =~= pre.stack.drop_last());
                            assert(self.scope.deep_view() =~= old(self).scope.deep_view().push(
                                (name@, pre.stack.last()),
                            ));
                            lemma_assoc_push(old(self).scope.deep_view(), (
                                name@,
                                pre.stack.last(),
                            ));
                            assert(self@ =~= (VmModel {
                                pc: wrap_inc(pre.pc),
                                stack: pre.stack.drop_last(),
                                scope: pre.scope.insert(name@, pre.stack.last()),
                                ..pre
                            }));
                            assert(out@ =~= out0 + Seq::<char>::empty());
                        }
                        Ok(())
                    },
                    None => Err(VmError::EmptyStack),
                }
            },
            Op::DestroyScope => {
                self.scope = Vec::new();
                self.pc = exec_wrap_inc(self.pc);
                proof {
                    assert(self.scope.deep_view() =~= Seq::<(Seq<char>, Seq<char>)>::empty());
                    assert(self@ =~= (VmModel {
                        pc: wrap_inc(pre.pc),
                        scope: Map::empty(),
                        ..pre
                    }));
                    assert(out@ =~= out0 + Seq::<char>::empty());
                }
                Ok(())
            },
        }
    }

    /// Runs the program until the end-of-program signal, which it consumes as
    /// success, or until the first fault, which is fatal to the render. The
    /// rendered text accumulates on `out` exactly as flushed, in order. A
    /// program still running after `u64::MAX` steps is cut off with
    /// `StepLimit`; the state and output written up to that point stand.
    pub fn run(&mut self, out: &mut String, program: &Vec<Op>) -> (r: Result<(), VmError>)
        ensures
            (match r {
                Ok(()) => exists|n: nat|
                    {
                        &&& #[trigger] trace_n(program.deep_view(), old(self)@, n) matches
                            Trace::Halted { m, out: o }
                        &&& final(self)@ == m
                        &&& final(out)@ == old(out)@ + o
                    },
                Err(VmError::StepLimit) => {
                    &&& trace_n(program.deep_view(), old(self)@, u64::MAX as nat) matches
                        Trace::Running { m, out: o }
                    &&& final(self)@ == m
                    &&& final(out)@ == old(out)@ + o
                },
                Err(e) => {
                    &&& e != VmError::EndOfProgram
                    &&& exists|n: nat|
                        {
                            &&& #[trigger] trace_n(program.deep_view(), old(self)@, n) matches
                                Trace::Faulted { e: e2, m, out: o }
                            &&& e2 == e
                            &&& final(self)@ == m
                            &&& final(out)@ == old(out)@ + o
                        }
                },
            }),
    {
        let ghost pv = program.deep_view();
        let ghost s0 = self@;
        let ghost out0 = out@;
        let ghost mut n: nat = 0;
        let mut fuel: u64 = u64::MAX;
        loop
            invariant
                pv == program.deep_view(),
                s0 == old(self)@,
                out0 == old(out)@,
                fuel as nat + n == u64::MAX as nat,
                ({
                    &&& trace_n(pv, s0, n) matches Trace::Running { m, out: acc }
                    &&& self@ == m
                    &&& out@ == out0 + acc
                }),
            decreases fuel,
        {
            if fuel == 0 {
                return Err(VmError::StepLimit);
            }
            fuel = fuel - 1;
            let ghost m_cur = self@;
            let ghost t_cur = trace_n(pv, s0, n);
            match self.step(out, program) {
                Err(VmError::EndOfProgram) => {
                    proof {
                        match t_cur {
                            Trace::Running { m: mr, out: acc } => {
                                assert(trace_n(pv, s0, n + 1) == (Trace::Halted {
                                    m: mr,
                                    out: acc,
                                }));
                            },
                            _ => {
                                assert(false);
                            },
                        }
                    }
                    return Ok(());
                },
                Err(e) => {
                    proof {
                        match t_cur {
                            Trace::Running { m: mr, out: acc } => {
                                assert(trace_n(pv, s0, n + 1) == (Trace::Faulted {
                                    e,
                                    m: mr,
                                    out: acc,
                                }));
                            },
                            _ => {
                                assert(false);
                            },
                        }
                    }
                    return Err(e);
                },
                Ok(()) => {
                    proof {
                        match (t_cur, step_spec(pv, m_cur)) {
                            (
                                Trace::Running { m: mr, out: acc },
                                StepRes::Next { m: m2, out: o },
                            ) => {
                                assert(trace_n(pv, s0, n + 1) == (Trace::Running {
                                    m: m2,
                                    out: acc + o,
                                }));
                                assert(out@ =~= out0 + (acc + o));
                            },
                            _ => {
                                assert(false);
                            },
                        }
                        n = n + 1;
                    }
                },
            }
        }
    }

    fn get_array_item(&self, name: &String, index: usize) -> (r: Option<String>)
        ensures
            match r {
                Some(v) => index < spec_array_var(self@, name@).len() && v@ == spec_array_var(
                    self@,
                    name@,
                )[index as int],
                None => index >= spec_array_var(self@, name@).len(),
            },
    {
        match lookup_arr(&self.arrays, name) {
            Some(v) => if index < v.len() {
                Some(v[index].clone())
            } else {
                None
            },
            None => None,
        }
    }
}

} // verus!
