//! The meaning of programs: what each instruction, each step and each run
//! does to the machine, as mathematical functions, and the laws that hold
//! of them.

use crate::ast::{Dest, Expr, InstructionView, LineView, Register, Source};
use vstd::prelude::*;

verus! {

/// A run-time condition that stops a program.
#[derive(Debug, Clone, Copy, PartialEq, Eq, Structural)]
pub enum Fault {
    /// A forward `inc` would exceed the largest value a cell can hold.
    Overflow,
    /// A backward `inc` would go below zero.
    Underflow,
    /// An address lies outside the memory.
    BadAddress,
    /// A forward `io` names an immediate literal as the place to read into.
    LiteralTarget,
    /// A backward `io` was asked to write a value above 255.
    NotAByte,
    /// A `jump` or `from` names a label that the table does not hold.
    UnknownLabel,
    /// A label resolves to an index that is not a line of the program.
    BadTarget,
}

/// What executing one instruction asks of the driver.
#[derive(Debug, Clone, Copy, PartialEq, Eq, Structural)]
pub enum Effect {
    /// Nothing: go on to the next line.
    Continue,
    /// Stop the run.
    Halt,
    /// A labelled jump was taken from the line with this index.
    Call(usize),
    /// A bare jump was taken: return through the stack of the current line.
    Return,
}

/// How a step left the run.
#[derive(Debug, Clone, Copy, PartialEq, Eq, Structural)]
pub enum Status {
    /// The program counter moved on to another line.
    Running,
    /// A `halt` was executed.
    Halted,
    /// The program counter stands at the edge of the program, or outside it.
    Finished,
}

/// How a run ended.
#[derive(Debug, Clone, Copy, PartialEq, Eq, Structural)]
pub enum Outcome {
    Halted,
    Finished,
    /// The step budget ran out first.
    OutOfSteps,
    Faulted(Fault),
}

/// The machine state as a mathematical value.
pub struct Machine {
    pub a: usize,
    pub b: usize,
    pub c: usize,
    pub d: usize,
    pub mem: Seq<usize>,
    pub forward: bool,
    pub pc: usize,
    pub labels: Map<Seq<char>, usize>,
}

/// The two byte streams of a run as mathematical values: `cursor` counts
/// the input bytes read so far.
pub struct Streams {
    pub input: Seq<u8>,
    pub cursor: usize,
    pub output: Seq<u8>,
}

/// Something that holds a value: a register or a memory cell.
#[derive(Debug, Clone, Copy, PartialEq, Eq, Structural)]
pub enum Place {
    Reg(Register),
    Cell(usize),
}

pub open spec fn reg_value(r: Register, m: Machine) -> usize {
    match r {
        Register::A => m.a,
        Register::B => m.b,
        Register::C => m.c,
        Register::D => m.d,
    }
}

pub open spec fn with_reg(r: Register, v: usize, m: Machine) -> Machine {
    match r {
        Register::A => Machine { a: v, ..m },
        Register::B => Machine { b: v, ..m },
        Register::C => Machine { c: v, ..m },
        Register::D => Machine { d: v, ..m },
    }
}

/// The memory cell with address `addr`, if there is one.
pub open spec fn cell_at(addr: usize, m: Machine) -> Result<Place, Fault> {
    if addr < m.mem.len() {
        Ok(Place::Cell(addr))
    } else {
        Err(Fault::BadAddress)
    }
}

/// What `p` holds. A cell outside the memory holds nothing of interest.
pub open spec fn place_value(p: Place, m: Machine) -> usize {
    match p {
        Place::Reg(r) => reg_value(r, m),
        Place::Cell(addr) => m.mem[addr as int],
    }
}

/// The machine after `v` was written to `p`.
pub open spec fn store(p: Place, v: usize, m: Machine) -> Machine {
    match p {
        Place::Reg(r) => with_reg(r, v, m),
        Place::Cell(addr) => Machine { mem: m.mem.update(addr as int, v), ..m },
    }
}

/// What the memory holds at `addr`.
pub open spec fn load(addr: usize, m: Machine) -> Result<usize, Fault> {
    if addr < m.mem.len() {
        Ok(m.mem[addr as int])
    } else {
        Err(Fault::BadAddress)
    }
}

/// The value of an operand: a register's content, a cell's content, the
/// literal itself, or the content of the cell that the inner value addresses.
pub open spec fn source_value(s: Source, m: Machine) -> Result<usize, Fault>
    decreases s,
{
    match s {
        Source::Reg(r) => Ok(reg_value(r, m)),
        Source::Addr(addr) => load(addr, m),
        Source::Literal(v) => Ok(v),
        Source::Deref(inner) => match source_value(*inner, m) {
            Ok(addr) => load(addr, m),
            Err(f) => Err(f),
        },
    }
}

/// Where an operand's value lives. A literal lives nowhere.
pub open spec fn source_place(s: Source, m: Machine) -> Result<Place, Fault> {
    match s {
        Source::Reg(r) => Ok(Place::Reg(r)),
        Source::Addr(addr) => cell_at(addr, m),
        Source::Literal(_) => Err(Fault::LiteralTarget),
        Source::Deref(inner) => match source_value(*inner, m) {
            Ok(addr) => cell_at(addr, m),
            Err(f) => Err(f),
        },
    }
}

/// The value that a write target holds now.
pub open spec fn dest_value(d: Dest, m: Machine) -> Result<usize, Fault>
    decreases d,
{
    match d {
        Dest::Reg(r) => Ok(reg_value(r, m)),
        Dest::Addr(addr) => load(addr, m),
        Dest::Deref(inner) => match dest_value(*inner, m) {
            Ok(addr) => load(addr, m),
            Err(f) => Err(f),
        },
    }
}

/// The place that a write target names.
pub open spec fn dest_place(d: Dest, m: Machine) -> Result<Place, Fault> {
    match d {
        Dest::Reg(r) => Ok(Place::Reg(r)),
        Dest::Addr(addr) => cell_at(addr, m),
        Dest::Deref(inner) => match dest_value(*inner, m) {
            Ok(addr) => cell_at(addr, m),
            Err(f) => Err(f),
        },
    }
}

/// The truth value of a guard. `and` and `or` do not look at their right
/// side when the left side decides; a comparison looks at both sides and
/// compares their truth values, with false below true.
pub open spec fn guard_value(e: Expr, m: Machine) -> Result<bool, Fault>
    decreases e,
{
    match e {
        Expr::Backwards => Ok(!m.forward),
        Expr::Forwards => Ok(m.forward),
        Expr::Or(l, r) => match guard_value(*l, m) {
            Ok(true) => Ok(true),
            Ok(false) => guard_value(*r, m),
            Err(f) => Err(f),
        },
        Expr::And(l, r) => match guard_value(*l, m) {
            Ok(true) => guard_value(*r, m),
            Ok(false) => Ok(false),
            Err(f) => Err(f),
        },
        Expr::Gte(l, r) => compare(guard_value(*l, m), guard_value(*r, m), true, false, true),
        Expr::Lte(l, r) => compare(guard_value(*l, m), guard_value(*r, m), false, true, true),
        Expr::Gt(l, r) => compare(guard_value(*l, m), guard_value(*r, m), true, false, false),
        Expr::Lt(l, r) => compare(guard_value(*l, m), guard_value(*r, m), false, true, false),
        Expr::Eq(l, r) => compare(guard_value(*l, m), guard_value(*r, m), false, false, true),
        Expr::Lit(s) => match source_value(s, m) {
            Ok(v) => Ok(v != 0),
            Err(f) => Err(f),
        },
    }
}

/// The outcome of a comparison of two truth values: `above` is the answer
/// where the left one is true and the right one false, `below` where it is
/// the other way round, `level` where they agree. A fault on the left comes
/// before one on the right.
pub open spec fn compare(
    l: Result<bool, Fault>,
    r: Result<bool, Fault>,
    above: bool,
    below: bool,
    level: bool,
) -> Result<bool, Fault> {
    match (l, r) {
        (Err(f), _) => Err(f),
        (Ok(_), Err(f)) => Err(f),
        (Ok(x), Ok(y)) => Ok(
            if x == y {
                level
            } else if x {
                above
            } else {
                below
            },
        ),
    }
}

/// The byte that a forward `io` reads: the next of the input, or zero when
/// the input is used up.
pub open spec fn next_byte(io: Streams) -> u8 {
    if io.cursor < io.input.len() {
        io.input[io.cursor as int]
    } else {
        0u8
    }
}

/// The streams after one byte was read.
pub open spec fn after_read(io: Streams) -> Streams {
    if io.cursor < io.input.len() {
        Streams { cursor: (io.cursor + 1) as usize, ..io }
    } else {
        io
    }
}

/// What a `jump` or `from` does once its direction is the current one.
pub open spec fn spec_branch(target: Option<Seq<char>>, m: Machine, io: Streams) -> Result<
    (Machine, Streams, Effect),
    Fault,
> {
    match target {
        Some(name) => if m.labels.contains_key(name) {
            Ok((Machine { pc: m.labels[name], ..m }, io, Effect::Call(m.pc)))
        } else {
            Err(Fault::UnknownLabel)
        },
        None => Ok((m, io, Effect::Return)),
    }
}

/// What executing `inst` does to the machine and the streams, and what it
/// asks of the driver. A fault changes nothing.
pub open spec fn spec_execute(inst: InstructionView, m: Machine, io: Streams) -> Result<
    (Machine, Streams, Effect),
    Fault,
> {
    match inst {
        InstructionView::Inc(dest, src) => match source_value(src, m) {
            Err(f) => Err(f),
            Ok(s) => match dest_place(dest, m) {
                Err(f) => Err(f),
                Ok(p) => {
                    let d = place_value(p, m);
                    if m.forward {
                        if d + s > usize::MAX {
                            Err(Fault::Overflow)
                        } else {
                            Ok((store(p, (d + s) as usize, m), io, Effect::Continue))
                        }
                    } else {
                        if d < s {
                            Err(Fault::Underflow)
                        } else {
                            Ok((store(p, (d - s) as usize, m), io, Effect::Continue))
                        }
                    }
                },
            },
        },
        InstructionView::Jump(target) => if m.forward {
            spec_branch(target, m, io)
        } else {
            Ok((m, io, Effect::Continue))
        },
        InstructionView::From(target) => if !m.forward {
            spec_branch(target, m, io)
        } else {
            Ok((m, io, Effect::Continue))
        },
        InstructionView::Forwards => Ok((Machine { forward: true, ..m }, io, Effect::Continue)),
        InstructionView::Backwards => Ok((Machine { forward: false, ..m }, io, Effect::Continue)),
        InstructionView::Reverse => Ok(
            (Machine { forward: !m.forward, ..m }, io, Effect::Continue),
        ),
        InstructionView::Halt => Ok((m, io, Effect::Halt)),
        InstructionView::Io(src) => if m.forward {
            match source_place(src, m) {
                Err(f) => Err(f),
                Ok(p) => Ok((store(p, next_byte(io) as usize, m), after_read(io), Effect::Continue)),
            }
        } else {
            match source_value(src, m) {
                Err(f) => Err(f),
                Ok(v) => if v > 255 {
                    Err(Fault::NotAByte)
                } else {
                    Ok((m, Streams { output: io.output.push(v as u8), ..io }, Effect::Continue))
                },
            }
        },
    }
}

/// A program, a machine and the streams after a step, with how the step
/// left the run.
pub struct Stepped {
    pub program: Seq<LineView>,
    pub machine: Machine,
    pub streams: Streams,
    pub status: Status,
}

/// The program with `ret` pushed on the call stack of line `at`.
pub open spec fn with_push(program: Seq<LineView>, at: int, ret: usize) -> Seq<LineView> {
    program.update(at, LineView { stack: program[at].stack.push(ret), ..program[at] })
}

/// The program with the top of the call stack of line `at` taken off.
pub open spec fn with_pop(program: Seq<LineView>, at: int) -> Seq<LineView> {
    program.update(at, LineView { stack: program[at].stack.drop_last(), ..program[at] })
}

/// Where the run stands once the instruction of the current line is done:
/// at the edge of the program in the direction of travel it is finished,
/// else the program counter moves by one.
pub open spec fn advance(program: Seq<LineView>, m: Machine, io: Streams) -> Stepped {
    if m.forward {
        if m.pc + 1 >= program.len() {
            Stepped { program, machine: m, streams: io, status: Status::Finished }
        } else {
            Stepped {
                program,
                machine: Machine { pc: (m.pc + 1) as usize, ..m },
                streams: io,
                status: Status::Running,
            }
        }
    } else {
        if m.pc == 0 || m.pc > program.len() {
            Stepped { program, machine: m, streams: io, status: Status::Finished }
        } else {
            Stepped {
                program,
                machine: Machine { pc: (m.pc - 1) as usize, ..m },
                streams: io,
                status: Status::Running,
            }
        }
    }
}

/// What the driver does with the effect of an instruction: a call pushes
/// the line it came from on the stack of the line it reached; a return pops
/// the stack of the current line and goes where the popped entry says, or
/// does nothing when that stack is empty; then the program counter advances.
pub open spec fn settle(program: Seq<LineView>, m: Machine, io: Streams, effect: Effect) -> Result<
    Stepped,
    Fault,
> {
    match effect {
        Effect::Halt => Ok(Stepped { program, machine: m, streams: io, status: Status::Halted }),
        Effect::Continue => Ok(advance(program, m, io)),
        Effect::Call(ret) => if m.pc < program.len() {
            Ok(advance(with_push(program, m.pc as int, ret), m, io))
        } else {
            Err(Fault::BadTarget)
        },
        Effect::Return => {
            let stack = program[m.pc as int].stack;
            if stack.len() > 0 {
                Ok(advance(with_pop(program, m.pc as int), Machine { pc: stack.last(), ..m }, io))
            } else {
                Ok(advance(program, m, io))
            }
        },
    }
}

/// Whether a line with this guard executes: one without a guard always does.
pub open spec fn gate(cond: Option<Expr>, m: Machine) -> Result<bool, Fault> {
    match cond {
        Some(e) => guard_value(e, m),
        None => Ok(true),
    }
}

/// One step of a run: fetch the current line, evaluate its guard, execute
/// its instruction where the guard holds, and settle the effect. With the
/// program counter outside the program the run is finished and nothing
/// changes. A fault changes nothing either.
pub open spec fn spec_step(program: Seq<LineView>, m: Machine, io: Streams) -> Result<
    Stepped,
    Fault,
> {
    if m.pc >= program.len() {
        Ok(Stepped { program, machine: m, streams: io, status: Status::Finished })
    } else {
        let line = program[m.pc as int];
        match gate(line.cond, m) {
            Err(f) => Err(f),
            Ok(false) => Ok(advance(program, m, io)),
            Ok(true) => match spec_execute(line.inst, m, io) {
                Err(f) => Err(f),
                Ok((m1, io1, effect)) => settle(program, m1, io1, effect),
            },
        }
    }
}

/// A program, a machine and the streams at the end of a run, with how it
/// ended.
pub struct Run {
    pub program: Seq<LineView>,
    pub machine: Machine,
    pub streams: Streams,
    pub outcome: Outcome,
}

/// A run of at most `budget` steps: it goes on while steps leave it
/// running, and ends with the state that the last step left, or, on a
/// fault, with the state in which the faulting step began.
pub open spec fn spec_run(program: Seq<LineView>, m: Machine, io: Streams, budget: nat) -> Run
    decreases budget,
{
    if budget == 0 {
        Run { program, machine: m, streams: io, outcome: Outcome::OutOfSteps }
    } else {
        match spec_step(program, m, io) {
            Err(f) => Run { program, machine: m, streams: io, outcome: Outcome::Faulted(f) },
            Ok(s) => match s.status {
                Status::Running => spec_run(s.program, s.machine, s.streams, (budget - 1) as nat),
                Status::Halted => Run {
                    program: s.program,
                    machine: s.machine,
                    streams: s.streams,
                    outcome: Outcome::Halted,
                },
                Status::Finished => Run {
                    program: s.program,
                    machine: s.machine,
                    streams: s.streams,
                    outcome: Outcome::Finished,
                },
            },
        }
    }
}

/// Whether two machines hold the same registers and the same memory.
pub open spec fn same_store(m: Machine, n: Machine) -> bool {
    &&& m.a == n.a
    &&& m.b == n.b
    &&& m.c == n.c
    &&& m.d == n.d
    &&& m.mem == n.mem
}

/// An operand's value depends on registers and memory alone.
pub proof fn lemma_source_value_frame(s: Source, m: Machine, n: Machine)
    requires
        same_store(m, n),
    ensures
        source_value(s, m) == source_value(s, n),
        source_place(s, m) == source_place(s, n),
    decreases s,
{
    match s {
        Source::Deref(inner) => {
            lemma_source_value_frame(*inner, m, n);
        },
        _ => {},
    }
}

/// A write target's place and value depend on registers and memory alone.
pub proof fn lemma_dest_frame(d: Dest, m: Machine, n: Machine)
    requires
        same_store(m, n),
    ensures
        dest_value(d, m) == dest_value(d, n),
        dest_place(d, m) == dest_place(d, n),
    decreases d,
{
    match d {
        Dest::Deref(inner) => {
            lemma_dest_frame(*inner, m, n);
        },
        _ => {},
    }
}

/// Reversibility of `inc`: where an `inc` executed forward succeeds, and
/// its write changes neither the value of its operand nor the place that
/// its target names, the same `inc` executed backward right after it
/// succeeds too and restores the machine: the target holds the value it
/// held before the two, and so does everything else.
pub proof fn lemma_inc_reversible(dest: Dest, src: Source, m: Machine, io: Streams)
    requires
        m.forward,
        spec_execute(InstructionView::Inc(dest, src), m, io) matches Ok((m1, _, _))
            && source_value(src, m1) == source_value(src, m) && dest_place(dest, m1) == dest_place(
            dest,
            m,
        ),
    ensures
        spec_execute(InstructionView::Inc(dest, src), m, io) matches Ok((m1, io1, _)) && spec_execute(
            InstructionView::Inc(dest, src),
            Machine { forward: false, ..m1 },
            io1,
        ) == Ok::<(Machine, Streams, Effect), Fault>(
            (Machine { forward: false, ..m }, io, Effect::Continue),
        ),
        dest_place(dest, m) matches Ok(p) && spec_execute(InstructionView::Inc(dest, src), m, io)
            matches Ok((m1, io1, _)) && spec_execute(
            InstructionView::Inc(dest, src),
            Machine { forward: false, ..m1 },
            io1,
        ) matches Ok((m2, _, _)) && place_value(p, m2) == place_value(p, m),
{
    let inst = InstructionView::Inc(dest, src);
    let m1 = spec_execute(inst, m, io)->Ok_0.0;
    let back = Machine { forward: false, ..m1 };
    lemma_source_value_frame(src, m1, back);
    lemma_dest_frame(dest, m1, back);
    let s = source_value(src, m)->Ok_0;
    let p = dest_place(dest, m)->Ok_0;
    let d = place_value(p, m);
    assert(m1 == store(p, (d + s) as usize, m));
    assert(place_value(p, back) == d + s);
    let m2 = store(p, d, back);
    match p {
        Place::Reg(_) => {},
        Place::Cell(addr) => {
            assert(m2.mem =~= m.mem);
        },
    }
    assert(m2 == Machine { forward: false, ..m });
}

/// `reverse` executed twice gives back the direction, and changes nothing
/// else.
pub proof fn lemma_reverse_twice(m: Machine, io: Streams)
    ensures
        spec_execute(InstructionView::Reverse, m, io) matches Ok((m1, io1, _)) && spec_execute(
            InstructionView::Reverse,
            m1,
            io1,
        ) == Ok::<(Machine, Streams, Effect), Fault>((m, io, Effect::Continue)),
{
}

/// `forwards`, then `backwards`, then `reverse`: the machine travels
/// forward, whatever its direction was, and nothing else has changed.
pub proof fn lemma_forwards_backwards_reverse(m: Machine, io: Streams)
    ensures
        spec_execute(InstructionView::Forwards, m, io) matches Ok((m1, io1, _)) && spec_execute(
            InstructionView::Backwards,
            m1,
            io1,
        ) matches Ok((m2, io2, _)) && !m2.forward && spec_execute(
            InstructionView::Reverse,
            m2,
            io2,
        ) == Ok::<(Machine, Streams, Effect), Fault>(
            (Machine { forward: true, ..m }, io, Effect::Continue),
        ),
{
}

/// A line whose guard is false is skipped: the step moves the program
/// counter at most, and leaves registers, memory, direction, call stacks
/// and streams as they were.
pub proof fn lemma_closed_guard_skips(program: Seq<LineView>, m: Machine, io: Streams)
    requires
        m.pc < program.len(),
        gate(program[m.pc as int].cond, m) == Ok::<bool, Fault>(false),
    ensures
        spec_step(program, m, io) matches Ok(s) && s.program == program && s.streams == io
            && s.machine == (Machine { pc: s.machine.pc, ..m }),
{
}

/// A step changes call stacks only: the program keeps its length, and every
/// line keeps its label, its instruction and its guard.
pub proof fn lemma_step_keeps_text(program: Seq<LineView>, m: Machine, io: Streams)
    ensures
        spec_step(program, m, io) matches Ok(s) ==> s.program.len() == program.len() && forall|
            i: int,
        |
            0 <= i < program.len() ==> (#[trigger] s.program[i]).label == program[i].label
                && s.program[i].inst == program[i].inst && s.program[i].cond == program[i].cond,
{
}

/// While a run goes on, the program counter names a line of the program:
/// a step that leaves the run running leaves the counter inside.
pub proof fn lemma_running_stays_inside(program: Seq<LineView>, m: Machine, io: Streams)
    ensures
        spec_step(program, m, io) matches Ok(s) ==> (s.status == Status::Running ==> s.machine.pc
            < s.program.len()),
{
}

/// A fault is the same however often the step is tried: a run that ends in
/// a fault ends with the program, the machine and the streams of the state
/// in which the faulting step began, and stepping from there faults again.
pub proof fn lemma_fault_is_stable(program: Seq<LineView>, m: Machine, io: Streams, budget: nat)
    ensures
        spec_run(program, m, io, budget).outcome matches Outcome::Faulted(f) ==> spec_step(
            spec_run(program, m, io, budget).program,
            spec_run(program, m, io, budget).machine,
            spec_run(program, m, io, budget).streams,
        ) == Err::<Stepped, Fault>(f),
    decreases budget,
{
    if budget > 0 {
        match spec_step(program, m, io) {
            Ok(s) => {
                if s.status == Status::Running {
                    lemma_fault_is_stable(s.program, s.machine, s.streams, (budget - 1) as nat);
                }
            },
            Err(_) => {},
        }
    }
}

} // verus!
