//! The evaluator: the machine state and the functions that run a program
//! on it, each proved to do what `machine` says.

use crate::ast::{Dest, Expr, Instruction, Line, Register, Source, line_views};
use crate::labels::LabelTable;
use crate::machine::{
    Effect, Fault, Machine, Outcome, Place, Status, Stepped, Streams, advance, cell_at, compare,
    dest_place, dest_value, guard_value, load, place_value, reg_value, source_place, source_value,
    spec_branch, spec_execute, spec_run, spec_step, store, with_pop, with_push, with_reg,
};
use vstd::prelude::*;

verus! {

/// The number of memory cells of a fresh machine.
pub const MEM_SIZE: usize = 65536;

/// The state of one run: four registers, the memory, the direction of
/// travel, the program counter and the label table.
#[derive(Debug)]
pub struct Context {
    pub a: usize,
    pub b: usize,
    pub c: usize,
    pub d: usize,
    pub mem: Vec<usize>,
    pub forward: bool,
    pub pc: usize,
    pub labels: LabelTable,
}

impl View for Context {
    type V = Machine;

    open spec fn view(&self) -> Machine {
        Machine {
            a: self.a,
            b: self.b,
            c: self.c,
            d: self.d,
            mem: self.mem@,
            forward: self.forward,
            pc: self.pc,
            labels: self.labels@,
        }
    }
}

impl Context {
    /// A machine at rest: registers and memory zero, travelling forward,
    /// at the first line.
    pub fn new(labels: LabelTable) -> (ctx: Context)
        ensures
            ctx.labels == labels,
            ctx@ == (Machine {
                a: 0,
                b: 0,
                c: 0,
                d: 0,
                mem: Seq::new(MEM_SIZE as nat, |i: int| 0usize),
                forward: true,
                pc: 0,
                labels: labels@,
            }),
    {
        let mem: Vec<usize> = vec![0usize; MEM_SIZE];
        assert(mem@ =~= Seq::new(MEM_SIZE as nat, |i: int| 0usize));
        Context { a: 0, b: 0, c: 0, d: 0, mem, forward: true, pc: 0, labels }
    }
}

/// The input that a run reads from and the output that it writes to.
/// `cursor` counts the input bytes read so far.
#[derive(Debug)]
pub struct Stream {
    pub input: Vec<u8>,
    pub cursor: usize,
    pub output: Vec<u8>,
}

impl View for Stream {
    type V = Streams;

    open spec fn view(&self) -> Streams {
        Streams { input: self.input@, cursor: self.cursor, output: self.output@ }
    }
}

impl Stream {
    /// Streams with `input` still unread and nothing written.
    pub fn new(input: Vec<u8>) -> (io: Stream)
        ensures
            io@ == (Streams { input: input@, cursor: 0, output: Seq::<u8>::empty() }),
    {
        Stream { input, cursor: 0, output: Vec::new() }
    }
}

/// The content of register `reg`.
pub fn get_reg_val(reg: &Register, ctx: &Context) -> (val: usize)
    ensures
        val == reg_value(*reg, ctx@),
{
    match reg {
        Register::A => ctx.a,
        Register::B => ctx.b,
        Register::C => ctx.c,
        Register::D => ctx.d,
    }
}

/// Writes `val` to register `reg`.
pub fn set_reg_val(reg: &Register, val: usize, ctx: &mut Context)
    ensures
        final(ctx)@ == with_reg(*reg, val, old(ctx)@),
        final(ctx).labels == old(ctx).labels,
{
    match reg {
        Register::A => ctx.a = val,
        Register::B => ctx.b = val,
        Register::C => ctx.c = val,
        Register::D => ctx.d = val,
    }
}

/// The content of the memory cell `addr`.
pub fn load_cell(addr: usize, ctx: &Context) -> (r: Result<usize, Fault>)
    ensures
        r == load(addr, ctx@),
{
    if addr < ctx.mem.len() {
        Ok(ctx.mem[addr])
    } else {
        Err(Fault::BadAddress)
    }
}

/// The value of the operand `src`.
pub fn source_to_val(src: &Source, ctx: &Context) -> (r: Result<usize, Fault>)
    ensures
        r == source_value(*src, ctx@),
    decreases *src, 0nat,
{
    match src {
        Source::Reg(reg) => Ok(get_reg_val(reg, ctx)),
        Source::Addr(addr) => load_cell(*addr, ctx),
        Source::Literal(val) => Ok(*val),
        Source::Deref(inner) => deref_source(inner, ctx),
    }
}

/// The content of the cell that the value of `loc` addresses.
pub fn deref_source(loc: &Source, ctx: &Context) -> (r: Result<usize, Fault>)
    ensures
        r == (match source_value(*loc, ctx@) {
            Ok(addr) => load(addr, ctx@),
            Err(f) => Err(f),
        }),
    decreases *loc, 1nat,
{
    match source_to_val(loc, ctx) {
        Ok(addr) => load_cell(addr, ctx),
        Err(f) => Err(f),
    }
}

/// The value that the write target `loc` holds now.
pub fn deref_dest(loc: &Dest, ctx: &Context) -> (r: Result<usize, Fault>)
    ensures
        r == dest_value(*loc, ctx@),
    decreases *loc,
{
    match loc {
        Dest::Reg(reg) => Ok(get_reg_val(reg, ctx)),
        Dest::Addr(addr) => load_cell(*addr, ctx),
        Dest::Deref(inner) => match deref_dest(inner, ctx) {
            Ok(addr) => load_cell(addr, ctx),
            Err(f) => Err(f),
        },
    }
}

/// The memory cell `addr` as a place, if the memory has it.
fn cell_place(addr: usize, ctx: &Context) -> (r: Result<Place, Fault>)
    ensures
        r == cell_at(addr, ctx@),
{
    if addr < ctx.mem.len() {
        Ok(Place::Cell(addr))
    } else {
        Err(Fault::BadAddress)
    }
}

/// The place that the write target `dest` names.
pub fn locate_dest(dest: &Dest, ctx: &Context) -> (r: Result<Place, Fault>)
    ensures
        r == dest_place(*dest, ctx@),
{
    match dest {
        Dest::Reg(reg) => Ok(Place::Reg(*reg)),
        Dest::Addr(addr) => cell_place(*addr, ctx),
        Dest::Deref(inner) => match deref_dest(inner, ctx) {
            Ok(addr) => cell_place(addr, ctx),
            Err(f) => Err(f),
        },
    }
}

/// The place where the value of the operand `src` lives.
pub fn locate_source(src: &Source, ctx: &Context) -> (r: Result<Place, Fault>)
    ensures
        r == source_place(*src, ctx@),
{
    match src {
        Source::Reg(reg) => Ok(Place::Reg(*reg)),
        Source::Addr(addr) => cell_place(*addr, ctx),
        Source::Literal(_) => Err(Fault::LiteralTarget),
        Source::Deref(inner) => match source_to_val(inner, ctx) {
            Ok(addr) => cell_place(addr, ctx),
            Err(f) => Err(f),
        },
    }
}

/// What the place `p` holds.
pub fn read_place(p: Place, ctx: &Context) -> (val: usize)
    requires
        p matches Place::Cell(addr) ==> addr < ctx.mem.len(),
    ensures
        val == place_value(p, ctx@),
{
    match p {
        Place::Reg(reg) => get_reg_val(&reg, ctx),
        Place::Cell(addr) => ctx.mem[addr],
    }
}

/// Writes `val` to the place `p`.
pub fn write_place(p: Place, val: usize, ctx: &mut Context)
    requires
        p matches Place::Cell(addr) ==> addr < old(ctx).mem.len(),
    ensures
        final(ctx)@ == store(p, val, old(ctx)@),
        final(ctx).labels == old(ctx).labels,
{
    match p {
        Place::Reg(reg) => set_reg_val(&reg, val, ctx),
        Place::Cell(addr) => {
            ctx.mem.set(addr, val);
        },
    }
}

/// The truth value of the guard `expr`.
pub fn eval_expr(expr: &Expr, ctx: &Context) -> (r: Result<bool, Fault>)
    ensures
        r == guard_value(*expr, ctx@),
    decreases *expr,
{
    match expr {
        Expr::Backwards => Ok(!ctx.forward),
        Expr::Forwards => Ok(ctx.forward),
        Expr::Or(left, right) => match eval_expr(left, ctx) {
            Ok(true) => Ok(true),
            Ok(false) => eval_expr(right, ctx),
            Err(f) => Err(f),
        },
        Expr::And(left, right) => match eval_expr(left, ctx) {
            Ok(true) => eval_expr(right, ctx),
            Ok(false) => Ok(false),
            Err(f) => Err(f),
        },
        Expr::Gte(left, right) => compare_values(
            eval_expr(left, ctx),
            eval_expr(right, ctx),
            true,
            false,
            true,
        ),
        Expr::Lte(left, right) => compare_values(
            eval_expr(left, ctx),
            eval_expr(right, ctx),
            false,
            true,
            true,
        ),
        Expr::Gt(left, right) => compare_values(
            eval_expr(left, ctx),
            eval_expr(right, ctx),
            true,
            false,
            false,
        ),
        Expr::Lt(left, right) => compare_values(
            eval_expr(left, ctx),
            eval_expr(right, ctx),
            false,
            true,
            false,
        ),
        Expr::Eq(left, right) => compare_values(
            eval_expr(left, ctx),
            eval_expr(right, ctx),
            false,
            false,
            true,
        ),
        Expr::Lit(val) => match source_to_val(val, ctx) {
            Ok(v) => Ok(v != 0),
            Err(f) => Err(f),
        },
    }
}

/// Answers `above`, `below` or `level` by how the truth values of the two
/// sides of a comparison stand to each other.
fn compare_values(
    left: Result<bool, Fault>,
    right: Result<bool, Fault>,
    above: bool,
    below: bool,
    level: bool,
) -> (r: Result<bool, Fault>)
    ensures
        r == compare(left, right, above, below, level),
{
    match left {
        Err(f) => Err(f),
        Ok(x) => match right {
            Err(f) => Err(f),
            Ok(y) => Ok(
                if x == y {
                    level
                } else if x {
                    above
                } else {
                    below
                },
            ),
        },
    }
}

/// Moves the program counter to the line that `label` names, and says
/// whether the table holds the label. An unknown label moves nothing.
pub fn jump_to_label(label: &String, ctx: &mut Context) -> (found: bool)
    ensures
        final(ctx).labels == old(ctx).labels,
        found == old(ctx)@.labels.contains_key(label@),
        final(ctx)@ == (if found {
            Machine { pc: old(ctx)@.labels[label@], ..old(ctx)@ }
        } else {
            old(ctx)@
        }),
{
    match ctx.labels.get(label) {
        Some(lineno) => {
            ctx.pc = lineno;
            true
        },
        None => false,
    }
}

/// What a `jump` or `from` does once its direction is the current one.
fn branch(target: &Option<String>, ctx: &mut Context) -> (r: Result<Effect, Fault>)
    ensures
        final(ctx).labels == old(ctx).labels,
        forall|io: Streams|
            match #[trigger] spec_branch(crate::ast::name_view(*target), old(ctx)@, io) {
                Ok((m, _, effect)) => r == Ok::<Effect, Fault>(effect) && final(ctx)@ == m,
                Err(f) => r == Err::<Effect, Fault>(f) && final(ctx)@ == old(ctx)@,
            },
{
    match target {
        Some(label) => {
            let from = ctx.pc;
            if jump_to_label(label, ctx) {
                Ok(Effect::Call(from))
            } else {
                Err(Fault::UnknownLabel)
            }
        },
        None => Ok(Effect::Return),
    }
}

/// Executes one instruction. A fault leaves the machine and the streams as
/// they were.
pub fn execute_instruction(inst: &Instruction, ctx: &mut Context, io: &mut Stream) -> (r: Result<
    Effect,
    Fault,
>)
    ensures
        final(ctx).labels == old(ctx).labels,
        match spec_execute(inst@, old(ctx)@, old(io)@) {
            Ok((m, s, effect)) => {
                &&& r == Ok::<Effect, Fault>(effect)
                &&& final(ctx)@ == m
                &&& final(io)@ == s
            },
            Err(f) => {
                &&& r == Err::<Effect, Fault>(f)
                &&& final(ctx)@ == old(ctx)@
                &&& final(io)@ == old(io)@
            },
        },
{
    match inst {
        Instruction::Inc(dest, src) => {
            let srcval = match source_to_val(src, ctx) {
                Ok(v) => v,
                Err(f) => return Err(f),
            };
            let place = match locate_dest(dest, ctx) {
                Ok(p) => p,
                Err(f) => return Err(f),
            };
            let destval = read_place(place, ctx);
            let newval = if ctx.forward {
                match destval.checked_add(srcval) {
                    Some(v) => v,
                    None => return Err(Fault::Overflow),
                }
            } else {
                match destval.checked_sub(srcval) {
                    Some(v) => v,
                    None => return Err(Fault::Underflow),
                }
            };
            write_place(place, newval, ctx);
            Ok(Effect::Continue)
        },
        Instruction::Jump(lbl) => {
            if ctx.forward {
                branch(lbl, ctx)
            } else {
                Ok(Effect::Continue)
            }
        },
        Instruction::From(lbl) => {
            if !ctx.forward {
                branch(lbl, ctx)
            } else {
                Ok(Effect::Continue)
            }
        },
        Instruction::Forwards => {
            ctx.forward = true;
            Ok(Effect::Continue)
        },
        Instruction::Backwards => {
            ctx.forward = false;
            Ok(Effect::Continue)
        },
        Instruction::Reverse => {
            ctx.forward = !ctx.forward;
            Ok(Effect::Continue)
        },
        Instruction::Io(src) => {
            if ctx.forward {
                let place = match locate_source(src, ctx) {
                    Ok(p) => p,
                    Err(f) => return Err(f),
                };
                let byte: u8 = if io.cursor < io.input.len() {
                    let b = io.input[io.cursor];
                    io.cursor = io.cursor + 1;
                    b
                } else {
                    0
                };
                write_place(place, byte as usize, ctx);
                Ok(Effect::Continue)
            } else {
                let val = match source_to_val(src, ctx) {
                    Ok(v) => v,
                    Err(f) => return Err(f),
                };
                if val > 255 {
                    return Err(Fault::NotAByte);
                }
                io.output.push(val as u8);
                Ok(Effect::Continue)
            }
        },
        Instruction::Halt => Ok(Effect::Halt),
    }
}

/// Moves the program counter by one in the direction of travel, unless it
/// stands at the edge of a program of `len` lines.
fn advance_pc(len: usize, ctx: &mut Context) -> (status: Status)
    ensures
        final(ctx).labels == old(ctx).labels,
        forall|program: Seq<crate::ast::LineView>, io: Streams|
            program.len() == len ==> #[trigger] advance(program, old(ctx)@, io) == (Stepped {
                program,
                machine: final(ctx)@,
                streams: io,
                status,
            }),
{
    if ctx.forward {
        if ctx.pc >= len || ctx.pc + 1 >= len {
            Status::Finished
        } else {
            ctx.pc = ctx.pc + 1;
            Status::Running
        }
    } else {
        if ctx.pc == 0 || ctx.pc > len {
            Status::Finished
        } else {
            ctx.pc = ctx.pc - 1;
            Status::Running
        }
    }
}

/// One step of a run: fetches the current line, evaluates its guard,
/// executes its instruction where the guard holds, keeps the call stacks,
/// and moves the program counter. A fault leaves everything as it was.
pub fn step(program: &mut Vec<Line>, ctx: &mut Context, io: &mut Stream) -> (r: Result<
    Status,
    Fault,
>)
    ensures
        final(ctx).labels == old(ctx).labels,
        match spec_step(line_views(old(program)@), old(ctx)@, old(io)@) {
            Ok(s) => {
                &&& r == Ok::<Status, Fault>(s.status)
                &&& line_views(final(program)@) == s.program
                &&& final(ctx)@ == s.machine
                &&& final(io)@ == s.streams
            },
            Err(f) => {
                &&& r == Err::<Status, Fault>(f)
                &&& line_views(final(program)@) == line_views(old(program)@)
                &&& final(ctx)@ == old(ctx)@
                &&& final(io)@ == old(io)@
            },
        },
{
    let len = program.len();
    if ctx.pc >= len {
        return Ok(Status::Finished);
    }
    let from = ctx.pc;
    let ghost lines = line_views(program@);
    let open = match &program[from].cond {
        Some(cond) => match eval_expr(cond, ctx) {
            Ok(b) => b,
            Err(f) => return Err(f),
        },
        None => true,
    };
    let effect = if open {
        match execute_instruction(&program[from].inst, ctx, io) {
            Ok(e) => e,
            Err(f) => return Err(f),
        }
    } else {
        Effect::Continue
    };
    match effect {
        Effect::Halt => {
            return Ok(Status::Halted);
        },
        Effect::Continue => {},
        Effect::Call(ret) => {
            let to = ctx.pc;
            if to >= len {
                ctx.pc = from;
                return Err(Fault::BadTarget);
            }
            program[to].stack.push(ret);
            assert(line_views(program@) =~= with_push(lines, to as int, ret));
        },
        Effect::Return => {
            match program[from].stack.pop() {
                Some(pc) => {
                    ctx.pc = pc;
                    assert(line_views(program@) =~= with_pop(lines, from as int));
                },
                None => {
                    assert(line_views(program@) =~= lines);
                },
            }
        },
    }
    Ok(advance_pc(len, ctx))
}

/// Runs the program from the current state for at most `max_steps` steps:
/// until a `halt`, until the program counter stands at the edge of the
/// program in the direction of travel, until a fault, or until the budget
/// is used up. On a fault the state is that in which the faulting step began.
pub fn eval(program: &mut Vec<Line>, ctx: &mut Context, io: &mut Stream, max_steps: usize) -> (outcome:
    Outcome)
    ensures
        final(ctx).labels == old(ctx).labels,
        ({
            let run = spec_run(line_views(old(program)@), old(ctx)@, old(io)@, max_steps as nat);
            &&& outcome == run.outcome
            &&& line_views(final(program)@) == run.program
            &&& final(ctx)@ == run.machine
            &&& final(io)@ == run.streams
        }),
{
    let ghost goal = spec_run(line_views(program@), ctx@, io@, max_steps as nat);
    let ghost labels = ctx.labels;
    let mut left = max_steps;
    while left > 0
        invariant
            ctx.labels == labels,
            labels == old(ctx).labels,
            goal == spec_run(line_views(old(program)@), old(ctx)@, old(io)@, max_steps as nat),
            spec_run(line_views(program@), ctx@, io@, left as nat) == goal,
        decreases left,
    {
        match step(program, ctx, io) {
            Err(f) => {
                return Outcome::Faulted(f);
            },
            Ok(Status::Running) => {
                left = left - 1;
            },
            Ok(Status::Halted) => {
                return Outcome::Halted;
            },
            Ok(Status::Finished) => {
                return Outcome::Finished;
            },
        }
    }
    Outcome::OutOfSteps
}

} // verus!
