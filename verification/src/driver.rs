//! The session driver: a state machine that walks a parsed script and tells
//! its caller which engine action to perform next.
//!
//! The caller owns the emulation engine. It repeatedly asks [`Executor::next`]
//! for a directive and carries it out; after a loop directive it resumes the
//! engine and reports the halted instruction pointer back through
//! [`Executor::report_halt`], which decides whether the loop body runs again.
//! The engine is never entered from here.

use crate::debugger::Ast;
use crate::debugger::CmdModel;
use crate::debugger::Command;
use crate::debugger::PrintTarget;
use crate::debugger::cmd_model;
use crate::debugger::cmds_model;
use crate::debugger::lemma_cmds_model_push;
use vstd::prelude::*;

verus! {

/// One flat instruction of a compiled script. Loop blocks compile to a
/// `WhileEnter` head, the body, and a `WhileRetry` tail; the jump offsets are
/// relative, so a compiled block is position-independent.
#[derive(PartialEq, Eq, Structural, Debug, Clone, Copy)]
pub enum Op {
    Quit,
    Print(Option<PrintTarget>),
    Run,
    Step,
    Continue,
    SetVerbose(bool),
    SetBreak(u64),
    /// Begin a loop-until-breakpoint block: register the session, resume, and
    /// report the halted instruction pointer. On a halt away from `addr` the
    /// block is skipped: `skip` is the body length, and control moves past
    /// the matching `WhileRetry`.
    WhileEnter { addr: u64, skip: usize },
    /// Re-check a loop block: resume and report the halted instruction
    /// pointer. On a halt at `addr` the body runs again: `back` is the body
    /// length, and control moves back to its first instruction.
    WhileRetry { addr: u64, back: usize },
}

/// The compiled form of one command.
pub open spec fn spec_compile(c: CmdModel) -> Seq<Op>
    decreases c,
{
    match c {
        CmdModel::Quit => seq![Op::Quit],
        CmdModel::Print(t) => seq![Op::Print(t)],
        CmdModel::Run => seq![Op::Run],
        CmdModel::Step => seq![Op::Step],
        CmdModel::Continue => seq![Op::Continue],
        CmdModel::SetVerbose(v) => seq![Op::SetVerbose(v)],
        CmdModel::SetBreak(a) => seq![Op::SetBreak(a)],
        CmdModel::LoopUntilBreak { addr, body } => {
            let b = spec_compile_seq(body);
            seq![Op::WhileEnter { addr, skip: b.len() as usize }] + b + seq![
                Op::WhileRetry { addr, back: b.len() as usize },
            ]
        },
    }
}

/// The compiled form of a command sequence.
pub open spec fn spec_compile_seq(s: Seq<CmdModel>) -> Seq<Op>
    decreases s,
{
    if s.len() == 0 {
        Seq::empty()
    } else {
        spec_compile(s[0]) + spec_compile_seq(s.drop_first())
    }
}

pub proof fn lemma_compile_seq_snoc(s: Seq<CmdModel>, c: CmdModel)
    ensures
        spec_compile_seq(s.push(c)) == spec_compile_seq(s) + spec_compile(c),
    decreases s,
{
    if s.len() == 0 {
        assert(s.push(c).drop_first() =~= Seq::<CmdModel>::empty());
        assert(s.push(c)[0] == c);
        assert(spec_compile_seq(Seq::<CmdModel>::empty()) == Seq::<Op>::empty());
        assert(spec_compile_seq(s.push(c)) =~= spec_compile_seq(s) + spec_compile(c));
    } else {
        lemma_compile_seq_snoc(s.drop_first(), c);
        assert(s.push(c).drop_first() =~= s.drop_first().push(c));
        assert(spec_compile_seq(s.push(c)) =~= spec_compile_seq(s) + spec_compile(c));
    }
}

/// Compile a command sequence onto the end of `out`.
fn compile_into(cmds: &Vec<Command>, out: &mut Vec<Op>)
    ensures
        final(out)@ == old(out)@ + spec_compile_seq(cmds_model(cmds@)),
    decreases cmds@,
{
    let ghost base = out@;
    proof {
        assert(cmds@.take(0) =~= Seq::<Command>::empty());
        assert(cmds_model(Seq::<Command>::empty()) == Seq::<CmdModel>::empty());
        assert(spec_compile_seq(Seq::<CmdModel>::empty()) == Seq::<Op>::empty());
        assert(base + Seq::<Op>::empty() =~= base);
    }
    let n = cmds.len();
    let mut i: usize = 0;
    while i < n
        invariant
            i <= n,
            n == cmds@.len(),
            out@ == base + spec_compile_seq(cmds_model(cmds@.take(i as int))),
        decreases n - i,
    {
        proof {
            assert(cmds@.take(i + 1) =~= cmds@.take(i as int).push(cmds@[i as int]));
            lemma_cmds_model_push(cmds@.take(i as int), cmds@[i as int]);
            lemma_compile_seq_snoc(
                cmds_model(cmds@.take(i as int)),
                cmd_model(cmds@[i as int]),
            );
        }
        let c = &cmds[i];
        match c {
            Command::Quit => {
                out.push(Op::Quit);
            },
            Command::Print(t) => {
                out.push(Op::Print(*t));
            },
            Command::Run => {
                out.push(Op::Run);
            },
            Command::Step => {
                out.push(Op::Step);
            },
            Command::Continue => {
                out.push(Op::Continue);
            },
            Command::SetVerbose(v) => {
                out.push(Op::SetVerbose(*v));
            },
            Command::SetBreak(a) => {
                out.push(Op::SetBreak(*a));
            },
            Command::LoopUntilBreak { addr, body } => {
                proof {
                    assert(decreases_to!(cmds@ => cmds@[i as int]));
                }
                let mut tmp: Vec<Op> = Vec::new();
                compile_into(body, &mut tmp);
                proof {
                    assert(Seq::<Op>::empty() + spec_compile_seq(cmds_model(body@))
                        =~= spec_compile_seq(cmds_model(body@)));
                }
                let l = tmp.len();
                out.push(Op::WhileEnter { addr: *addr, skip: l });
                out.append(&mut tmp);
                out.push(Op::WhileRetry { addr: *addr, back: l });
            },
        }
        proof {
            assert(out@ =~= base + spec_compile_seq(cmds_model(cmds@.take(i + 1))));
        }
        i = i + 1;
    }
    proof {
        assert(cmds@.take(n as int) =~= cmds@);
    }
}

/// What the caller must do next with the session.
#[derive(PartialEq, Eq, Structural, Debug, Clone, Copy)]
pub enum Directive {
    /// The script is finished.
    Done,
    /// End the session now: a quit command, or an execution command after
    /// the program has exited — a no-op that never re-enters the engine.
    Quit,
    /// Print the full register snapshot, or the word at the target.
    DoPrint(Option<PrintTarget>),
    /// Start execution at the current instruction pointer.
    DoRun,
    /// Execute a single instruction.
    DoStep,
    /// Resume execution where the engine was stopped.
    DoContinue,
    /// Switch per-instruction logging on or off.
    DoSetVerbose(bool),
    /// Register a breakpoint at the address.
    DoSetBreak(u64),
    /// Begin a loop block: register a loop session at the address, resume,
    /// and report the halted instruction pointer back.
    LoopEnter(u64),
    /// Re-check a loop block: resume and report the halted instruction
    /// pointer back.
    LoopResume(u64),
}

/// One fetch step of the executor: from the compiled script, the program
/// counter and the engine's exited flag, to the new counter, whether the
/// executor now awaits a halt report, and the directive. A quit command, or
/// any execution command once the program has exited, ends the session.
pub open spec fn spec_next(ops: Seq<Op>, pc: int, exited: bool) -> (int, bool, Directive) {
    if pc < 0 || pc >= ops.len() {
        (pc, false, Directive::Done)
    } else {
        match ops[pc] {
            Op::Quit => (ops.len() as int, false, Directive::Quit),
            Op::Print(t) => (pc + 1, false, Directive::DoPrint(t)),
            Op::Run => if exited {
                (ops.len() as int, false, Directive::Quit)
            } else {
                (pc + 1, false, Directive::DoRun)
            },
            Op::Step => if exited {
                (ops.len() as int, false, Directive::Quit)
            } else {
                (pc + 1, false, Directive::DoStep)
            },
            Op::Continue => if exited {
                (ops.len() as int, false, Directive::Quit)
            } else {
                (pc + 1, false, Directive::DoContinue)
            },
            Op::SetVerbose(v) => (pc + 1, false, Directive::DoSetVerbose(v)),
            Op::SetBreak(a) => (pc + 1, false, Directive::DoSetBreak(a)),
            Op::WhileEnter { addr, .. } => if exited {
                (ops.len() as int, false, Directive::Quit)
            } else {
                (pc, true, Directive::LoopEnter(addr))
            },
            Op::WhileRetry { addr, .. } => if exited {
                (ops.len() as int, false, Directive::Quit)
            } else {
                (pc, true, Directive::LoopResume(addr))
            },
        }
    }
}

/// The dispatch on a reported halt: at a loop head, a halt at the target
/// enters the body, any other halt leaves the block; at a loop tail, a halt
/// at the target re-enters the body, any other halt moves on.
pub open spec fn spec_report(ops: Seq<Op>, pc: int, ip: u64) -> int {
    if pc < 0 || pc >= ops.len() {
        pc
    } else {
        match ops[pc] {
            Op::WhileEnter { addr, skip } => if ip == addr {
                pc + 1
            } else {
                if pc + 2 + skip > ops.len() {
                    ops.len() as int
                } else {
                    pc + 2 + skip
                }
            },
            Op::WhileRetry { addr, back } => if ip == addr {
                if back > pc {
                    0
                } else {
                    pc - back
                }
            } else {
                pc + 1
            },
            _ => pc,
        }
    }
}

/// The shape of a compiled loop block, and its dispatch on a reported halt:
/// the block is a `WhileEnter` head, the body, and a `WhileRetry` tail; at
/// either of the two, a halt at the target address moves to the body's first
/// instruction, and a halt anywhere else moves past the block.
pub proof fn lemma_loop_block_dispatch(addr: u64, body: Seq<CmdModel>)
    requires
        spec_compile_seq(body).len() <= usize::MAX,
    ensures
        ({
            let ops = spec_compile(CmdModel::LoopUntilBreak { addr, body });
            let l = spec_compile_seq(body).len();
            &&& ops.len() == l + 2
            &&& ops[0] == (Op::WhileEnter { addr, skip: l as usize })
            &&& ops[l + 1int] == (Op::WhileRetry { addr, back: l as usize })
            &&& spec_report(ops, 0, addr) == 1
            &&& spec_report(ops, l + 1int, addr) == 1
            &&& forall|ip: u64| ip != addr ==> #[trigger] spec_report(ops, 0, ip) == ops.len()
            &&& forall|ip: u64| ip != addr ==> #[trigger] spec_report(ops, l + 1int, ip)
                == ops.len()
        }),
{
    let ops = spec_compile(CmdModel::LoopUntilBreak { addr, body });
    let b = spec_compile_seq(body);
    let l = b.len();
    assert(ops == seq![Op::WhileEnter { addr, skip: l as usize }] + b + seq![
        Op::WhileRetry { addr, back: l as usize },
    ]);
    assert(ops[0] == (Op::WhileEnter { addr, skip: l as usize }));
    assert(ops[l + 1int] == (Op::WhileRetry { addr, back: l as usize }));
}

/// The script executor: a compiled script, a program counter, and whether a
/// loop directive is waiting for the halted instruction pointer.
pub struct Executor {
    ops: Vec<Op>,
    pc: usize,
    awaiting: bool,
}

impl Executor {
    /// The compiled script.
    pub closed spec fn ops(&self) -> Seq<Op> {
        self.ops@
    }

    /// The current position in the compiled script.
    pub closed spec fn position(&self) -> int {
        self.pc as int
    }

    /// Whether the executor awaits a halt report for a loop directive.
    pub closed spec fn is_awaiting(&self) -> bool {
        self.awaiting
    }

    /// The position never runs past the script's end, and a pending halt
    /// report always refers to a loop head or tail.
    pub open spec fn wf(&self) -> bool {
        &&& self.position() <= self.ops().len()
        &&& self.is_awaiting() ==> self.position() < self.ops().len() && (self.ops()[self.position()] matches Op::WhileEnter { .. } || self.ops()[self.position()] matches Op::WhileRetry { .. })
    }

    /// Compile a parsed script and stand at its first instruction.
    pub fn new(ast: &Ast) -> (r: Executor)
        ensures
            r.ops() == spec_compile_seq(cmds_model(ast.commands@)),
            r.position() == 0,
            !r.is_awaiting(),
            r.wf(),
    {
        let mut ops: Vec<Op> = Vec::new();
        compile_into(&ast.commands, &mut ops);
        proof {
            assert(Seq::<Op>::empty() + spec_compile_seq(cmds_model(ast.commands@))
                =~= spec_compile_seq(cmds_model(ast.commands@)));
        }
        Executor { ops, pc: 0, awaiting: false }
    }

    /// Fetch the next directive; one step of [`spec_next`]. `exited` is the
    /// engine's exited flag: once it is set, an execution command is a no-op
    /// that ends the session instead of re-entering the engine.
    pub fn next(&mut self, exited: bool) -> (d: Directive)
        requires
            old(self).wf(),
            !old(self).is_awaiting(),
        ensures
            final(self).wf(),
            final(self).ops() == old(self).ops(),
            ({
                let st = spec_next(old(self).ops(), old(self).position(), exited);
                &&& final(self).position() == st.0
                &&& final(self).is_awaiting() == st.1
                &&& d == st.2
            }),
    {
        let len = self.ops.len();
        if self.pc >= len {
            return Directive::Done;
        }
        let op = self.ops[self.pc];
        match op {
            Op::Quit => {
                self.pc = len;
                Directive::Quit
            },
            Op::Print(t) => {
                self.pc = self.pc + 1;
                Directive::DoPrint(t)
            },
            Op::Run => {
                if exited {
                    self.pc = len;
                    Directive::Quit
                } else {
                    self.pc = self.pc + 1;
                    Directive::DoRun
                }
            },
            Op::Step => {
                if exited {
                    self.pc = len;
                    Directive::Quit
                } else {
                    self.pc = self.pc + 1;
                    Directive::DoStep
                }
            },
            Op::Continue => {
                if exited {
                    self.pc = len;
                    Directive::Quit
                } else {
                    self.pc = self.pc + 1;
                    Directive::DoContinue
                }
            },
            Op::SetVerbose(v) => {
                self.pc = self.pc + 1;
                Directive::DoSetVerbose(v)
            },
            Op::SetBreak(a) => {
                self.pc = self.pc + 1;
                Directive::DoSetBreak(a)
            },
            Op::WhileEnter { addr, .. } => {
                if exited {
                    self.pc = len;
                    Directive::Quit
                } else {
                    self.awaiting = true;
                    Directive::LoopEnter(addr)
                }
            },
            Op::WhileRetry { addr, .. } => {
                if exited {
                    self.pc = len;
                    Directive::Quit
                } else {
                    self.awaiting = true;
                    Directive::LoopResume(addr)
                }
            },
        }
    }

    /// Report the instruction pointer the engine halted at after a loop
    /// directive; one step of [`spec_report`].
    pub fn report_halt(&mut self, ip: u64)
        requires
            old(self).wf(),
            old(self).is_awaiting(),
        ensures
            final(self).wf(),
            final(self).ops() == old(self).ops(),
            !final(self).is_awaiting(),
            final(self).position() == spec_report(old(self).ops(), old(self).position(), ip),
    {
        let len = self.ops.len();
        let op = self.ops[self.pc];
        self.awaiting = false;
        match op {
            Op::WhileEnter { addr, skip } => {
                if ip == addr {
                    self.pc = self.pc + 1;
                } else {
                    let remaining = len - self.pc;
                    if remaining < 2 {
                        self.pc = len;
                    } else if skip > remaining - 2 {
                        self.pc = len;
                    } else {
                        self.pc = self.pc + 2 + skip;
                    }
                }
            },
            Op::WhileRetry { addr, back } => {
                if ip == addr {
                    if back > self.pc {
                        self.pc = 0;
                    } else {
                        self.pc = self.pc - back;
                    }
                } else {
                    self.pc = self.pc + 1;
                }
            },
            _ => {
                proof {
                    assert(false);
                }
            },
        }
    }
}

} // verus!
