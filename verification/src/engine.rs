//! Per-session machine-facing state: register snapshots, far pointers, the
//! breakpoint registry, the loop session, and the decision logic invoked from
//! the emulation engine's hooks.
//!
//! The emulation engine itself (instruction fetch/decode/execute, register
//! and memory storage, hook dispatch) is an external collaborator. The
//! functions here take plain register and address values and return the
//! decision or action the caller must carry out on the engine.

use crate::program::Program;
use std::collections::HashMap;
use vstd::prelude::*;
use vstd::string::StringSliceAdditionalSpecFns;

verus! {

broadcast use vstd::std_specs::hash::group_hash_axioms;

/// A named 16-bit register of the emulated processor.
#[derive(PartialEq, Eq, Structural, Debug, Clone, Copy)]
pub enum Reg {
    Ax,
    Bx,
    Cx,
    Dx,
    Si,
    Di,
    Sp,
    Bp,
    Ip,
    Cs,
    Ds,
    Es,
    Ss,
    Fs,
    Gs,
}

/// The register a lower-case two-letter name denotes.
pub open spec fn spec_reg_of(name: Seq<u8>) -> Option<Reg> {
    if name == seq![('a' as u8), ('x' as u8)] {
        Some(Reg::Ax)
    } else if name == seq![('b' as u8), ('x' as u8)] {
        Some(Reg::Bx)
    } else if name == seq![('c' as u8), ('x' as u8)] {
        Some(Reg::Cx)
    } else if name == seq![('d' as u8), ('x' as u8)] {
        Some(Reg::Dx)
    } else if name == seq![('s' as u8), ('i' as u8)] {
        Some(Reg::Si)
    } else if name == seq![('d' as u8), ('i' as u8)] {
        Some(Reg::Di)
    } else if name == seq![('s' as u8), ('p' as u8)] {
        Some(Reg::Sp)
    } else if name == seq![('b' as u8), ('p' as u8)] {
        Some(Reg::Bp)
    } else if name == seq![('i' as u8), ('p' as u8)] {
        Some(Reg::Ip)
    } else if name == seq![('c' as u8), ('s' as u8)] {
        Some(Reg::Cs)
    } else if name == seq![('d' as u8), ('s' as u8)] {
        Some(Reg::Ds)
    } else if name == seq![('e' as u8), ('s' as u8)] {
        Some(Reg::Es)
    } else if name == seq![('s' as u8), ('s' as u8)] {
        Some(Reg::Ss)
    } else if name == seq![('f' as u8), ('s' as u8)] {
        Some(Reg::Fs)
    } else if name == seq![('g' as u8), ('s' as u8)] {
        Some(Reg::Gs)
    } else {
        None
    }
}

/// Map a register name, given as bytes, to the register it denotes.
pub fn reg_of_bytes(name: &[u8]) -> (r: Option<Reg>)
    ensures
        r == spec_reg_of(name@),
{
    if name.len() != 2 {
        return None;
    }
    let c0 = name[0];
    let c1 = name[1];
    proof {
        assert(name@ =~= seq![name@[0], name@[1]]);
    }
    if c0 == ('a' as u8) && c1 == ('x' as u8) {
        Some(Reg::Ax)
    } else if c0 == ('b' as u8) && c1 == ('x' as u8) {
        Some(Reg::Bx)
    } else if c0 == ('c' as u8) && c1 == ('x' as u8) {
        Some(Reg::Cx)
    } else if c0 == ('d' as u8) && c1 == ('x' as u8) {
        Some(Reg::Dx)
    } else if c0 == ('s' as u8) && c1 == ('i' as u8) {
        Some(Reg::Si)
    } else if c0 == ('d' as u8) && c1 == ('i' as u8) {
        Some(Reg::Di)
    } else if c0 == ('s' as u8) && c1 == ('p' as u8) {
        Some(Reg::Sp)
    } else if c0 == ('b' as u8) && c1 == ('p' as u8) {
        Some(Reg::Bp)
    } else if c0 == ('i' as u8) && c1 == ('p' as u8) {
        Some(Reg::Ip)
    } else if c0 == ('c' as u8) && c1 == ('s' as u8) {
        Some(Reg::Cs)
    } else if c0 == ('d' as u8) && c1 == ('s' as u8) {
        Some(Reg::Ds)
    } else if c0 == ('e' as u8) && c1 == ('s' as u8) {
        Some(Reg::Es)
    } else if c0 == ('s' as u8) && c1 == ('s' as u8) {
        Some(Reg::Ss)
    } else if c0 == ('f' as u8) && c1 == ('s' as u8) {
        Some(Reg::Fs)
    } else if c0 == ('g' as u8) && c1 == ('s' as u8) {
        Some(Reg::Gs)
    } else {
        None
    }
}

/// A snapshot of the emulated processor's registers. The values are 16-bit
/// quantities, held as `u64` to match the word size the engine trades in.
#[derive(PartialEq, Eq, Structural, Debug, Clone, Copy)]
pub struct Cpu {
    pub ax: u64,
    pub bx: u64,
    pub cx: u64,
    pub dx: u64,
    pub si: u64,
    pub di: u64,
    pub sp: u64,
    pub bp: u64,
    pub ip: u64,
    pub cs: u64,
    pub ds: u64,
    pub es: u64,
    pub ss: u64,
    pub fs: u64,
    pub gs: u64,
}

/// The value a register holds in a snapshot.
pub open spec fn spec_reg_val(cpu: Cpu, r: Reg) -> u64 {
    match r {
        Reg::Ax => cpu.ax,
        Reg::Bx => cpu.bx,
        Reg::Cx => cpu.cx,
        Reg::Dx => cpu.dx,
        Reg::Si => cpu.si,
        Reg::Di => cpu.di,
        Reg::Sp => cpu.sp,
        Reg::Bp => cpu.bp,
        Reg::Ip => cpu.ip,
        Reg::Cs => cpu.cs,
        Reg::Ds => cpu.ds,
        Reg::Es => cpu.es,
        Reg::Ss => cpu.ss,
        Reg::Fs => cpu.fs,
        Reg::Gs => cpu.gs,
    }
}

/// The value the register with the given byte name holds, if the name is known.
pub open spec fn spec_register(cpu: Cpu, name: Seq<u8>) -> Option<u64> {
    match spec_reg_of(name) {
        Some(r) => Some(spec_reg_val(cpu, r)),
        None => None,
    }
}

impl Cpu {
    /// All registers hold 16-bit values.
    pub open spec fn wf(&self) -> bool {
        &&& self.ax <= 0xFFFF
        &&& self.bx <= 0xFFFF
        &&& self.cx <= 0xFFFF
        &&& self.dx <= 0xFFFF
        &&& self.si <= 0xFFFF
        &&& self.di <= 0xFFFF
        &&& self.sp <= 0xFFFF
        &&& self.bp <= 0xFFFF
        &&& self.ip <= 0xFFFF
        &&& self.cs <= 0xFFFF
        &&& self.ds <= 0xFFFF
        &&& self.es <= 0xFFFF
        &&& self.ss <= 0xFFFF
        &&& self.fs <= 0xFFFF
        &&& self.gs <= 0xFFFF
    }

    /// The value a register holds.
    pub fn get(&self, r: Reg) -> (v: u64)
        ensures
            v == spec_reg_val(*self, r),
    {
        match r {
            Reg::Ax => self.ax,
            Reg::Bx => self.bx,
            Reg::Cx => self.cx,
            Reg::Dx => self.dx,
            Reg::Si => self.si,
            Reg::Di => self.di,
            Reg::Sp => self.sp,
            Reg::Bp => self.bp,
            Reg::Ip => self.ip,
            Reg::Cs => self.cs,
            Reg::Ds => self.ds,
            Reg::Es => self.es,
            Reg::Ss => self.ss,
            Reg::Fs => self.fs,
            Reg::Gs => self.gs,
        }
    }

    /// Look a register up by its lower-case name. The name must denote one of
    /// the fifteen registers of the snapshot.
    pub fn register(&self, register: &str) -> (v: u64)
        requires
            spec_register(*self, register.spec_bytes()) is Some,
        ensures
            Some(v) == spec_register(*self, register.spec_bytes()),
    {
        let bytes = register.as_bytes();
        match reg_of_bytes(bytes) {
            Some(r) => self.get(r),
            None => {
                proof {
                    assert(false);
                }
                0
            },
        }
    }
}

/// A real-mode segment:offset pair. Addresses are 16-bit quantities, held as
/// `u64` to match the word size the emulation engine trades in.
#[derive(PartialEq, Eq, Structural, Debug, Clone, Copy)]
pub struct FarPointer {
    pub cs: u64,
    pub ip: u64,
}

/// The linear address a segment:offset pair resolves to.
pub open spec fn spec_linear(segment: u64, offset: u64) -> int {
    segment * 16 + offset
}

impl FarPointer {
    pub fn from_segment_offset(segment: u64, offset: u64) -> (r: FarPointer)
        ensures
            r.cs == segment,
            r.ip == offset,
    {
        FarPointer { cs: segment, ip: offset }
    }

    /// Resolve to a linear address: segment times 16 plus offset.
    pub fn address(&self) -> (r: u64)
        requires
            spec_linear(self.cs, self.ip) <= u64::MAX,
        ensures
            r == spec_linear(self.cs, self.ip),
    {
        self.cs * 16 + self.ip
    }
}

/// The far pointer a 4-byte vector-table slot stores: the low word is the
/// offset, the high word the segment — the same layout the set-vector
/// service writes.
pub fn vector_slot_pointer(value: u32) -> (r: FarPointer)
    ensures
        r.ip == value % 0x10000,
        r.cs == value / 0x10000,
{
    FarPointer { cs: (value / 0x10000) as u64, ip: (value % 0x10000) as u64 }
}

/// A breakpoint: a linear address and the sense bit that decides whether the
/// next visit halts the run. The bit toggles on every visit.
#[derive(PartialEq, Eq, Structural, Debug, Clone, Copy)]
pub struct EngineBreak {
    pub addr: u64,
    /// The sense bit: set while the breakpoint is being crossed after a halt,
    /// so the re-invocation of the hook at the same address does not halt
    /// again.
    pub intr: bool,
}

impl EngineBreak {
    /// A fresh breakpoint halts on its first visit.
    pub fn new(addr: u64) -> (r: EngineBreak)
        ensures
            r == (EngineBreak { addr, intr: false }),
    {
        EngineBreak { addr, intr: false }
    }
}

/// The at-most-one active loop-until-breakpoint session: its target address
/// and whether the target has fired, arming the session for completion.
#[derive(PartialEq, Eq, Structural, Debug, Clone, Copy)]
pub struct LoopSession {
    pub addr: u64,
    pub armed: bool,
}

/// What the per-instruction hook decides for one retired instruction.
#[derive(PartialEq, Eq, Structural, Debug, Clone, Copy)]
pub enum HookAction {
    /// Let the run proceed.
    Proceed,
    /// Halt the run: an armed breakpoint was visited.
    HaltAtBreak,
    /// Halt the run: the loop session reached its natural stop, and was
    /// cleared.
    HaltLoopDone,
}

/// What the interrupt-service shim asks the caller to carry out on the
/// engine after one software interrupt.
#[derive(PartialEq, Eq, Structural, Debug, Clone, Copy)]
pub enum ShimAction {
    /// Store `handler` as the 4-byte little-endian slot at linear address
    /// `slot` of the low-memory vector table.
    SetVector { slot: u64, handler: u32 },
    /// Report the emulated system version: write `al` to the AL register.
    DosVersion { al: u8 },
    /// Report an interrupt vector: read the 4-byte little-endian slot at
    /// linear address `slot` of the low-memory vector table, and return the
    /// stored vector — its offset word to the BX register, its segment word
    /// to the ES register (see [`vector_slot_pointer`]).
    GetVector { slot: u64 },
    /// Read `count` bytes at linear address `addr` and echo them tagged with
    /// the handle — a diagnostic, not a real filesystem.
    ConsoleWrite { handle: u64, addr: u64, count: u64 },
    /// The fixed answer to the supported free-memory queries: write the
    /// values to the BX, ES and DI registers.
    FreeMemory { bx: u64, es: u64, di: u64 },
    /// The program terminated with `code`; halt the run.
    Terminate { code: u8 },
    /// An interrupt number or service selector outside the emulated menu;
    /// fatal, halt the run.
    Unsupported { interrupt: u64, selector: Option<u64> },
}

/// One step of the hook state machine: from the breakpoint registry, the
/// loop session and the address of the instruction about to retire, to the
/// new registry, the new session and the halt decision.
///
/// A visit to a breakpoint halts the run only when its sense bit is clear;
/// every visit, halting or not, flips the bit. When the halted address is the
/// loop session's target, the session is armed; the next visit to an address
/// with no breakpoint then halts the run once more and clears the session.
pub open spec fn spec_hook(
    breaks: Map<u64, EngineBreak>,
    session: Option<LoopSession>,
    addr: u64,
) -> (Map<u64, EngineBreak>, Option<LoopSession>, HookAction) {
    if breaks.contains_key(addr) {
        let b = breaks[addr];
        let flipped = breaks.insert(addr, EngineBreak { addr, intr: !b.intr });
        if !b.intr {
            let armed = match session {
                Some(s) => if s.addr == addr {
                    Some(LoopSession { addr, armed: true })
                } else {
                    session
                },
                None => None,
            };
            (flipped, armed, HookAction::HaltAtBreak)
        } else {
            (flipped, session, HookAction::Proceed)
        }
    } else {
        match session {
            Some(s) => if s.armed {
                (breaks, None, HookAction::HaltLoopDone)
            } else {
                (breaks, session, HookAction::Proceed)
            },
            None => (breaks, session, HookAction::Proceed),
        }
    }
}

/// The action the interrupt-service shim takes for a software interrupt with
/// the given register snapshot. Dispatch is by interrupt number, then by the
/// service selector in the high byte of AX.
pub open spec fn spec_shim(interrupt: u64, cpu: Cpu) -> ShimAction {
    let ah = cpu.ax / 256;
    let al = cpu.ax % 256;
    if interrupt != 0x21 {
        ShimAction::Unsupported { interrupt, selector: None }
    } else if ah == 0x25 {
        ShimAction::SetVector { slot: (al * 4) as u64, handler: (cpu.ds * 16 + cpu.dx) as u32 }
    } else if ah == 0x30 {
        ShimAction::DosVersion { al: 2 }
    } else if ah == 0x35 {
        ShimAction::GetVector { slot: (al * 4) as u64 }
    } else if ah == 0x40 {
        ShimAction::ConsoleWrite { handle: cpu.bx, addr: (cpu.ds * 16 + cpu.dx) as u64, count: cpu.cx }
    } else if ah == 0x4a && (cpu.ax == 0x4a01 || cpu.ax == 0x4a02) {
        ShimAction::FreeMemory { bx: 0, es: 0xFFFF, di: 0xFFFF }
    } else if ah == 0x4c {
        ShimAction::Terminate { code: al as u8 }
    } else {
        ShimAction::Unsupported { interrupt, selector: Some(ah as u64) }
    }
}

/// Whether a shim action ends the process.
pub open spec fn spec_shim_exits(action: ShimAction) -> bool {
    match action {
        ShimAction::Terminate { .. } => true,
        ShimAction::Unsupported { .. } => true,
        _ => false,
    }
}

/// Every breakpoint in a registry is keyed by its own address.
pub open spec fn breaks_wf(m: Map<u64, EngineBreak>) -> bool {
    forall|a: u64| m.contains_key(a) ==> (#[trigger] m[a]).addr == a
}

/// Inserting a breakpoint keyed by its own address keeps a registry
/// well-formed.
proof fn lemma_breaks_wf_insert(m: Map<u64, EngineBreak>, addr: u64, b: EngineBreak)
    requires
        breaks_wf(m),
        b.addr == addr,
    ensures
        breaks_wf(m.insert(addr, b)),
{
    assert forall|a: u64| m.insert(addr, b).contains_key(a) implies (#[trigger] m.insert(
        addr,
        b,
    )[a]).addr == a by {
        if a != addr {
            assert(m.contains_key(a));
            assert(m.insert(addr, b)[a] == m[a]);
        }
    }
}

/// Per-session state alongside the emulation engine: the shared read-only
/// program, the breakpoint registry, the single optional loop session, the
/// exited flag and the verbose flag.
pub struct EngineData {
    program: Program,
    /// address -> breakpoint; at most one per address, a later insert
    /// replaces.
    breaks: HashMap<u64, EngineBreak>,
    while_break: Option<LoopSession>,
    exited: bool,
    verbose: bool,
    exit_code: Option<u8>,
}

impl EngineData {
    /// The breakpoint registry.
    pub closed spec fn breaks(&self) -> Map<u64, EngineBreak> {
        self.breaks@
    }

    /// The active loop session, if one exists.
    pub closed spec fn loop_session(&self) -> Option<LoopSession> {
        self.while_break
    }

    /// Whether the emulated program has exited. Once set it is permanent.
    pub closed spec fn is_exited(&self) -> bool {
        self.exited
    }

    /// Whether each retired instruction is logged.
    pub closed spec fn is_verbose(&self) -> bool {
        self.verbose
    }

    /// The exit code the program terminated with, if it has.
    pub closed spec fn code(&self) -> Option<u8> {
        self.exit_code
    }

    /// The program of the session.
    pub closed spec fn prog(&self) -> Program {
        self.program
    }

    /// Every registered breakpoint is keyed by its own address.
    pub open spec fn wf(&self) -> bool {
        breaks_wf(self.breaks())
    }

    /// Fresh session state: no breakpoints, no loop session, not exited,
    /// not verbose.
    pub fn new(program: Program) -> (r: EngineData)
        ensures
            r.prog() == program,
            r.breaks() == Map::<u64, EngineBreak>::empty(),
            r.loop_session() is None,
            !r.is_exited(),
            !r.is_verbose(),
            r.code() is None,
            r.wf(),
    {
        EngineData {
            program,
            breaks: HashMap::new(),
            while_break: None,
            exited: false,
            verbose: false,
            exit_code: None,
        }
    }

    /// Register a breakpoint at a linear address, replacing any previous one
    /// there. A fresh breakpoint halts on its first visit.
    pub fn add_break(&mut self, addr: u64)
        requires
            old(self).wf(),
        ensures
            final(self).wf(),
            final(self).breaks() == old(self).breaks().insert(addr, EngineBreak { addr, intr: false }),
            final(self).loop_session() == old(self).loop_session(),
            final(self).is_exited() == old(self).is_exited(),
            final(self).is_verbose() == old(self).is_verbose(),
            final(self).code() == old(self).code(),
            final(self).prog() == old(self).prog(),
    {
        self.breaks.insert(addr, EngineBreak::new(addr));
        proof {
            lemma_breaks_wf_insert(old(self).breaks(), addr, EngineBreak { addr, intr: false });
        }
    }

    /// Begin a loop-until-breakpoint session: register a breakpoint at the
    /// target and create the session, not yet armed for completion.
    pub fn add_while_break(&mut self, addr: u64)
        requires
            old(self).wf(),
        ensures
            final(self).wf(),
            final(self).breaks() == old(self).breaks().insert(addr, EngineBreak { addr, intr: false }),
            final(self).loop_session() == Some(LoopSession { addr, armed: false }),
            final(self).is_exited() == old(self).is_exited(),
            final(self).is_verbose() == old(self).is_verbose(),
            final(self).code() == old(self).code(),
            final(self).prog() == old(self).prog(),
    {
        self.breaks.insert(addr, EngineBreak::new(addr));
        self.while_break = Some(LoopSession { addr, armed: false });
        proof {
            lemma_breaks_wf_insert(old(self).breaks(), addr, EngineBreak { addr, intr: false });
        }
    }

    /// The breakpoint registered at an address, if any.
    pub fn get_break(&self, addr: u64) -> (r: Option<&EngineBreak>)
        ensures
            match r {
                Some(b) => self.breaks().contains_key(addr) && *b == self.breaks()[addr],
                None => !self.breaks().contains_key(addr),
            },
    {
        self.breaks.get(&addr)
    }

    /// Whether the emulated program has exited.
    pub fn exited(&self) -> (r: bool)
        ensures
            r == self.is_exited(),
    {
        self.exited
    }

    /// The exit code the program terminated with, if it has.
    pub fn exit_code(&self) -> (r: Option<u8>)
        ensures
            r == self.code(),
    {
        self.exit_code
    }

    /// Whether each retired instruction is logged.
    pub fn verbose(&self) -> (r: bool)
        ensures
            r == self.is_verbose(),
    {
        self.verbose
    }

    /// Switch per-instruction logging on or off. Logging never affects the
    /// halt decisions.
    pub fn set_verbose(&mut self, verbose: bool)
        requires
            old(self).wf(),
        ensures
            final(self).wf(),
            final(self).is_verbose() == verbose,
            final(self).breaks() == old(self).breaks(),
            final(self).loop_session() == old(self).loop_session(),
            final(self).is_exited() == old(self).is_exited(),
            final(self).code() == old(self).code(),
            final(self).prog() == old(self).prog(),
    {
        self.verbose = verbose;
        proof {
            assert(self.breaks() == old(self).breaks());
        }
    }

    /// The trimmed image of the session's program.
    pub fn program_image(&self) -> (r: &Vec<u8>)
        ensures
            r@ == self.prog().image_bytes(),
    {
        self.program.image()
    }

    /// The per-instruction hook decision: one step of [`spec_hook`] on the
    /// session state.
    pub fn on_instruction(&mut self, addr: u64) -> (r: HookAction)
        requires
            old(self).wf(),
        ensures
            final(self).wf(),
            ({
                let step = spec_hook(old(self).breaks(), old(self).loop_session(), addr);
                &&& final(self).breaks() == step.0
                &&& final(self).loop_session() == step.1
                &&& r == step.2
            }),
            final(self).is_exited() == old(self).is_exited(),
            final(self).is_verbose() == old(self).is_verbose(),
            final(self).code() == old(self).code(),
            final(self).prog() == old(self).prog(),
    {
        let existing: Option<EngineBreak> = match self.breaks.get(&addr) {
            Some(b) => Some(*b),
            None => None,
        };
        match existing {
            Some(b) => {
                self.breaks.insert(addr, EngineBreak { addr, intr: !b.intr });
                if !b.intr {
                    match self.while_break {
                        Some(s) => {
                            if s.addr == addr {
                                self.while_break = Some(LoopSession { addr, armed: true });
                            }
                        },
                        None => {},
                    }
                    HookAction::HaltAtBreak
                } else {
                    HookAction::Proceed
                }
            },
            None => {
                let armed = match self.while_break {
                    Some(s) => s.armed,
                    None => false,
                };
                if armed {
                    self.while_break = None;
                    HookAction::HaltLoopDone
                } else {
                    HookAction::Proceed
                }
            },
        }
    }

    /// The interrupt-service shim: emulate one software interrupt against the
    /// session state, returning the action the caller must carry out on the
    /// engine. A terminate service or an unrecognized request sets the
    /// permanent exited flag.
    pub fn on_interrupt(&mut self, interrupt: u64, cpu: &Cpu) -> (r: ShimAction)
        requires
            old(self).wf(),
            cpu.wf(),
        ensures
            final(self).wf(),
            r == spec_shim(interrupt, *cpu),
            final(self).is_exited() == (old(self).is_exited() || spec_shim_exits(r)),
            final(self).code() == (match r {
                ShimAction::Terminate { code } => Some(code),
                _ => old(self).code(),
            }),
            final(self).breaks() == old(self).breaks(),
            final(self).loop_session() == old(self).loop_session(),
            final(self).is_verbose() == old(self).is_verbose(),
            final(self).prog() == old(self).prog(),
    {
        let ah = cpu.ax / 256;
        let al = cpu.ax % 256;
        let r = if interrupt != 0x21 {
            self.exited = true;
            ShimAction::Unsupported { interrupt, selector: None }
        } else if ah == 0x25 {
            ShimAction::SetVector { slot: al * 4, handler: (cpu.ds * 16 + cpu.dx) as u32 }
        } else if ah == 0x30 {
            ShimAction::DosVersion { al: 2 }
        } else if ah == 0x35 {
            ShimAction::GetVector { slot: al * 4 }
        } else if ah == 0x40 {
            ShimAction::ConsoleWrite {
                handle: cpu.bx,
                addr: cpu.ds * 16 + cpu.dx,
                count: cpu.cx,
            }
        } else if ah == 0x4a && (cpu.ax == 0x4a01 || cpu.ax == 0x4a02) {
            ShimAction::FreeMemory { bx: 0, es: 0xFFFF, di: 0xFFFF }
        } else if ah == 0x4c {
            self.exited = true;
            self.exit_code = Some(al as u8);
            ShimAction::Terminate { code: al as u8 }
        } else {
            self.exited = true;
            ShimAction::Unsupported { interrupt, selector: Some(ah) }
        };
        proof {
            assert(self.breaks() == old(self).breaks());
        }
        r
    }
}

/// The breakpoint registry and loop session left after `n` sequential hook
/// invocations, all at `addr`.
pub open spec fn spec_visits(
    breaks: Map<u64, EngineBreak>,
    session: Option<LoopSession>,
    addr: u64,
    n: nat,
) -> (Map<u64, EngineBreak>, Option<LoopSession>)
    decreases n,
{
    if n == 0 {
        (breaks, session)
    } else {
        let prev = spec_visits(breaks, session, addr, (n - 1) as nat);
        let step = spec_hook(prev.0, prev.1, addr);
        (step.0, step.1)
    }
}

/// Whether the `i`-th (1-based) of a run of sequential hook invocations at
/// `addr` halts at the breakpoint there.
pub open spec fn spec_visit_halts(
    breaks: Map<u64, EngineBreak>,
    session: Option<LoopSession>,
    addr: u64,
    i: nat,
) -> bool
    recommends
        1 <= i,
{
    let prev = spec_visits(breaks, session, addr, (i - 1) as nat);
    spec_hook(prev.0, prev.1, addr).2 == HookAction::HaltAtBreak
}

/// After `n` sequential visits to a fresh breakpoint, the breakpoint is still
/// registered and its sense bit records whether `n` is odd.
proof fn lemma_visits_state(
    breaks: Map<u64, EngineBreak>,
    session: Option<LoopSession>,
    addr: u64,
    n: nat,
)
    requires
        breaks.contains_key(addr),
        breaks[addr] == (EngineBreak { addr, intr: false }),
    ensures
        ({
            let st = spec_visits(breaks, session, addr, n);
            &&& st.0.contains_key(addr)
            &&& st.0[addr] == (EngineBreak { addr, intr: n % 2 == 1 })
        }),
    decreases n,
{
    if n > 0 {
        lemma_visits_state(breaks, session, addr, (n - 1) as nat);
    }
}

/// The sense-bit law: for a fresh breakpoint at `addr`, sequential hook
/// invocations at `addr` halt the run on visits 1, 3, 5, … and never on
/// visits 2, 4, 6, …. The first arrival halts; resuming crosses the address
/// without halting; a later genuine re-arrival halts again.
pub proof fn lemma_sense_bit_alternation(
    breaks: Map<u64, EngineBreak>,
    session: Option<LoopSession>,
    addr: u64,
    i: nat,
)
    requires
        breaks.contains_key(addr),
        breaks[addr] == (EngineBreak { addr, intr: false }),
        1 <= i,
    ensures
        spec_visit_halts(breaks, session, addr, i) <==> i % 2 == 1,
{
    lemma_visits_state(breaks, session, addr, (i - 1) as nat);
}

/// The loop-completion law: with a fresh loop session whose target carries a
/// fresh breakpoint, the visit to the target halts the run and arms the
/// session; the next visit to an address with no breakpoint halts the run
/// once more and clears the session; with the session cleared, a further
/// such visit does not halt. A later identical run starts from a new,
/// un-armed session, never from the cleared one.
pub proof fn lemma_loop_completion(
    breaks: Map<u64, EngineBreak>,
    target: u64,
    b: u64,
    c: u64,
)
    requires
        breaks.contains_key(target),
        breaks[target] == (EngineBreak { addr: target, intr: false }),
        !breaks.contains_key(b),
        !breaks.contains_key(c),
    ensures
        ({
            let fire = spec_hook(breaks, Some(LoopSession { addr: target, armed: false }), target);
            let stop = spec_hook(fire.0, fire.1, b);
            let after = spec_hook(stop.0, stop.1, c);
            &&& fire.2 == HookAction::HaltAtBreak
            &&& fire.1 == Some(LoopSession { addr: target, armed: true })
            &&& stop.2 == HookAction::HaltLoopDone
            &&& stop.1 is None
            &&& after.2 == HookAction::Proceed
            &&& after.1 is None
        }),
{
}

/// How many of a run of hook invocations, at the given addresses in order,
/// halt the run.
pub open spec fn spec_halt_count(
    breaks: Map<u64, EngineBreak>,
    session: Option<LoopSession>,
    addrs: Seq<u64>,
) -> nat
    decreases addrs.len(),
{
    if addrs.len() == 0 {
        0
    } else {
        let step = spec_hook(breaks, session, addrs[0]);
        (if step.2 != HookAction::Proceed {
            1nat
        } else {
            0nat
        }) + spec_halt_count(step.0, step.1, addrs.drop_first())
    }
}

/// With no loop session, visits to addresses with no breakpoint change
/// nothing and never halt.
proof fn lemma_no_session_no_halt(breaks: Map<u64, EngineBreak>, addrs: Seq<u64>)
    requires
        forall|i: int| 0 <= i < addrs.len() ==> !breaks.contains_key(#[trigger] addrs[i]),
    ensures
        spec_halt_count(breaks, None, addrs) == 0,
    decreases addrs.len(),
{
    if addrs.len() > 0 {
        assert(!breaks.contains_key(addrs[0]));
        assert(forall|i: int|
            0 <= i < addrs.drop_first().len() ==> #[trigger] addrs.drop_first()[i] == addrs[i + 1]);
        lemma_no_session_no_halt(breaks, addrs.drop_first());
    }
}

/// The loop-termination law: once the session's target has fired and armed
/// it, a run of hook invocations whose addresses never carry a breakpoint —
/// a body that never re-reaches the target — halts exactly once, at its
/// first invocation, and that invocation clears the session.
pub proof fn lemma_loop_halts_exactly_once(
    breaks: Map<u64, EngineBreak>,
    target: u64,
    addrs: Seq<u64>,
)
    requires
        addrs.len() > 0,
        forall|i: int| 0 <= i < addrs.len() ==> !breaks.contains_key(#[trigger] addrs[i]),
    ensures
        spec_halt_count(breaks, Some(LoopSession { addr: target, armed: true }), addrs) == 1,
        spec_hook(breaks, Some(LoopSession { addr: target, armed: true }), addrs[0]).1 is None,
        spec_hook(breaks, Some(LoopSession { addr: target, armed: true }), addrs[0]).2
            == HookAction::HaltLoopDone,
{
    let armed = Some(LoopSession { addr: target, armed: true });
    let step = spec_hook(breaks, armed, addrs[0]);
    assert(!breaks.contains_key(addrs[0]));
    assert(step == (breaks, None::<LoopSession>, HookAction::HaltLoopDone));
    assert(forall|i: int|
        0 <= i < addrs.drop_first().len() ==> #[trigger] addrs.drop_first()[i] == addrs[i + 1]);
    lemma_no_session_no_halt(breaks, addrs.drop_first());
}

/// Where the image and the startup block go in engine memory, and the
/// initial register values, all derived from the program: the image maps at
/// the load segment's linear address, the startup block at the 256 bytes
/// just below it, and the initial CS and SS are relocated by the load
/// segment.
#[derive(PartialEq, Eq, Structural, Debug, Clone, Copy)]
pub struct BootLayout {
    pub load_addr: u64,
    pub psp_addr: u64,
    pub ip: u64,
    pub sp: u64,
    pub cs: u64,
    pub ss: u64,
    pub ds: u64,
    pub es: u64,
}

/// Compute the memory placement and initial register values for a program.
pub fn boot_layout(program: &Program) -> (r: BootLayout)
    requires
        256 <= program.load_segment(),
        program.load_segment() <= 0x0FFF_FFFF_FFFF_FFFF,
    ensures
        r.load_addr == program.load_segment() * 16,
        r.psp_addr == program.load_segment() * 16 - 256,
        r.ip == program.parsed_header().initial_ip,
        r.sp == program.parsed_header().initial_sp,
        r.cs == program.parsed_header().initial_cs + program.load_segment(),
        r.ss == program.parsed_header().initial_ss + program.load_segment(),
        r.ds == program.load_segment() - 256,
        r.es == program.load_segment() - 256,
{
    let start = program.start();
    let header = program.header();
    BootLayout {
        load_addr: start * 16,
        psp_addr: start * 16 - 256,
        ip: header.initial_ip as u64,
        sp: header.initial_sp as u64,
        cs: header.initial_cs as u64 + start,
        ss: header.initial_ss as u64 + start,
        ds: start - 256,
        es: start - 256,
    }
}

} // verus!
