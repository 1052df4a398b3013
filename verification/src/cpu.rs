//! The executor: the eight-word register file, the execution pointer into
//! array zero, the console byte streams, and the fetch–decode–dispatch loop.
//!
//! The console is part of the machine: input is a byte buffer handed in up
//! front whose exhaustion is end-of-input, and output is a byte buffer the
//! machine appends to. One `step` fetches the word under the execution
//! pointer, advances the pointer, decodes, and executes; `interpret` steps
//! until the machine halts or traps.

use vstd::prelude::*;
use vstd::pervasive::VecAdditionalExecFns;

use crate::isa::{alu, decode_spec, zero_ext, Instruction, OpCode, Trap};
use crate::memory::{zero_seq, MemFault, Memory};

verus! {

/// The virtual machine.
#[derive(Debug)]
pub struct CPU {
    status: bool,
    register_file: Vec<u32>,
    instruction_pointer: usize,
    memory: Memory,
    input: Vec<u8>,
    input_pos: usize,
    output: Vec<u8>,
    steps: u64,
}

impl CPU {
    /// The machine has not executed HALT.
    pub closed spec fn running(self) -> bool {
        self.status
    }

    /// The eight registers.
    pub closed spec fn regs(self) -> Seq<u32> {
        self.register_file@
    }

    /// The execution pointer: the offset into array zero of the next fetch.
    pub closed spec fn ip(self) -> int {
        self.instruction_pointer as int
    }

    /// The memory universe.
    pub closed spec fn mem(self) -> Memory {
        self.memory
    }

    /// The words of array zero: the program being executed.
    pub open spec fn arr0(self) -> Seq<u32> {
        self.mem().arr(0)
    }

    /// The console input not yet consumed.
    pub closed spec fn in_rem(self) -> Seq<u8> {
        self.input@.skip(self.input_pos as int)
    }

    /// The console output written so far.
    pub closed spec fn out(self) -> Seq<u8> {
        self.output@
    }

    /// How many instructions have been executed (attempted fetches included).
    pub closed spec fn steps(self) -> int {
        self.steps as int
    }

    /// The machine's invariant.
    pub closed spec fn wf(self) -> bool {
        &&& self.register_file@.len() == 8
        &&& self.memory.wf()
        &&& self.input_pos <= self.input@.len()
    }
}

/// The console streams are untouched.
pub open spec fn same_console(pre: CPU, post: CPU) -> bool {
    post.out() == pre.out() && post.in_rem() == pre.in_rem()
}

/// Everything but the register file is untouched, with the execution pointer
/// at `retip`. (The step counter is accounted separately.)
pub open spec fn unchanged_but_regs(pre: CPU, post: CPU, retip: int) -> bool {
    &&& post.mem() == pre.mem()
    &&& same_console(pre, post)
    &&& post.ip() == retip
    &&& post.running() == pre.running()
}

/// The whole machine state is untouched, with the execution pointer at
/// `retip`. (The step counter is accounted separately.)
pub open spec fn unchanged(pre: CPU, post: CPU, retip: int) -> bool {
    post.regs() == pre.regs() && unchanged_but_regs(pre, post, retip)
}

/// An arithmetic or logic opcode wrote its result over the pre-state reads.
pub open spec fn alu_post(pre: CPU, post: CPU, inst: Instruction, retip: int) -> bool {
    &&& post.regs() == pre.regs().update(
        inst.r_a as int,
        alu(inst.op_code, pre.regs()[inst.r_b as int], pre.regs()[inst.r_c as int]),
    )
    &&& unchanged_but_regs(pre, post, retip)
}

/// What executing the decoded instruction `inst` in state `pre` does: `post`
/// is the state after, `r` says whether the instruction trapped, and `retip`
/// is where the execution pointer stands unless the instruction assigns it.
/// Reads of registers see the pre-state, so an instruction whose written
/// register is also read is well-defined. A trapping instruction leaves the
/// machine untouched.
pub open spec fn exec_post_at(
    pre: CPU,
    post: CPU,
    inst: Instruction,
    r: Result<(), Trap>,
    retip: int,
) -> bool
    recommends
        pre.wf(),
        inst.wf(),
{
    let a = inst.r_a as int;
    let b = inst.r_b as int;
    let c = inst.r_c as int;
    let va = pre.regs()[a];
    let vb = pre.regs()[b];
    let vc = pre.regs()[c];
    match inst.op_code {
        OpCode::CMOV => {
            &&& r is Ok
            &&& post.regs() == (if vc != 0 {
                pre.regs().update(a, vb)
            } else {
                pre.regs()
            })
            &&& unchanged_but_regs(pre, post, retip)
        },
        OpCode::LOAD => {
            if pre.mem().active(vb) && (vc as int) < pre.mem().arr(vb).len() {
                &&& r is Ok
                &&& post.regs() == pre.regs().update(a, pre.mem().arr(vb)[vc as int])
                &&& unchanged_but_regs(pre, post, retip)
            } else {
                &&& r == Err::<(), Trap>(
                    if !pre.mem().active(vb) {
                        Trap::InactiveArray(OpCode::LOAD)
                    } else {
                        Trap::OffsetOutOfRange(OpCode::LOAD)
                    },
                )
                &&& unchanged(pre, post, retip)
            }
        },
        OpCode::STORE => {
            if pre.mem().active(va) && (vb as int) < pre.mem().arr(va).len() {
                &&& r is Ok
                &&& post.regs() == pre.regs()
                &&& post.mem().arr(va) == pre.mem().arr(va).update(vb as int, vc)
                &&& (forall|o: u32| (#[trigger] post.mem().active(o) <==> pre.mem().active(o)))
                &&& (forall|o: u32|
                    o != va && pre.mem().active(o) ==> #[trigger] post.mem().arr(o)
                        == pre.mem().arr(o))
                &&& post.mem().n_allocated() == pre.mem().n_allocated()
                &&& same_console(pre, post)
                &&& post.ip() == retip
                &&& post.running() == pre.running()
            } else {
                &&& r == Err::<(), Trap>(
                    if !pre.mem().active(va) {
                        Trap::InactiveArray(OpCode::STORE)
                    } else {
                        Trap::OffsetOutOfRange(OpCode::STORE)
                    },
                )
                &&& unchanged(pre, post, retip)
            }
        },
        OpCode::ADD => r is Ok && alu_post(pre, post, inst, retip),
        OpCode::MUL => r is Ok && alu_post(pre, post, inst, retip),
        OpCode::DIV => {
            if vc != 0 {
                r is Ok && alu_post(pre, post, inst, retip)
            } else {
                r == Err::<(), Trap>(Trap::DivisionByZero) && unchanged(pre, post, retip)
            }
        },
        OpCode::NAND => r is Ok && alu_post(pre, post, inst, retip),
        OpCode::HALT => {
            &&& r is Ok
            &&& !post.running()
            &&& post.regs() == pre.regs()
            &&& post.mem() == pre.mem()
            &&& same_console(pre, post)
            &&& post.ip() == retip
        },
        OpCode::ALLOC => {
            match r {
                Ok(()) => {
                    let id = post.regs()[b];
                    &&& id != 0
                    &&& !pre.mem().active(id)
                    &&& post.mem().active(id)
                    &&& post.mem().arr(id) == zero_seq(vc as nat)
                    &&& post.regs() == pre.regs().update(b, id)
                    &&& (forall|o: u32|
                        o != id ==> (#[trigger] post.mem().active(o) <==> pre.mem().active(o)))
                    &&& (forall|o: u32|
                        o != id && pre.mem().active(o) ==> #[trigger] post.mem().arr(o)
                            == pre.mem().arr(o))
                    &&& post.mem().n_allocated() == pre.mem().n_allocated() + 1
                    &&& same_console(pre, post)
                    &&& post.ip() == retip
                    &&& post.running() == pre.running()
                },
                Err(t) => {
                    &&& t == Trap::IdSpaceExhausted
                    &&& unchanged(pre, post, retip)
                    &&& (forall|o: u32| o != 0 ==> pre.mem().active(o))
                },
            }
        },
        OpCode::FREE => {
            if vc != 0 && pre.mem().active(vc) {
                &&& r is Ok
                &&& post.regs() == pre.regs()
                &&& !post.mem().active(vc)
                &&& (forall|o: u32|
                    o != vc ==> (#[trigger] post.mem().active(o) <==> pre.mem().active(o)))
                &&& (forall|o: u32|
                    o != vc && pre.mem().active(o) ==> #[trigger] post.mem().arr(o)
                        == pre.mem().arr(o))
                &&& post.mem().n_allocated() == pre.mem().n_allocated() - 1
                &&& same_console(pre, post)
                &&& post.ip() == retip
                &&& post.running() == pre.running()
            } else {
                &&& r == Err::<(), Trap>(
                    if vc == 0 {
                        Trap::FreeProgramArray
                    } else {
                        Trap::DoubleFree
                    },
                )
                &&& unchanged(pre, post, retip)
            }
        },
        OpCode::OUT => {
            if vc <= 255 {
                &&& r is Ok
                &&& post.out() == pre.out().push(vc as u8)
                &&& post.in_rem() == pre.in_rem()
                &&& post.regs() == pre.regs()
                &&& post.mem() == pre.mem()
                &&& post.ip() == retip
                &&& post.running() == pre.running()
            } else {
                r == Err::<(), Trap>(Trap::OutputOutOfRange) && unchanged(pre, post, retip)
            }
        },
        OpCode::IN => {
            &&& r is Ok
            &&& post.mem() == pre.mem()
            &&& post.out() == pre.out()
            &&& post.ip() == retip
            &&& post.running() == pre.running()
            &&& if pre.in_rem().len() > 0 {
                post.regs() == pre.regs().update(c, zero_ext(pre.in_rem()[0])) && post.in_rem()
                    == pre.in_rem().skip(1)
            } else {
                post.regs() == pre.regs().update(c, 0xFFFF_FFFFu32) && post.in_rem()
                    == pre.in_rem()
            }
        },
        OpCode::CALL => {
            if vb == 0 {
                &&& r is Ok
                &&& post.mem() == pre.mem()
                &&& post.regs() == pre.regs()
                &&& same_console(pre, post)
                &&& post.ip() == vc as int
                &&& post.running() == pre.running()
            } else if pre.mem().active(vb) {
                &&& r is Ok
                &&& post.mem().arr(0) == pre.mem().arr(vb)
                &&& (forall|o: u32| (#[trigger] post.mem().active(o) <==> pre.mem().active(o)))
                &&& (forall|o: u32|
                    o != 0 && pre.mem().active(o) ==> #[trigger] post.mem().arr(o)
                        == pre.mem().arr(o))
                &&& post.mem().n_allocated() == pre.mem().n_allocated()
                &&& post.regs() == pre.regs()
                &&& same_console(pre, post)
                &&& post.ip() == vc as int
                &&& post.running() == pre.running()
            } else {
                r == Err::<(), Trap>(Trap::InactiveArray(OpCode::CALL)) && unchanged(
                    pre,
                    post,
                    retip,
                )
            }
        },
        OpCode::CONST => {
            &&& r is Ok
            &&& post.regs() == pre.regs().update(a, inst.value)
            &&& unchanged_but_regs(pre, post, retip)
        },
    }
}

/// What one whole step does: fetching past the end of array zero is a trap
/// that leaves the machine untouched; a word with an opcode nibble above 0xD
/// is the malformed-instruction trap, with the pointer already advanced; a
/// well-formed word is executed with the pointer advanced past it.
pub open spec fn step_post(pre: CPU, post: CPU, r: Result<(), Trap>) -> bool
    recommends
        pre.wf(),
{
    if pre.ip() >= pre.arr0().len() {
        r == Err::<(), Trap>(Trap::PointerOutOfRange) && unchanged(pre, post, pre.ip())
    } else {
        let w = pre.arr0()[pre.ip()];
        if w >> 28 > 0xD {
            r == Err::<(), Trap>(Trap::MalformedInstruction) && unchanged(pre, post, pre.ip() + 1)
        } else {
            exec_post_at(pre, post, decode_spec(w), r, pre.ip() + 1)
        }
    }
}

/// A completed run: `ts` is the chain of machine states the run passed
/// through, from `start` to `end`, each consecutive pair related by one
/// executed step. Every state on the chain is well formed, every state before
/// the last is still running, and the step counter climbs by one along the
/// chain (stopping at its greatest value), so a step-limit stop entails that
/// 2^64 - 1 minus `start`'s count steps were genuinely executed — it cannot
/// be claimed early. A run returns `Ok` exactly when its last step halted the
/// machine; it returns a trap when its last step trapped; and it stops still
/// running, exceptionally, only at the step bound.
pub open spec fn run_trace(ts: Seq<CPU>, start: CPU, end: CPU, r: Result<(), Trap>) -> bool {
    &&& ts.len() >= 1
    &&& ts[0] == start
    &&& ts[ts.len() - 1] == end
    &&& (forall|i: int| 0 <= i < ts.len() ==> (#[trigger] ts[i]).wf())
    &&& (forall|i: int| 0 <= i < ts.len() - 1 ==> (#[trigger] ts[i]).running())
    &&& (forall|i: int|
        0 <= i < ts.len() - 1 ==> (#[trigger] ts[i + 1]).steps() == (if ts[i].steps()
            < u64::MAX {
            ts[i].steps() + 1
        } else {
            ts[i].steps()
        }))
    &&& if r == Err::<(), Trap>(Trap::StepLimitReached) {
        &&& (forall|i: int|
            0 <= i < ts.len() - 1 ==> #[trigger] step_post(ts[i], ts[i + 1], Ok(())))
        &&& end.running()
        &&& end.steps() == u64::MAX
    } else if r is Ok {
        &&& (forall|i: int|
            0 <= i < ts.len() - 1 ==> #[trigger] step_post(ts[i], ts[i + 1], Ok(())))
        &&& !end.running()
    } else {
        &&& ts.len() >= 2
        &&& (forall|i: int|
            0 <= i < ts.len() - 2 ==> #[trigger] step_post(ts[i], ts[i + 1], Ok(())))
        &&& step_post(ts[ts.len() - 2], end, r)
    }
}

impl CPU {
    /// A fresh machine: running, all registers zero, the execution pointer at
    /// the start of array zero, which holds `program`, no other array active,
    /// and both console streams empty.
    pub fn new(program: Vec<u32>) -> (cpu: CPU)
        ensures
            cpu.wf(),
            cpu.running(),
            cpu.regs() == zero_seq(8),
            cpu.ip() == 0,
            cpu.arr0() == program@,
            forall|id: u32| id != 0 ==> !cpu.mem().active(id),
            cpu.mem().n_allocated() == 0,
            cpu.in_rem() == Seq::<u8>::empty(),
            cpu.out() == Seq::<u8>::empty(),
            cpu.steps() == 0,
    {
        let mut register_file: Vec<u32> = Vec::new();
        let mut i: usize = 0;
        while i < 8
            invariant
                i <= 8,
                register_file@.len() == i as nat,
                forall|k: int| 0 <= k < i ==> register_file@[k] == 0u32,
            decreases 8 - i,
        {
            register_file.push(0);
            i = i + 1;
        }
        proof {
            assert(register_file@ =~= zero_seq(8));
        }
        let cpu = CPU {
            status: true,
            register_file,
            instruction_pointer: 0,
            memory: Memory::new(program),
            input: Vec::new(),
            input_pos: 0,
            output: Vec::new(),
            steps: 0,
        };
        proof {
            assert(cpu.in_rem() =~= Seq::<u8>::empty());
        }
        cpu
    }

    /// Replaces the console input with `bytes`, none of it consumed yet.
    pub fn set_input(&mut self, bytes: Vec<u8>)
        requires
            old(self).wf(),
        ensures
            final(self).wf(),
            final(self).in_rem() == bytes@,
            final(self).regs() == old(self).regs(),
            final(self).mem() == old(self).mem(),
            final(self).out() == old(self).out(),
            final(self).ip() == old(self).ip(),
            final(self).running() == old(self).running(),
            final(self).steps() == old(self).steps(),
    {
        self.input = bytes;
        self.input_pos = 0;
        proof {
            assert(self.in_rem() =~= self.input@);
        }
    }

    /// The value of register `i`.
    pub fn register(&self, i: usize) -> (r: u32)
        requires
            self.wf(),
            i < 8,
        ensures
            r == self.regs()[i as int],
    {
        self.register_file[i]
    }

    /// Writes `v` to register `i`.
    pub fn set_register(&mut self, i: usize, v: u32)
        requires
            old(self).wf(),
            i < 8,
        ensures
            final(self).wf(),
            final(self).regs() == old(self).regs().update(i as int, v),
            final(self).mem() == old(self).mem(),
            same_console(*old(self), *final(self)),
            final(self).ip() == old(self).ip(),
            final(self).running() == old(self).running(),
            final(self).steps() == old(self).steps(),
    {
        self.register_file.set(i, v);
    }

    /// The execution pointer.
    pub fn instruction_pointer(&self) -> (r: usize)
        ensures
            r == self.ip(),
    {
        self.instruction_pointer
    }

    /// The console output written so far.
    pub fn output(&self) -> (r: &Vec<u8>)
        ensures
            r@ == self.out(),
    {
        &self.output
    }

    /// How many non-zero identifiers are active.
    pub fn allocated_count(&self) -> (n: usize)
        requires
            self.wf(),
        ensures
            n == self.mem().n_allocated(),
    {
        self.memory.allocated_count()
    }

    /// The length of the array bound to `id`, or nothing when `id` is inactive.
    pub fn array_len(&self, id: u32) -> (r: Option<usize>)
        requires
            self.wf(),
        ensures
            r is Some <==> self.mem().active(id),
            r matches Some(n) ==> n == self.mem().arr(id).len(),
    {
        self.memory.array_len(id)
    }

    /// Every well-formed machine has exactly eight registers, so sequence
    /// reasoning about register updates is available to every caller.
    pub proof fn lemma_eight_registers(self)
        requires
            self.wf(),
        ensures
            self.regs().len() == 8,
    {
    }

    /// Array zero is active on every well-formed machine, so the frame
    /// clauses of the memory operations apply to it.
    pub proof fn lemma_zero_active(self)
        requires
            self.wf(),
        ensures
            self.mem().active(0),
    {
        self.memory.lemma_zero_active();
    }

    /// As long as fewer than 2^32 - 1 non-zero identifiers are active, some
    /// non-zero identifier is inactive, so ALLOC is owed success.
    pub proof fn lemma_alloc_available(self)
        requires
            self.wf(),
            self.mem().n_allocated() < 0xFFFF_FFFFnat,
        ensures
            exists|id: u32| id != 0 && !self.mem().active(id),
    {
        self.memory.lemma_alloc_available();
    }

    /// The machine has not executed HALT.
    pub fn is_running(&self) -> (r: bool)
        ensures
            r == self.running(),
    {
        self.status
    }

    /// How many console input bytes are not yet consumed.
    pub fn input_remaining(&self) -> (n: usize)
        requires
            self.wf(),
        ensures
            n == self.in_rem().len(),
    {
        self.input.len() - self.input_pos
    }

    /// Appends one byte to the console input, behind what is already waiting.
    pub fn push_input(&mut self, b: u8)
        requires
            old(self).wf(),
        ensures
            final(self).wf(),
            final(self).in_rem() == old(self).in_rem().push(b),
            final(self).regs() == old(self).regs(),
            final(self).mem() == old(self).mem(),
            final(self).out() == old(self).out(),
            final(self).ip() == old(self).ip(),
            final(self).running() == old(self).running(),
            final(self).steps() == old(self).steps(),
    {
        self.input.push(b);
        proof {
            assert(self.in_rem() =~= old(self).in_rem().push(b));
        }
    }

    /// The instruction the next step will execute, without executing it: what
    /// the word under the execution pointer decodes to. A driver can ask it
    /// whether the machine is about to read input (IN) and feed a byte first.
    pub fn peek_instruction(&self) -> (r: Result<Instruction, Trap>)
        requires
            self.wf(),
        ensures
            r is Ok <==> self.ip() < self.arr0().len() && self.arr0()[self.ip()] >> 28 <= 0xD,
            r matches Ok(i) ==> i == decode_spec(self.arr0()[self.ip()]),
            r matches Err(t) ==> {
                &&& (t == Trap::PointerOutOfRange <==> self.ip() >= self.arr0().len())
                &&& (t == Trap::MalformedInstruction <==> self.ip() < self.arr0().len()
                    && self.arr0()[self.ip()] >> 28 > 0xD)
            },
    {
        proof {
            self.memory.lemma_zero_active();
        }
        match self.memory.read(0, self.instruction_pointer) {
            Ok(w) => Instruction::decode(w),
            Err(_) => Err(Trap::PointerOutOfRange),
        }
    }

    /// Fetches the word under the execution pointer and advances the pointer;
    /// a pointer past the end of array zero is a trap that changes nothing.
    pub fn fetch_instruction(&mut self) -> (r: Result<u32, Trap>)
        requires
            old(self).wf(),
        ensures
            final(self).wf(),
            r is Ok <==> old(self).ip() < old(self).arr0().len(),
            r matches Ok(w) ==> {
                &&& w == old(self).arr0()[old(self).ip()]
                &&& final(self).ip() == old(self).ip() + 1
                &&& final(self).regs() == old(self).regs()
                &&& final(self).mem() == old(self).mem()
                &&& same_console(*old(self), *final(self))
                &&& final(self).running() == old(self).running()
                &&& final(self).steps() == old(self).steps()
            },
            r matches Err(t) ==> t == Trap::PointerOutOfRange && *final(self) == *old(self),
    {
        proof {
            self.memory.lemma_zero_active();
        }
        match self.memory.read(0, self.instruction_pointer) {
            Ok(w) => {
                self.instruction_pointer = self.instruction_pointer + 1;
                Ok(w)
            },
            Err(_) => Err(Trap::PointerOutOfRange),
        }
    }

    /// Executes one decoded instruction. The execution pointer has already
    /// been advanced past the instruction word; `exec_post_at` says what each
    /// opcode does from where it stands.
    pub fn execute_instruction(&mut self, inst: Instruction) -> (r: Result<(), Trap>)
        requires
            old(self).wf(),
            inst.wf(),
        ensures
            final(self).wf(),
            final(self).steps() == old(self).steps(),
            exec_post_at(*old(self), *final(self), inst, r, old(self).ip()),
    {
        match inst.op_code {
            OpCode::CMOV => {
                if self.register_file[inst.r_c as usize] != 0 {
                    let vb = self.register_file[inst.r_b as usize];
                    self.register_file.set(inst.r_a as usize, vb);
                }
                Ok(())
            },
            OpCode::LOAD => {
                let vb = self.register_file[inst.r_b as usize];
                let vc = self.register_file[inst.r_c as usize];
                match self.memory.read(vb, vc as usize) {
                    Ok(w) => {
                        self.register_file.set(inst.r_a as usize, w);
                        Ok(())
                    },
                    Err(MemFault::InactiveArray) => Err(Trap::InactiveArray(OpCode::LOAD)),
                    Err(_) => Err(Trap::OffsetOutOfRange(OpCode::LOAD)),
                }
            },
            OpCode::STORE => {
                let va = self.register_file[inst.r_a as usize];
                let vb = self.register_file[inst.r_b as usize];
                let vc = self.register_file[inst.r_c as usize];
                match self.memory.write(va, vb as usize, vc) {
                    Ok(()) => Ok(()),
                    Err(MemFault::InactiveArray) => Err(Trap::InactiveArray(OpCode::STORE)),
                    Err(_) => Err(Trap::OffsetOutOfRange(OpCode::STORE)),
                }
            },
            OpCode::ADD => {
                let vb = self.register_file[inst.r_b as usize];
                let vc = self.register_file[inst.r_c as usize];
                let sum = ((vb as u64 + vc as u64) % 0x1_0000_0000u64) as u32;
                self.register_file.set(inst.r_a as usize, sum);
                Ok(())
            },
            OpCode::MUL => {
                let vb = self.register_file[inst.r_b as usize];
                let vc = self.register_file[inst.r_c as usize];
                proof {
                    assert((vb as int) * (vc as int) <= 0xFFFF_FFFFint * 0xFFFF_FFFFint)
                        by (nonlinear_arith)
                        requires
                            vb as int <= 0xFFFF_FFFF,
                            vc as int <= 0xFFFF_FFFF,
                    ;
                }
                let prod = ((vb as u64 * vc as u64) % 0x1_0000_0000u64) as u32;
                self.register_file.set(inst.r_a as usize, prod);
                Ok(())
            },
            OpCode::DIV => {
                let vb = self.register_file[inst.r_b as usize];
                let vc = self.register_file[inst.r_c as usize];
                if vc == 0 {
                    Err(Trap::DivisionByZero)
                } else {
                    self.register_file.set(inst.r_a as usize, vb / vc);
                    Ok(())
                }
            },
            OpCode::NAND => {
                let vb = self.register_file[inst.r_b as usize];
                let vc = self.register_file[inst.r_c as usize];
                self.register_file.set(inst.r_a as usize, !(vb & vc));
                Ok(())
            },
            OpCode::HALT => {
                self.status = false;
                Ok(())
            },
            OpCode::ALLOC => {
                let vc = self.register_file[inst.r_c as usize];
                match self.memory.allocate(vc) {
                    Ok(id) => {
                        self.register_file.set(inst.r_b as usize, id);
                        Ok(())
                    },
                    Err(_) => Err(Trap::IdSpaceExhausted),
                }
            },
            OpCode::FREE => {
                let vc = self.register_file[inst.r_c as usize];
                match self.memory.free(vc) {
                    Ok(()) => Ok(()),
                    Err(MemFault::FreeProgramArray) => Err(Trap::FreeProgramArray),
                    Err(_) => Err(Trap::DoubleFree),
                }
            },
            OpCode::OUT => {
                let vc = self.register_file[inst.r_c as usize];
                if vc > 255 {
                    Err(Trap::OutputOutOfRange)
                } else {
                    self.output.push(vc as u8);
                    Ok(())
                }
            },
            OpCode::IN => {
                if self.input_pos < self.input.len() {
                    let byte = self.input[self.input_pos];
                    self.input_pos = self.input_pos + 1;
                    self.register_file.set(inst.r_c as usize, byte as u32);
                    proof {
                        assert(old(self).in_rem()[0] == byte);
                        assert(self.in_rem() =~= old(self).in_rem().skip(1));
                    }
                } else {
                    self.register_file.set(inst.r_c as usize, 0xFFFF_FFFF);
                    proof {
                        assert(old(self).in_rem().len() == 0);
                    }
                }
                Ok(())
            },
            OpCode::CALL => {
                let vb = self.register_file[inst.r_b as usize];
                let vc = self.register_file[inst.r_c as usize];
                match self.memory.load_program(vb) {
                    Ok(()) => {
                        self.instruction_pointer = vc as usize;
                        Ok(())
                    },
                    Err(_) => Err(Trap::InactiveArray(OpCode::CALL)),
                }
            },
            OpCode::CONST => {
                self.register_file.set(inst.r_a as usize, inst.value);
                Ok(())
            },
        }
    }

    /// One whole step: fetch, advance the pointer, decode, execute. Counts
    /// the step; the counter stops at its greatest value rather than wrap.
    pub fn step(&mut self) -> (r: Result<(), Trap>)
        requires
            old(self).wf(),
        ensures
            final(self).wf(),
            final(self).steps() == (if old(self).steps() < u64::MAX {
                old(self).steps() + 1
            } else {
                old(self).steps()
            }),
            step_post(*old(self), *final(self), r),
    {
        let w = match self.fetch_instruction() {
            Ok(w) => w,
            Err(t) => {
                self.count_step();
                return Err(t);
            },
        };
        let inst = match Instruction::decode(w) {
            Ok(inst) => inst,
            Err(t) => {
                self.count_step();
                return Err(t);
            },
        };
        let r = self.execute_instruction(inst);
        self.count_step();
        r
    }

    /// Counts one executed step, stopping at the counter's greatest value.
    fn count_step(&mut self)
        ensures
            final(self).steps() == (if old(self).steps() < u64::MAX {
                old(self).steps() + 1
            } else {
                old(self).steps()
            }),
            final(self).regs() == old(self).regs(),
            final(self).mem() == old(self).mem(),
            same_console(*old(self), *final(self)),
            final(self).ip() == old(self).ip(),
            final(self).running() == old(self).running(),
            final(self).wf() == old(self).wf(),
    {
        if self.steps < u64::MAX {
            self.steps = self.steps + 1;
        }
    }

    /// Runs the machine until it halts or traps: the run-to-halt operation.
    /// Success is exactly a halt; a trap is handed back unchanged. So that
    /// every run provably ends, a single run is bounded at 2^64 - 1 steps, a
    /// count no real machine reaches; a run that long stops with
    /// `Trap::StepLimitReached` while still running.
    pub fn interpret(&mut self) -> (r: Result<(), Trap>)
        requires
            old(self).wf(),
        ensures
            final(self).wf(),
            r is Ok <==> !final(self).running(),
            r is Err ==> final(self).running(),
            r == Err::<(), Trap>(Trap::StepLimitReached) ==> final(self).steps() == u64::MAX,
            exists|ts: Seq<CPU>| #[trigger] run_trace(ts, *old(self), *final(self), r),
            final(self).steps() >= old(self).steps(),
    {
        let ghost mut trace: Seq<CPU> = seq![*self];
        while self.status
            invariant
                self.wf(),
                self.steps() >= old(self).steps(),
                trace.len() >= 1,
                trace[0] == *old(self),
                trace[trace.len() - 1] == *self,
                forall|i: int| 0 <= i < trace.len() ==> (#[trigger] trace[i]).wf(),
                forall|i: int| 0 <= i < trace.len() - 1 ==> (#[trigger] trace[i]).running(),
                forall|i: int|
                    0 <= i < trace.len() - 1 ==> #[trigger] step_post(trace[i], trace[i + 1], Ok(())),
                forall|i: int|
                    0 <= i < trace.len() - 1 ==> (#[trigger] trace[i + 1]).steps() == (
                    if trace[i].steps() < u64::MAX {
                        trace[i].steps() + 1
                    } else {
                        trace[i].steps()
                    }),
            decreases u64::MAX - self.steps,
        {
            if self.steps == u64::MAX {
                proof {
                    assert(run_trace(trace, *old(self), *self, Err(Trap::StepLimitReached)));
                }
                return Err(Trap::StepLimitReached);
            }
            let ghost before = *self;
            match self.step() {
                Ok(()) => {
                    proof {
                        trace = trace.push(*self);
                    }
                },
                Err(t) => {
                    proof {
                        assert(step_post(before, *self, Err(t)));
                        assert(t != Trap::StepLimitReached);
                        trace = trace.push(*self);
                        assert(run_trace(trace, *old(self), *self, Err(t)));
                    }
                    return Err(t);
                },
            }
        }
        proof {
            assert(run_trace(trace, *old(self), *self, Ok::<(), Trap>(())));
        }
        Ok(())
    }
}

/// CMOV with the condition register zero is a no-op on the registers; with it
/// non-zero it copies register B over register A. Memory is never touched.
pub proof fn lemma_cmov(pre: CPU, post: CPU, inst: Instruction, r: Result<(), Trap>, retip: int)
    requires
        inst.wf(),
        inst.op_code == OpCode::CMOV,
        exec_post_at(pre, post, inst, r, retip),
    ensures
        pre.regs()[inst.r_c as int] == 0 ==> post.regs() == pre.regs(),
        pre.regs()[inst.r_c as int] != 0 ==> post.regs() == pre.regs().update(
            inst.r_a as int,
            pre.regs()[inst.r_b as int],
        ),
        post.mem() == pre.mem(),
{
}

/// LOAD-PROGRAM with the source register zero leaves the whole memory
/// universe — array zero included — untouched, and only assigns the execution
/// pointer from register C.
pub proof fn lemma_load_program_zero_source(
    pre: CPU,
    post: CPU,
    inst: Instruction,
    r: Result<(), Trap>,
    retip: int,
)
    requires
        inst.wf(),
        inst.op_code == OpCode::CALL,
        pre.regs()[inst.r_b as int] == 0,
        exec_post_at(pre, post, inst, r, retip),
    ensures
        r is Ok,
        post.mem() == pre.mem(),
        post.regs() == pre.regs(),
        post.ip() == pre.regs()[inst.r_c as int] as int,
{
}

} // verus!
