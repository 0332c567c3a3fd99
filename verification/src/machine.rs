//! The mathematical model of the engine: its state as plain sequences and
//! numbers, one fetch-decode-execute cycle as a function on that state, and
//! a whole run as the iteration of that function.
//!
//! The executable engine in [`crate::cpu`] is specified against this model.
use vstd::prelude::*;
use vstd::arithmetic::power::{pow, lemma_pow_positive};
use crate::opcode::{decoded, Instruction};

verus! {

/// Number of addressable memory cells.
pub const MEMORY_SIZE: usize = 4096;

/// Number of general-purpose registers.
pub const REGISTER_COUNT: usize = 16;

/// Largest number of return addresses that the call stack holds.
pub const STACK_CAPACITY: usize = 16;

/// Index of the register that receives the carry of an addition.
pub const FLAG_REGISTER: usize = 0xF;

/// The conditions that stop a run short of a halt.
#[derive(Debug, Clone, Copy, PartialEq, Eq, Structural)]
pub enum Fault {
    /// An instruction fetch reached past the end of memory.
    OutOfBounds,
    /// A call was issued while the call stack was full.
    StackOverflow,
    /// A return was issued while the call stack was empty.
    StackUnderflow,
    /// The fetched opcode, carried here, is not in the supported set.
    UnsupportedOpcode(u16),
}

/// Whether the execution loop goes on after a cycle.
#[derive(Debug, Clone, Copy, PartialEq, Eq, Structural)]
pub enum Status {
    Running,
    Halted,
}

/// The state of the engine as mathematics sees it.
pub struct Machine {
    /// The sixteen registers.
    pub registers: Seq<u8>,
    /// The program counter: the address of the next opcode.
    pub pc: nat,
    /// The memory image.
    pub memory: Seq<u8>,
    /// The live return addresses, oldest first.
    pub stack: Seq<u16>,
}

impl Machine {
    /// The shape that every engine state has.
    pub open spec fn wf(self) -> bool {
        &&& self.registers.len() == REGISTER_COUNT
        &&& self.memory.len() == MEMORY_SIZE
        &&& self.stack.len() <= STACK_CAPACITY
    }

    /// The two bytes at `address` and `address + 1`.
    pub open spec fn read_instruction(self, address: nat) -> Result<(u8, u8), Fault> {
        if address + 1 < self.memory.len() {
            Ok((self.memory[address as int], self.memory[address as int + 1]))
        } else {
            Err(Fault::OutOfBounds)
        }
    }

    /// The opcode at the program counter, first byte high.
    pub open spec fn fetch(self) -> Result<u16, Fault> {
        match self.read_instruction(self.pc) {
            Ok((high, low)) => Ok((high * 0x100 + low) as u16),
            Err(fault) => Err(fault),
        }
    }

    /// Register `x` receives the sum of registers `x` and `y` modulo 256, then
    /// the flag register receives the carry. Both operands are read first.
    pub open spec fn add_xy(self, x: int, y: int) -> Machine {
        let sum = self.registers[x] + self.registers[y];
        let carry: u8 = if sum > 0xFF { 1 } else { 0 };
        Machine {
            registers: self.registers.update(x, (sum % 0x100) as u8).update(
                FLAG_REGISTER as int,
                carry,
            ),
            ..self
        }
    }

    /// The stack with `address` on top, unless it is full.
    pub open spec fn push(self, address: u16) -> (Machine, Result<(), Fault>) {
        if self.stack.len() < STACK_CAPACITY {
            (Machine { stack: self.stack.push(address), ..self }, Ok(()))
        } else {
            (self, Err(Fault::StackOverflow))
        }
    }

    /// The stack without its top, and that top, unless it is empty.
    pub open spec fn pop(self) -> (Machine, Result<u16, Fault>) {
        if self.stack.len() > 0 {
            (Machine { stack: self.stack.drop_last(), ..self }, Ok(self.stack.last()))
        } else {
            (self, Err(Fault::StackUnderflow))
        }
    }

    /// Saves the program counter, as far as sixteen bits hold it, and jumps to
    /// `address`.
    pub open spec fn call(self, address: u16) -> (Machine, Result<(), Fault>) {
        let (pushed, result) = self.push((self.pc % 0x1_0000) as u16);
        match result {
            Ok(_) => (Machine { pc: address as nat, ..pushed }, Ok(())),
            Err(fault) => (self, Err(fault)),
        }
    }

    /// Jumps back to the most recently saved address.
    pub open spec fn ret(self) -> (Machine, Result<(), Fault>) {
        let (popped, result) = self.pop();
        match result {
            Ok(address) => (Machine { pc: address as nat, ..popped }, Ok(())),
            Err(fault) => (self, Err(fault)),
        }
    }

    /// The effect of one decoded instruction.
    pub open spec fn execute(self, instruction: Instruction) -> (Machine, Result<Status, Fault>) {
        match instruction {
            Instruction::Halt => (self, Ok(Status::Halted)),
            Instruction::Return => {
                let (machine, result) = self.ret();
                match result {
                    Ok(_) => (machine, Ok(Status::Running)),
                    Err(fault) => (machine, Err(fault)),
                }
            },
            Instruction::Call { address } => {
                let (machine, result) = self.call(address);
                match result {
                    Ok(_) => (machine, Ok(Status::Running)),
                    Err(fault) => (machine, Err(fault)),
                }
            },
            Instruction::AddRegisters { x, y } => (
                self.add_xy(x as int, y as int),
                Ok(Status::Running),
            ),
        }
    }

    /// One cycle: fetch, advance the program counter by two, decode, execute.
    ///
    /// A failed fetch changes nothing. Any later fault leaves the machine as
    /// it was but for the advanced program counter.
    pub open spec fn step(self) -> (Machine, Result<Status, Fault>) {
        match self.fetch() {
            Err(fault) => (self, Err(fault)),
            Ok(opcode) => {
                let advanced = Machine { pc: self.pc + 2, ..self };
                match decoded(opcode) {
                    Some(instruction) => advanced.execute(instruction),
                    None => (advanced, Err(Fault::UnsupportedOpcode(opcode))),
                }
            },
        }
    }

    /// Cycles until a halt or a fault: the final state, and how the run ended.
    pub open spec fn run(self) -> (Machine, Result<(), Fault>)
        decreases self.rank(),
        when self.wf()
        via Self::run_terminates
    {
        let (machine, result) = self.step();
        match result {
            Ok(Status::Running) => machine.run(),
            Ok(Status::Halted) => (machine, Ok(())),
            Err(fault) => (machine, Err(fault)),
        }
    }

    #[via_fn]
    proof fn run_terminates(self) {
        if self.step().1 == Ok::<Status, Fault>(Status::Running) {
            lemma_step_decreases_rank(self);
        }
    }

    /// A number that every cycle of a run lowers and that never drops below
    /// zero. It reads the saved return addresses, oldest first, and then the
    /// program counter as the digits of a numeral in base `0x1_0001`, each digit
    /// being the distance of the address from `0x1_0000`, and pads the numeral
    /// on the right up to the stack's capacity.
    ///
    /// An addition lowers the last digit. A call lowers the last digit and
    /// appends a new one, which weighs less. A return erases the last digit.
    pub closed spec fn rank(self) -> int {
        (stack_rank(self.stack) * radix() + (0x1_0000 - self.pc)) * pow(
            radix(),
            (STACK_CAPACITY - self.stack.len()) as nat,
        )
    }
}

/// The base of the numeral behind [`Machine::rank`]: one more than the
/// largest digit.
spec fn radix() -> int {
    0x1_0001
}

/// The saved return addresses read as a numeral, oldest first.
spec fn stack_rank(stack: Seq<u16>) -> int
    decreases stack.len(),
{
    if stack.len() == 0 {
        0
    } else {
        stack_rank(stack.drop_last()) * radix() + (0x1_0000 - stack.last())
    }
}

proof fn lemma_stack_rank_nonnegative(stack: Seq<u16>)
    ensures
        stack_rank(stack) >= 0,
    decreases stack.len(),
{
    if stack.len() > 0 {
        lemma_stack_rank_nonnegative(stack.drop_last());
        assert(stack_rank(stack.drop_last()) * radix() >= 0) by (nonlinear_arith)
            requires
                stack_rank(stack.drop_last()) >= 0,
                radix() > 0,
        ;
    }
}

/// A cycle after which the loop goes on lowers the rank, and leaves it
/// non-negative: no run cycles forever.
pub proof fn lemma_step_decreases_rank(machine: Machine)
    requires
        machine.wf(),
        machine.step().1 == Ok::<Status, Fault>(Status::Running),
    ensures
        machine.step().0.wf(),
        0 <= machine.step().0.rank() < machine.rank(),
{
    let r = radix();
    let base = stack_rank(machine.stack);
    let digit = 0x1_0000 - machine.pc;
    let room = (STACK_CAPACITY - machine.stack.len()) as nat;
    let weight = pow(r, room);
    lemma_stack_rank_nonnegative(machine.stack);
    lemma_pow_positive(r, room);
    match decoded(machine.fetch()->Ok_0)->Some_0 {
        Instruction::Halt => {},
        Instruction::AddRegisters { x, y } => {
            // The last digit drops by two.
            assert(0 <= (base * r + (digit - 2)) * weight < (base * r + digit) * weight)
                by (nonlinear_arith)
                requires
                    base >= 0,
                    r > 0,
                    digit >= 2,
                    weight > 0,
            ;
        },
        Instruction::Call { address } => {
            // The last digit drops by two and a digit of the next lower
            // weight is appended.
            let lower = pow(r, (room - 1) as nat);
            let appended = 0x1_0000 - address;
            assert(machine.step().0.stack.drop_last() == machine.stack);
            assert(weight == r * lower) by {
                reveal(pow);
            }
            lemma_pow_positive(r, (room - 1) as nat);
            assert(0 <= ((base * r + (digit - 2)) * r + appended) * lower < (base * r + digit) * (r
                * lower)) by (nonlinear_arith)
                requires
                    base >= 0,
                    r > 0,
                    digit >= 2,
                    0 < appended < r,
                    lower > 0,
            ;
        },
        Instruction::Return => {
            // The last digit goes, and what stays weighs as before.
            let below = stack_rank(machine.stack.drop_last());
            let erased = 0x1_0000 - machine.stack.last();
            lemma_stack_rank_nonnegative(machine.stack.drop_last());
            assert(pow(r, room + 1) == r * weight) by {
                reveal(pow);
            }
            assert(0 <= (below * r + erased) * (r * weight) < ((below * r + erased) * r + digit)
                * weight) by (nonlinear_arith)
                requires
                    below >= 0,
                    r > 0,
                    erased > 0,
                    digit > 0,
                    weight > 0,
            ;
        },
    }
}

/// A cycle keeps the machine well formed: the call stack never grows past
/// its capacity.
pub proof fn lemma_step_preserves_wf(machine: Machine)
    requires
        machine.wf(),
    ensures
        machine.step().0.wf(),
        machine.step().0.memory == machine.memory,
{
}

/// A whole run keeps the machine well formed and its memory unchanged.
pub proof fn lemma_run_preserves_wf(machine: Machine)
    requires
        machine.wf(),
    ensures
        machine.run().0.wf(),
        machine.run().0.memory == machine.memory,
    decreases machine.rank(),
{
    lemma_step_preserves_wf(machine);
    if machine.step().1 == Ok::<Status, Fault>(Status::Running) {
        lemma_step_decreases_rank(machine);
        lemma_run_preserves_wf(machine.step().0);
    }
}

/// A run never ends well without a halt: its last cycle then fetched the
/// opcode `0x0000`, two bytes before the final program counter.
pub proof fn lemma_run_ends_on_halt(machine: Machine)
    requires
        machine.wf(),
        machine.run().1 is Ok,
    ensures
        machine.run().0.pc >= 2,
        machine.run().0.read_instruction((machine.run().0.pc - 2) as nat) == Ok::<
            (u8, u8),
            Fault,
        >((0u8, 0u8)),
    decreases machine.rank(),
{
    lemma_step_preserves_wf(machine);
    if machine.step().1 == Ok::<Status, Fault>(Status::Running) {
        lemma_step_decreases_rank(machine);
        lemma_run_preserves_wf(machine.step().0);
        lemma_run_ends_on_halt(machine.step().0);
    } else {
        crate::opcode::lemma_fields_recompose(machine.fetch()->Ok_0);
    }
}

/// Call and return are symmetric: a return right after a call brings back
/// the machine as it was before the call, program counter included, as long
/// as that counter fits the sixteen bits of a stack cell.
pub proof fn lemma_call_then_ret_restores(machine: Machine, address: u16)
    requires
        machine.wf(),
        machine.stack.len() < STACK_CAPACITY,
        machine.pc < 0x1_0000,
    ensures
        machine.call(address).1 is Ok,
        machine.call(address).0.ret() == (machine, Ok::<(), Fault>(())),
{
    assert(machine.call(address).0.stack.drop_last() =~= machine.stack);
}

/// Call and return are symmetric in a running program: when the cycle at the
/// program counter executes a call and the next cycle a return, the two
/// cycles together leave every part of the machine as it was and the program
/// counter right behind the call opcode.
pub proof fn lemma_call_return_symmetry(machine: Machine)
    requires
        machine.wf(),
        machine.stack.len() < STACK_CAPACITY,
        machine.fetch() is Ok,
        decoded(machine.fetch()->Ok_0) is Some,
        decoded(machine.fetch()->Ok_0)->Some_0 is Call,
        machine.step().0.fetch() is Ok,
        decoded(machine.step().0.fetch()->Ok_0) == Some(Instruction::Return),
    ensures
        machine.step().1 == Ok::<Status, Fault>(Status::Running),
        machine.step().0.step() == (
            Machine { pc: machine.pc + 2, ..machine },
            Ok::<Status, Fault>(Status::Running),
        ),
{
    lemma_call_then_ret_restores(
        Machine { pc: machine.pc + 2, ..machine },
        decoded(machine.fetch()->Ok_0)->Some_0->address,
    );
}

/// A call on a full stack fails with `StackOverflow`, and only then; a
/// return on an empty stack fails with `StackUnderflow`, and only then.
pub proof fn lemma_stack_bounds(machine: Machine, address: u16)
    requires
        machine.wf(),
    ensures
        machine.call(address).1 == Err::<(), Fault>(Fault::StackOverflow) <==> machine.stack.len()
            == STACK_CAPACITY,
        machine.call(address).1 is Ok <==> machine.stack.len() < STACK_CAPACITY,
        machine.call(address).1 is Ok ==> machine.call(address).0.stack.len() == machine.stack.len()
            + 1,
        machine.ret().1 == Err::<(), Fault>(Fault::StackUnderflow) <==> machine.stack.len() == 0,
        machine.ret().1 is Ok <==> machine.stack.len() > 0,
        machine.ret().1 is Ok ==> machine.ret().0.stack.len() == machine.stack.len() - 1,
{
}

/// The opcode `0x0000` at the program counter ends the run at once: the
/// program counter moves past the opcode and nothing else changes.
pub proof fn lemma_halt_stops_at_once(machine: Machine)
    requires
        machine.wf(),
        machine.fetch() == Ok::<u16, Fault>(0),
    ensures
        machine.run() == (Machine { pc: machine.pc + 2, ..machine }, Ok::<(), Fault>(())),
{
}

/// An opcode outside the supported set ends the run with
/// `UnsupportedOpcode`, which carries the opcode: the program counter moves
/// past the opcode and nothing else changes.
pub proof fn lemma_unsupported_opcode_faults(machine: Machine, opcode: u16)
    requires
        machine.wf(),
        machine.fetch() == Ok::<u16, Fault>(opcode),
        decoded(opcode) is None,
    ensures
        machine.step() == (
            Machine { pc: machine.pc + 2, ..machine },
            Err::<Status, Fault>(Fault::UnsupportedOpcode(opcode)),
        ),
        machine.run() == (
            Machine { pc: machine.pc + 2, ..machine },
            Err::<(), Fault>(Fault::UnsupportedOpcode(opcode)),
        ),
{
}

/// For every pair of operand values, an addition leaves their sum modulo 256
/// in register `x`, unless `x` is the flag register, and leaves 1 in the flag
/// register if the sum passed 255 and 0 if it did not. Other registers keep
/// their values.
pub proof fn lemma_add_xy_carry(machine: Machine, x: int, y: int)
    requires
        machine.wf(),
        0 <= x < REGISTER_COUNT,
        0 <= y < REGISTER_COUNT,
    ensures
        x != FLAG_REGISTER ==> machine.add_xy(x, y).registers[x] == (machine.registers[x]
            + machine.registers[y]) % 0x100,
        machine.add_xy(x, y).registers[FLAG_REGISTER as int] == (if machine.registers[x]
            + machine.registers[y] > 0xFF {
            1u8
        } else {
            0u8
        }),
        forall|i: int|
            0 <= i < REGISTER_COUNT && i != x && i != FLAG_REGISTER ==> machine.add_xy(
                x,
                y,
            ).registers[i] == machine.registers[i],
        machine.add_xy(x, y).wf(),
{
}

} // verus!
