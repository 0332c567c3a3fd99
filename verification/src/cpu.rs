//! The executable engine: registers, memory, call stack and program counter
//! in fixed-size arrays, and the fetch-decode-execute loop over them.
use vstd::prelude::*;
use crate::machine::{
    lemma_step_decreases_rank, Fault, Machine, Status, FLAG_REGISTER, MEMORY_SIZE, REGISTER_COUNT,
    STACK_CAPACITY,
};
use crate::opcode::{decode_opcode, lemma_fields_recompose, Instruction};

verus! {

/// The engine state. The caller owns it, loads `memory` and `register`, sets
/// `position_in_memory`, and hands it to [`CPU::run`].
pub struct CPU {
    /// Sixteen registers, addressed by one hexadecimal digit. Register `0xF`
    /// doubles as the carry flag.
    pub register: [u8; 16],
    /// The program counter.
    pub position_in_memory: usize,
    /// Four kilobytes of memory.
    pub memory: [u8; 4096],
    /// Return addresses; the cells below `stack_pointer` are live.
    pub stack: [u16; 16],
    /// Number of live return addresses.
    pub stack_pointer: usize,
}

impl View for CPU {
    type V = Machine;

    open spec fn view(&self) -> Machine {
        Machine {
            registers: self.register@,
            pc: self.position_in_memory as nat,
            memory: self.memory@,
            stack: self.stack@.take(self.stack_pointer as int),
        }
    }
}

impl CPU {
    /// The call stack's depth is within its capacity.
    pub open spec fn wf(&self) -> bool {
        self.stack_pointer <= STACK_CAPACITY
    }

    /// An engine with zeroed registers and memory, an empty call stack, and
    /// the program counter at address zero.
    pub fn new() -> (cpu: CPU)
        ensures
            cpu.wf(),
            cpu.register@ == Seq::new(REGISTER_COUNT as nat, |i: int| 0u8),
            cpu.memory@ == Seq::new(MEMORY_SIZE as nat, |i: int| 0u8),
            cpu.stack@ == Seq::new(STACK_CAPACITY as nat, |i: int| 0u16),
            cpu.stack_pointer == 0,
            cpu.position_in_memory == 0,
            cpu@.stack == Seq::<u16>::empty(),
    {
        CPU {
            register: [0u8; 16],
            position_in_memory: 0,
            memory: [0u8; 4096],
            stack: [0u16; 16],
            stack_pointer: 0,
        }
    }

    /// Tells whether the call stack's depth is within its capacity, which the
    /// operations on the stack require.
    pub fn is_wf(&self) -> (ok: bool)
        ensures
            ok == self.wf(),
    {
        self.stack_pointer <= STACK_CAPACITY
    }

    /// Reads the two bytes at `address` and `address + 1`, or reports
    /// `OutOfBounds` if either lies outside the memory.
    pub fn read_instruction(&self, address: usize) -> (bytes: Result<(u8, u8), Fault>)
        ensures
            bytes == self@.read_instruction(address as nat),
            bytes is Ok <==> address + 1 < MEMORY_SIZE,
    {
        if address < MEMORY_SIZE - 1 {
            Ok((self.memory[address], self.memory[address + 1]))
        } else {
            Err(Fault::OutOfBounds)
        }
    }

    /// Reads the opcode at the program counter: two bytes, the first one high.
    pub fn read_opcode(&self) -> (opcode: Result<u16, Fault>)
        ensures
            opcode == self@.fetch(),
            opcode is Ok <==> self.position_in_memory + 1 < MEMORY_SIZE,
    {
        match self.read_instruction(self.position_in_memory) {
            Ok((high, low)) => {
                let high: u16 = high as u16;
                let low: u16 = low as u16;
                assert(high << 8 | low == high * 0x100 + low) by (bit_vector)
                    requires
                        high < 0x100,
                        low < 0x100,
                ;
                Ok(high << 8 | low)
            },
            Err(fault) => Err(fault),
        }
    }

    /// Adds register `y` into register `x`, wrapping at eight bits, and then
    /// sets the flag register to the carry: 1 if the sum passed 255, else 0.
    ///
    /// Both operands are read before anything is written, and the flag is
    /// written last: with `x == 0xF` the flag replaces the sum.
    pub fn add_xy(&mut self, x: u8, y: u8)
        requires
            x < REGISTER_COUNT,
            y < REGISTER_COUNT,
        ensures
            final(self)@ == old(self)@.add_xy(x as int, y as int),
            final(self).wf() == old(self).wf(),
            x != FLAG_REGISTER ==> final(self).register[x as int] == (old(self).register[x as int]
                + old(self).register[y as int]) % 0x100,
            final(self).register[FLAG_REGISTER as int] == 1 <==> old(self).register[x as int]
                + old(self).register[y as int] > 0xFF,
            final(self).register[FLAG_REGISTER as int] == 0 <==> old(self).register[x as int]
                + old(self).register[y as int] <= 0xFF,
    {
        let arg1: u8 = self.register[x as usize];
        let arg2: u8 = self.register[y as usize];
        let sum: u16 = arg1 as u16 + arg2 as u16;
        if sum > 0xFF {
            self.register[x as usize] = (sum - 0x100) as u8;
            self.register[FLAG_REGISTER] = 1;
        } else {
            self.register[x as usize] = sum as u8;
            self.register[FLAG_REGISTER] = 0;
        }
    }

    /// Stores `address` on top of the call stack, or reports `StackOverflow`
    /// if the stack is full, and then changes nothing.
    pub fn push(&mut self, address: u16) -> (result: Result<(), Fault>)
        requires
            old(self).wf(),
        ensures
            final(self).wf(),
            (final(self)@, result) == old(self)@.push(address),
            result is Err <==> old(self).stack_pointer == STACK_CAPACITY,
            result is Err ==> result == Err::<(), Fault>(Fault::StackOverflow),
    {
        if self.stack_pointer >= STACK_CAPACITY {
            return Err(Fault::StackOverflow);
        }
        self.stack[self.stack_pointer] = address;
        self.stack_pointer = self.stack_pointer + 1;
        assert(self@.stack =~= old(self)@.stack.push(address));
        Ok(())
    }

    /// Takes the top address off the call stack and returns it, or reports
    /// `StackUnderflow` if the stack is empty, and then changes nothing.
    pub fn pop(&mut self) -> (result: Result<u16, Fault>)
        requires
            old(self).wf(),
        ensures
            final(self).wf(),
            (final(self)@, result) == old(self)@.pop(),
            result is Err <==> old(self).stack_pointer == 0,
            result is Err ==> result == Err::<u16, Fault>(Fault::StackUnderflow),
    {
        if self.stack_pointer == 0 {
            return Err(Fault::StackUnderflow);
        }
        self.stack_pointer = self.stack_pointer - 1;
        assert(self@.stack =~= old(self)@.stack.drop_last());
        Ok(self.stack[self.stack_pointer])
    }

    /// Calls the subroutine at `addr`: saves the program counter on the call
    /// stack and jumps. On `StackOverflow` nothing changes.
    ///
    /// A stack cell holds sixteen bits, so a program counter beyond `0xFFFF`
    /// is saved modulo `0x1_0000`.
    pub fn call(&mut self, addr: u16) -> (result: Result<(), Fault>)
        requires
            old(self).wf(),
        ensures
            final(self).wf(),
            (final(self)@, result) == old(self)@.call(addr),
            result is Err <==> old(self).stack_pointer == STACK_CAPACITY,
            result is Err ==> result == Err::<(), Fault>(Fault::StackOverflow),
    {
        let return_address: u16 = (self.position_in_memory % 0x1_0000) as u16;
        match self.push(return_address) {
            Ok(_) => {
                self.position_in_memory = addr as usize;
                Ok(())
            },
            Err(fault) => Err(fault),
        }
    }

    /// Returns from a subroutine: takes the top address off the call stack
    /// and jumps to it. On `StackUnderflow` nothing changes.
    pub fn ret(&mut self) -> (result: Result<(), Fault>)
        requires
            old(self).wf(),
        ensures
            final(self).wf(),
            (final(self)@, result) == old(self)@.ret(),
            result is Err <==> old(self).stack_pointer == 0,
            result is Err ==> result == Err::<(), Fault>(Fault::StackUnderflow),
    {
        match self.pop() {
            Ok(address) => {
                self.position_in_memory = address as usize;
                Ok(())
            },
            Err(fault) => Err(fault),
        }
    }

    /// Runs one fetch-decode-execute cycle and tells whether the loop goes on.
    ///
    /// The program counter is advanced past the opcode before the instruction
    /// executes, so that a call saves the address of the next instruction.
    pub fn step(&mut self) -> (result: Result<Status, Fault>)
        requires
            old(self).wf(),
        ensures
            final(self).wf(),
            (final(self)@, result) == old(self)@.step(),
            final(self).memory@ == old(self).memory@,
    {
        let opcode: u16 = match self.read_opcode() {
            Ok(opcode) => opcode,
            Err(fault) => {
                return Err(fault);
            },
        };
        self.position_in_memory = self.position_in_memory + 2;
        let fields = decode_opcode(opcode);
        proof {
            lemma_fields_recompose(opcode);
        }
        match fields.instruction() {
            Some(Instruction::Halt) => Ok(Status::Halted),
            Some(Instruction::Return) => match self.ret() {
                Ok(_) => Ok(Status::Running),
                Err(fault) => Err(fault),
            },
            Some(Instruction::Call { address }) => match self.call(address) {
                Ok(_) => Ok(Status::Running),
                Err(fault) => Err(fault),
            },
            Some(Instruction::AddRegisters { x, y }) => {
                self.add_xy(x, y);
                Ok(Status::Running)
            },
            None => Err(Fault::UnsupportedOpcode(opcode)),
        }
    }

    /// Runs cycles until a halt instruction or a fault.
    ///
    /// Returns `Ok` after a halt and the fault otherwise; in both cases the
    /// engine is left as the last cycle left it. The loop always ends: calls
    /// are bounded by the stack, and everything else moves the program
    /// counter towards the end of memory.
    pub fn run(&mut self) -> (result: Result<(), Fault>)
        requires
            old(self).wf(),
        ensures
            final(self).wf(),
            (final(self)@, result) == old(self)@.run(),
            final(self).memory@ == old(self).memory@,
    {
        loop
            invariant
                self.wf(),
                self@.wf(),
                self@.run() == old(self)@.run(),
                self.memory@ == old(self).memory@,
            decreases self@.rank(),
        {
            proof {
                if self@.step().1 == Ok::<Status, Fault>(Status::Running) {
                    lemma_step_decreases_rank(self@);
                }
            }
            match self.step() {
                Ok(Status::Running) => {},
                Ok(Status::Halted) => {
                    return Ok(());
                },
                Err(fault) => {
                    return Err(fault);
                },
            }
        }
    }
}

} // verus!
