//! The execution engine: a program, a byte tape, and the two pointers, with
//! one handler per instruction and a fetch-decode-execute step on top.
//!
//! The engine performs no input or output itself. A step takes the byte that
//! the input source yielded, if the instruction asks for one, and hands back
//! the byte to emit, if the instruction produced one; the caller owns both
//! ends.

use vstd::prelude::*;
use crate::bracket::{closer_of, find_closer, find_opener, matched, opener_of};
use crate::machine::{wrap_dec, wrap_inc, Exit, Fault, Flow, Machine, DEFAULT_MEM_SIZE};
use crate::token::Token;

verus! {

/// The execution engine.
#[derive(Debug)]
pub struct CPU {
    ip: usize,
    dp: usize,
    memory: Vec<u8>,
    code: Vec<Token>,
}

/// What a call of [`CPU::run`] did before it stopped.
#[derive(Debug)]
pub struct Execution {
    /// Why the run stopped.
    pub exit: Exit,
    /// The bytes emitted, in order, up to the point where the run stopped.
    pub output: Vec<u8>,
    /// How many bytes of the input were read.
    pub consumed: usize,
}

impl View for CPU {
    type V = Machine;

    closed spec fn view(&self) -> Machine {
        Machine { code: self.code@, tape: self.memory@, ip: self.ip as int, dp: self.dp as int }
    }
}

impl CPU {
    /// The data pointer selects a cell of the tape, and the instruction
    /// pointer is inside the program or just past its end.
    #[verifier::type_invariant]
    spec fn inv(self) -> bool {
        &&& self.ip <= self.code.len()
        &&& self.dp < self.memory.len()
    }

    /// Builds an engine over `code` with a zeroed tape of the default size
    /// and both pointers at zero.
    pub fn new(code: Vec<Token>) -> (cpu: CPU)
        ensures
            cpu@ == Machine::boot(code@),
            cpu@.wf(),
    {
        let memory = vec![0u8; DEFAULT_MEM_SIZE];
        assert(memory@ =~= Seq::new(DEFAULT_MEM_SIZE as nat, |i: int| 0u8));
        CPU { ip: 0, dp: 0, memory, code }
    }

    /// `>`: moves the data pointer one cell to the right, or fails with
    /// `TapeOverflow` when it stands on the last cell.
    pub fn execute_inc_data_ptr(&mut self) -> (r: Result<(), Fault>)
        ensures
            final(self)@.wf(),
            match r {
                Ok(_) => {
                    &&& old(self)@.dp + 1 < old(self)@.tape.len()
                    &&& final(self)@ == old(self)@.with_dp(old(self)@.dp + 1)
                },
                Err(fault) => {
                    &&& fault == Fault::TapeOverflow
                    &&& old(self)@.dp + 1 == old(self)@.tape.len()
                    &&& final(self)@ == old(self)@
                },
            },
    {
        proof {
            use_type_invariant(&*self);
        }
        if self.dp + 1 >= self.memory.len() {
            return Err(Fault::TapeOverflow);
        }
        self.dp = self.dp + 1;
        Ok(())
    }

    /// `<`: moves the data pointer one cell to the left, or fails with
    /// `TapeUnderflow` when it stands on cell zero.
    pub fn execute_dec_data_ptr(&mut self) -> (r: Result<(), Fault>)
        ensures
            final(self)@.wf(),
            match r {
                Ok(_) => {
                    &&& old(self)@.dp > 0
                    &&& final(self)@ == old(self)@.with_dp(old(self)@.dp - 1)
                },
                Err(fault) => {
                    &&& fault == Fault::TapeUnderflow
                    &&& old(self)@.dp == 0
                    &&& final(self)@ == old(self)@
                },
            },
    {
        proof {
            use_type_invariant(&*self);
        }
        if self.dp == 0 {
            return Err(Fault::TapeUnderflow);
        }
        self.dp = self.dp - 1;
        Ok(())
    }

    /// `+`: adds one to the current cell, wrapping from 255 to 0.
    pub fn execute_inc_value(&mut self)
        ensures
            final(self)@.wf(),
            final(self)@ == old(self)@.with_cell(wrap_inc(old(self)@.cell())),
    {
        proof {
            use_type_invariant(&*self);
        }
        let value = self.memory[self.dp].wrapping_add(1);
        self.memory[self.dp] = value;
    }

    /// `-`: subtracts one from the current cell, wrapping from 0 to 255.
    pub fn execute_dec_value(&mut self)
        ensures
            final(self)@.wf(),
            final(self)@ == old(self)@.with_cell(wrap_dec(old(self)@.cell())),
    {
        proof {
            use_type_invariant(&*self);
        }
        let value = self.memory[self.dp].wrapping_sub(1);
        self.memory[self.dp] = value;
    }

    /// `.`: the byte to emit, which is the current cell. The engine itself is
    /// left untouched.
    pub fn execute_output(&self) -> (byte: u8)
        ensures
            self@.wf(),
            byte == self@.cell(),
    {
        proof {
            use_type_invariant(&*self);
        }
        self.memory[self.dp]
    }

    /// `,`: stores the byte that the input source yielded in the current
    /// cell. With `None`, which stands for an exhausted source, the cell
    /// keeps its value.
    pub fn execute_get_input(&mut self, input: Option<u8>)
        ensures
            final(self)@.wf(),
            final(self)@ == match input {
                Some(byte) => old(self)@.with_cell(byte),
                None => old(self)@,
            },
    {
        proof {
            use_type_invariant(&*self);
        }
        if let Some(byte) = input {
            self.memory[self.dp] = byte;
        }
    }

    /// `[`: decides where control goes from the `[` at the instruction
    /// pointer. While the current cell is not zero the loop is entered; else
    /// control goes to the matching `]`, and there is a fault if the program
    /// has none.
    ///
    /// The instruction pointer has to stand on a `[` whenever the jump is to
    /// be resolved, that is, whenever the current cell is zero.
    pub fn execute_jump_forward(&self) -> (r: Result<Flow, Fault>)
        requires
            self@.cell() == 0 ==> !self@.halted() && self@.fetch() == Token::JumpForward,
        ensures
            self@.wf(),
            self@.cell() != 0 ==> r == Ok::<Flow, Fault>(Flow::Advance),
            self@.cell() == 0 ==> match closer_of(self@.code, self@.ip) {
                Some(close) => {
                    &&& self@.ip < close < self@.code.len()
                    &&& r == Ok::<Flow, Fault>(Flow::JumpTo(close as usize))
                },
                None => r == Err::<Flow, Fault>(Fault::UnmatchedBracket),
            },
    {
        proof {
            use_type_invariant(&*self);
        }
        if self.memory[self.dp] != 0 {
            return Ok(Flow::Advance);
        }
        match self.find_matching_arm_idx() {
            Ok(target) => Ok(Flow::JumpTo(target)),
            Err(fault) => Err(fault),
        }
    }

    /// `]`: decides where control goes from the `]` at the instruction
    /// pointer. While the current cell is zero the loop is left; else control
    /// goes back to the matching `[`, and there is a fault if the program has
    /// none.
    ///
    /// The instruction pointer has to stand on a `]` whenever the jump is to
    /// be resolved, that is, whenever the current cell is not zero.
    pub fn execute_jump_backward(&self) -> (r: Result<Flow, Fault>)
        requires
            self@.cell() != 0 ==> !self@.halted() && self@.fetch() == Token::JumpBackward,
        ensures
            self@.wf(),
            self@.cell() == 0 ==> r == Ok::<Flow, Fault>(Flow::Advance),
            self@.cell() != 0 ==> match opener_of(self@.code, self@.ip) {
                Some(open) => {
                    &&& 0 <= open < self@.ip
                    &&& r == Ok::<Flow, Fault>(Flow::JumpTo(open as usize))
                },
                None => r == Err::<Flow, Fault>(Fault::UnmatchedBracket),
            },
    {
        proof {
            use_type_invariant(&*self);
        }
        if self.memory[self.dp] == 0 {
            return Ok(Flow::Advance);
        }
        match self.find_matching_arm_idx() {
            Ok(target) => Ok(Flow::JumpTo(target)),
            Err(fault) => Err(fault),
        }
    }

    /// Resolves the partner of the jump instruction at the instruction
    /// pointer: the `]` that closes it if it is a `[`, the `[` that opens it
    /// if it is a `]`. Fails with `UnmatchedBracket` when the scan leaves the
    /// program before the nesting depth returns to zero.
    ///
    /// The instruction pointer has to stand on a jump instruction.
    pub fn find_matching_arm_idx(&self) -> (r: Result<usize, Fault>)
        requires
            !self@.halted(),
            self@.fetch() == Token::JumpForward || self@.fetch() == Token::JumpBackward,
        ensures
            self@.wf(),
            self@.fetch() == Token::JumpForward ==> match closer_of(self@.code, self@.ip) {
                Some(close) => {
                    &&& matched(self@.code, self@.ip, close)
                    &&& r == Ok::<usize, Fault>(close as usize)
                },
                None => r == Err::<usize, Fault>(Fault::UnmatchedBracket),
            },
            self@.fetch() == Token::JumpBackward ==> match opener_of(self@.code, self@.ip) {
                Some(open) => {
                    &&& matched(self@.code, open, self@.ip)
                    &&& r == Ok::<usize, Fault>(open as usize)
                },
                None => r == Err::<usize, Fault>(Fault::UnmatchedBracket),
            },
    {
        proof {
            use_type_invariant(&*self);
        }
        let found = match self.code[self.ip] {
            Token::JumpForward => find_closer(self.code.as_slice(), self.ip),
            _ => find_opener(self.code.as_slice(), self.ip),
        };
        match found {
            Some(target) => Ok(target),
            None => Err(Fault::UnmatchedBracket),
        }
    }

    /// Whether the instruction pointer has run past the end of the program.
    pub fn halted(&self) -> (b: bool)
        ensures
            self@.wf(),
            b == self@.halted(),
    {
        proof {
            use_type_invariant(&*self);
        }
        self.ip >= self.code.len()
    }

    /// Whether the next instruction is `,`, so that the next call of
    /// [`CPU::step`] should be given a byte of input.
    pub fn awaits_input(&self) -> (b: bool)
        ensures
            self@.wf(),
            b == self@.awaits_input(),
    {
        proof {
            use_type_invariant(&*self);
        }
        self.ip < self.code.len() && self.code[self.ip] == Token::GetInput
    }

    /// Executes the instruction at the instruction pointer and moves the
    /// instruction pointer on.
    ///
    /// `input` is the byte read for a `,`, or `None` if the source is
    /// exhausted; other instructions ignore it. The result is the byte emitted
    /// by a `.`, if that was the instruction. On a fault the engine is left as
    /// it was. A halted engine does nothing.
    pub fn step(&mut self, input: Option<u8>) -> (r: Result<Option<u8>, Fault>)
        ensures
            final(self)@.wf(),
            match old(self)@.step(input) {
                Ok((next, emitted)) => {
                    &&& r == Ok::<Option<u8>, Fault>(emitted)
                    &&& final(self)@ == next
                },
                Err(fault) => {
                    &&& r == Err::<Option<u8>, Fault>(fault)
                    &&& final(self)@ == old(self)@
                },
            },
    {
        proof {
            use_type_invariant(&*self);
        }
        if self.ip >= self.code.len() {
            return Ok(None);
        }
        let mut emitted: Option<u8> = None;
        let mut flow = Flow::Advance;
        match self.code[self.ip] {
            Token::IncDataPtr => {
                if let Err(fault) = self.execute_inc_data_ptr() {
                    return Err(fault);
                }
            },
            Token::DecDataPtr => {
                if let Err(fault) = self.execute_dec_data_ptr() {
                    return Err(fault);
                }
            },
            Token::IncValue => {
                self.execute_inc_value();
            },
            Token::DecValue => {
                self.execute_dec_value();
            },
            Token::Output => {
                emitted = Some(self.execute_output());
            },
            Token::GetInput => {
                self.execute_get_input(input);
            },
            Token::JumpForward => {
                match self.execute_jump_forward() {
                    Ok(target) => {
                        flow = target;
                    },
                    Err(fault) => {
                        return Err(fault);
                    },
                }
            },
            Token::JumpBackward => {
                match self.execute_jump_backward() {
                    Ok(target) => {
                        flow = target;
                    },
                    Err(fault) => {
                        return Err(fault);
                    },
                }
            },
        }
        match flow {
            Flow::Advance => {
                self.ip = self.ip + 1;
            },
            Flow::JumpTo(target) => {
                self.ip = target;
            },
        }
        Ok(emitted)
    }

    /// Runs the fetch-decode-execute loop over an in-memory input: until the
    /// instruction pointer runs past the end of the program, an instruction
    /// faults, or `max_steps` instructions have been executed.
    ///
    /// Each `,` reads the next byte of `input`; once all of it is read the
    /// source counts as exhausted and `,` leaves its cell alone. The bytes
    /// emitted before the run stopped are returned whatever the reason for
    /// stopping. After `Exit::Suspended` the engine can be run on from where
    /// it stands, on the input that is left.
    pub fn run(&mut self, input: &[u8], max_steps: u64) -> (r: Execution)
        ensures
            final(self)@.wf(),
            final(self)@ == old(self)@.run(input@, max_steps as nat).machine,
            r.exit == old(self)@.run(input@, max_steps as nat).exit,
            r.output@ == old(self)@.run(input@, max_steps as nat).output,
            r.consumed == old(self)@.run(input@, max_steps as nat).consumed,
    {
        proof {
            use_type_invariant(&*self);
        }
        let mut output: Vec<u8> = Vec::new();
        let mut consumed: usize = 0;
        let mut remaining: u64 = max_steps;
        let ghost start = self@;
        proof {
            let whole = start.run(input@, max_steps as nat);
            assert(input@.skip(0) =~= input@);
            assert(whole.after(output@, 0) =~= whole);
        }
        loop
            invariant
                start == old(self)@,
                self@.wf(),
                consumed <= input.len(),
                start.run(input@, max_steps as nat) == self@.run(
                    input@.skip(consumed as int),
                    remaining as nat,
                ).after(output@, consumed as nat),
            decreases remaining,
        {
            let ghost unread = input@.skip(consumed as int);
            let ghost emitted_so_far = output@;
            if self.halted() {
                proof {
                    assert(emitted_so_far + Seq::<u8>::empty() =~= emitted_so_far);
                }
                return Execution { exit: Exit::Finished, output, consumed };
            }
            if remaining == 0 {
                proof {
                    assert(emitted_so_far + Seq::<u8>::empty() =~= emitted_so_far);
                }
                return Execution { exit: Exit::Suspended, output, consumed };
            }
            let feed = self.awaits_input() && consumed < input.len();
            let event = if feed {
                Some(input[consumed])
            } else {
                None
            };
            match self.step(event) {
                Err(fault) => {
                    proof {
                        assert(emitted_so_far + Seq::<u8>::empty() =~= emitted_so_far);
                    }
                    return Execution { exit: Exit::Aborted(fault), output, consumed };
                },
                Ok(emitted) => {
                    if let Some(byte) = emitted {
                        output.push(byte);
                    }
                    if feed {
                        consumed = consumed + 1;
                    }
                    remaining = remaining - 1;
                    proof {
                        let chunk = match emitted {
                            Some(byte) => seq![byte],
                            None => Seq::<u8>::empty(),
                        };
                        let rest = self@.run(input@.skip(consumed as int), remaining as nat);
                        assert(input@.skip(consumed as int) =~= if feed {
                            unread.drop_first()
                        } else {
                            unread
                        });
                        assert(output@ =~= emitted_so_far + chunk);
                        assert(emitted_so_far + (chunk + rest.output) =~= (emitted_so_far
                            + chunk) + rest.output);
                    }
                },
            }
        }
    }

    /// The position in the program of the next instruction to execute.
    pub fn instruction_pointer(&self) -> (ip: usize)
        ensures
            self@.wf(),
            ip == self@.ip,
    {
        proof {
            use_type_invariant(&*self);
        }
        self.ip
    }

    /// The position on the tape of the current cell.
    pub fn data_pointer(&self) -> (dp: usize)
        ensures
            self@.wf(),
            dp == self@.dp,
    {
        proof {
            use_type_invariant(&*self);
        }
        self.dp
    }

    /// The tape, one byte per cell.
    pub fn memory(&self) -> (tape: &[u8])
        ensures
            self@.wf(),
            tape@ == self@.tape,
    {
        proof {
            use_type_invariant(&*self);
        }
        self.memory.as_slice()
    }

    /// The program.
    pub fn code(&self) -> (code: &[Token])
        ensures
            self@.wf(),
            code@ == self@.code,
    {
        proof {
            use_type_invariant(&*self);
        }
        self.code.as_slice()
    }
}

} // verus!
