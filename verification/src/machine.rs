//! The mathematical model of the machine: its state, the effect of one
//! instruction, and the effect of running until the program ends.
//!
//! Everything here is ghost code. The executable engine in [`crate::cpu`] is
//! proved to follow it step for step.

use vstd::prelude::*;
use crate::bracket::{balanced, closer_of, opener_of};
use crate::bracket::{
    lemma_balanced_closer_resolves, lemma_balanced_opener_resolves, lemma_partner_is_match,
};
use crate::token::Token;

verus! {

/// Number of cells on the tape of a freshly built machine.
pub const DEFAULT_MEM_SIZE: usize = 30_000;

/// A condition that ends a run abnormally. None of them is recoverable.
#[derive(Debug, Clone, Copy, PartialEq, Eq, Structural)]
pub enum Fault {
    /// The data pointer would move to or past the end of the tape.
    TapeOverflow,
    /// The data pointer would move below cell zero.
    TapeUnderflow,
    /// A jump was taken whose partner does not exist in the program.
    UnmatchedBracket,
}

/// Where the instruction pointer goes after an instruction.
#[derive(Debug, Clone, Copy, PartialEq, Eq, Structural)]
pub enum Flow {
    /// On to the next instruction.
    Advance,
    /// To the given position, without advancing past it.
    JumpTo(usize),
}

/// Why a run stopped.
#[derive(Debug, Clone, Copy, PartialEq, Eq, Structural)]
pub enum Exit {
    /// The instruction pointer ran past the end of the program.
    Finished,
    /// The step budget ran out before the program ended.
    Suspended,
    /// An instruction failed; the machine is left as it was before it.
    Aborted(Fault),
}

/// The cell value after `+`: one more, modulo 256.
pub open spec fn wrap_inc(v: u8) -> u8 {
    ((v + 1) % 256) as u8
}

/// The cell value after `-`: one less, modulo 256.
pub open spec fn wrap_dec(v: u8) -> u8 {
    ((v + 255) % 256) as u8
}

/// The cell value after `n` increments.
pub open spec fn wrap_inc_times(v: u8, n: nat) -> u8
    decreases n,
{
    if n == 0 {
        v
    } else {
        wrap_inc(wrap_inc_times(v, (n - 1) as nat))
    }
}

/// The cell value after `n` decrements.
pub open spec fn wrap_dec_times(v: u8, n: nat) -> u8
    decreases n,
{
    if n == 0 {
        v
    } else {
        wrap_dec(wrap_dec_times(v, (n - 1) as nat))
    }
}

/// The state of a machine: its program, its tape, and its two pointers.
pub struct Machine {
    /// The program; never changes during a run.
    pub code: Seq<Token>,
    /// The tape, one byte per cell.
    pub tape: Seq<u8>,
    /// Position in `code` of the next instruction to execute.
    pub ip: int,
    /// Position in `tape` of the current cell.
    pub dp: int,
}

/// What a run has done by the time it stops.
pub struct Trace {
    /// The machine as the run left it.
    pub machine: Machine,
    /// The bytes emitted, in order.
    pub output: Seq<u8>,
    /// How many bytes of the input were read.
    pub consumed: nat,
    /// Why the run stopped.
    pub exit: Exit,
}

impl Trace {
    /// This trace as the continuation of a run that had already emitted
    /// `output` and read `consumed` bytes.
    pub open spec fn after(self, output: Seq<u8>, consumed: nat) -> Trace {
        Trace {
            machine: self.machine,
            output: output + self.output,
            consumed: consumed + self.consumed,
            exit: self.exit,
        }
    }
}

impl Machine {
    /// The machine as built for `code`: tape of the default size, all cells
    /// zero, both pointers at zero.
    pub open spec fn boot(code: Seq<Token>) -> Machine {
        Machine { code, tape: Seq::new(DEFAULT_MEM_SIZE as nat, |i: int| 0u8), ip: 0, dp: 0 }
    }

    /// The data pointer selects a cell, and the instruction pointer is inside
    /// the program or just past its end.
    pub open spec fn wf(self) -> bool {
        &&& 0 <= self.ip <= self.code.len()
        &&& 0 <= self.dp < self.tape.len()
    }

    /// The instruction pointer is past the end of the program.
    pub open spec fn halted(self) -> bool {
        self.ip >= self.code.len()
    }

    /// The instruction about to be executed.
    pub open spec fn fetch(self) -> Token
        recommends
            0 <= self.ip < self.code.len(),
    {
        self.code[self.ip]
    }

    /// The value of the current cell.
    pub open spec fn cell(self) -> u8
        recommends
            0 <= self.dp < self.tape.len(),
    {
        self.tape[self.dp]
    }

    /// The next instruction reads a byte of input.
    pub open spec fn awaits_input(self) -> bool {
        !self.halted() && self.fetch() == Token::GetInput
    }

    /// This machine with the current cell set to `v`.
    pub open spec fn with_cell(self, v: u8) -> Machine {
        Machine { tape: self.tape.update(self.dp, v), ..self }
    }

    /// This machine with the data pointer at `dp`.
    pub open spec fn with_dp(self, dp: int) -> Machine {
        Machine { dp, ..self }
    }

    /// This machine with the instruction pointer at `ip`.
    pub open spec fn with_ip(self, ip: int) -> Machine {
        Machine { ip, ..self }
    }

    /// Where a `[` at the instruction pointer sends control: on to the next
    /// instruction while the current cell is not zero, else to its `]`.
    pub open spec fn forward_target(self) -> Result<int, Fault> {
        if self.cell() != 0 {
            Ok(self.ip + 1)
        } else {
            match closer_of(self.code, self.ip) {
                Some(j) => Ok(j),
                None => Err(Fault::UnmatchedBracket),
            }
        }
    }

    /// Where a `]` at the instruction pointer sends control: on to the next
    /// instruction while the current cell is zero, else to its `[`.
    pub open spec fn backward_target(self) -> Result<int, Fault> {
        if self.cell() == 0 {
            Ok(self.ip + 1)
        } else {
            match opener_of(self.code, self.ip) {
                Some(i) => Ok(i),
                None => Err(Fault::UnmatchedBracket),
            }
        }
    }

    /// The effect of executing the instruction at the instruction pointer.
    ///
    /// `input` is what the input source yields when asked for a byte: `None`
    /// when it is exhausted. It matters only to `,`. The result is the next
    /// state and the byte emitted, if any, or the fault that stops the run. A
    /// halted machine stays as it is.
    pub open spec fn step(self, input: Option<u8>) -> Result<(Machine, Option<u8>), Fault> {
        if self.halted() {
            Ok((self, None))
        } else {
            match self.fetch() {
                Token::IncDataPtr => if self.dp + 1 < self.tape.len() {
                    Ok((self.with_dp(self.dp + 1).with_ip(self.ip + 1), None))
                } else {
                    Err(Fault::TapeOverflow)
                },
                Token::DecDataPtr => if self.dp > 0 {
                    Ok((self.with_dp(self.dp - 1).with_ip(self.ip + 1), None))
                } else {
                    Err(Fault::TapeUnderflow)
                },
                Token::IncValue => Ok(
                    (self.with_cell(wrap_inc(self.cell())).with_ip(self.ip + 1), None),
                ),
                Token::DecValue => Ok(
                    (self.with_cell(wrap_dec(self.cell())).with_ip(self.ip + 1), None),
                ),
                Token::Output => Ok((self.with_ip(self.ip + 1), Some(self.cell()))),
                Token::GetInput => match input {
                    Some(byte) => Ok((self.with_cell(byte).with_ip(self.ip + 1), None)),
                    None => Ok((self.with_ip(self.ip + 1), None)),
                },
                Token::JumpForward => match self.forward_target() {
                    Ok(target) => Ok((self.with_ip(target), None)),
                    Err(fault) => Err(fault),
                },
                Token::JumpBackward => match self.backward_target() {
                    Ok(target) => Ok((self.with_ip(target), None)),
                    Err(fault) => Err(fault),
                },
            }
        }
    }

    /// The effect of running for at most `budget` steps on the given input.
    ///
    /// Each `,` takes the next unread byte of `input`, or finds the source
    /// exhausted once all of it is read. The run stops when the program ends,
    /// when an instruction faults, or when the budget is spent.
    pub open spec fn run(self, input: Seq<u8>, budget: nat) -> Trace
        decreases budget,
    {
        if self.halted() {
            Trace { machine: self, output: Seq::empty(), consumed: 0, exit: Exit::Finished }
        } else if budget == 0 {
            Trace { machine: self, output: Seq::empty(), consumed: 0, exit: Exit::Suspended }
        } else {
            let feed = self.awaits_input() && input.len() > 0;
            let event = if feed {
                Some(input[0])
            } else {
                None
            };
            let unread = if feed {
                input.drop_first()
            } else {
                input
            };
            match self.step(event) {
                Err(fault) => Trace {
                    machine: self,
                    output: Seq::empty(),
                    consumed: 0,
                    exit: Exit::Aborted(fault),
                },
                Ok((next, emitted)) => next.run(unread, (budget - 1) as nat).after(
                    match emitted {
                        Some(byte) => seq![byte],
                        None => Seq::empty(),
                    },
                    if feed {
                        1
                    } else {
                        0
                    },
                ),
            }
        }
    }
}

/// `n` increments add `n` modulo 256.
pub proof fn lemma_wrap_inc_times(v: u8, n: nat)
    ensures
        wrap_inc_times(v, n) == (v + n) % 256,
    decreases n,
{
    if n > 0 {
        lemma_wrap_inc_times(v, (n - 1) as nat);
    }
}

/// `n` decrements add `255 * n` modulo 256.
pub proof fn lemma_wrap_dec_times(v: u8, n: nat)
    ensures
        wrap_dec_times(v, n) == (v + 255 * n) % 256,
    decreases n,
{
    if n > 0 {
        lemma_wrap_dec_times(v, (n - 1) as nat);
    }
}

/// Incrementing a cell 256 times returns it to its value, and so does
/// decrementing it 256 times.
pub proof fn lemma_wrapping_law(v: u8)
    ensures
        wrap_inc_times(v, 256) == v,
        wrap_dec_times(v, 256) == v,
{
    lemma_wrap_inc_times(v, 256);
    lemma_wrap_dec_times(v, 256);
}

/// A decrement undoes an increment, and an increment undoes a decrement.
pub proof fn lemma_wrap_inverse(v: u8)
    ensures
        wrap_dec(wrap_inc(v)) == v,
        wrap_inc(wrap_dec(v)) == v,
{
}

/// One step keeps the program and the length of the tape, and leaves the
/// data pointer on the tape and the instruction pointer inside the program or
/// just past its end.
pub proof fn lemma_step_preserves_wf(m: Machine, input: Option<u8>)
    requires
        m.wf(),
        m.step(input) is Ok,
    ensures
        m.step(input)->Ok_0.0.wf(),
        m.step(input)->Ok_0.0.code == m.code,
        m.step(input)->Ok_0.0.tape.len() == m.tape.len(),
{
    if !m.halted() {
        match m.fetch() {
            Token::JumpForward => {
                if m.cell() == 0 {
                    let j = closer_of(m.code, m.ip)->0;
                    lemma_partner_is_match(m.code, m.ip, j);
                }
            },
            Token::JumpBackward => {
                if m.cell() != 0 {
                    let i = opener_of(m.code, m.ip)->0;
                    lemma_partner_is_match(m.code, i, m.ip);
                }
            },
            _ => {},
        }
    }
}

/// The tape has hard edges: `<` on cell zero always faults with an
/// underflow and `>` on the last cell always faults with an overflow,
/// whatever the rest of the state; anywhere else the two succeed.
pub proof fn lemma_tape_edges_fault(m: Machine, input: Option<u8>)
    requires
        m.wf(),
        !m.halted(),
    ensures
        m.fetch() == Token::DecDataPtr ==> (m.step(input) is Err <==> m.dp == 0),
        m.fetch() == Token::DecDataPtr && m.dp == 0 ==> m.step(input)->Err_0
            == Fault::TapeUnderflow,
        m.fetch() == Token::IncDataPtr ==> (m.step(input) is Err <==> m.dp == m.tape.len() - 1),
        m.fetch() == Token::IncDataPtr && m.dp == m.tape.len() - 1 ==> m.step(input)->Err_0
            == Fault::TapeOverflow,
{
}

/// A run reads no more input than there is.
pub proof fn lemma_run_consumed_bound(m: Machine, input: Seq<u8>, budget: nat)
    ensures
        m.run(input, budget).consumed <= input.len(),
    decreases budget,
{
    if !m.halted() && budget > 0 {
        let feed = m.awaits_input() && input.len() > 0;
        let event = if feed {
            Some(input[0])
        } else {
            None
        };
        let unread = if feed {
            input.drop_first()
        } else {
            input
        };
        if m.step(event) is Ok {
            lemma_run_consumed_bound(m.step(event)->Ok_0.0, unread, (budget - 1) as nat);
        }
    }
}

/// A run keeps the machine well formed, the program as it is, and the tape
/// at its length.
pub proof fn lemma_run_preserves_wf(m: Machine, input: Seq<u8>, budget: nat)
    requires
        m.wf(),
    ensures
        m.run(input, budget).machine.wf(),
        m.run(input, budget).machine.code == m.code,
        m.run(input, budget).machine.tape.len() == m.tape.len(),
    decreases budget,
{
    if !m.halted() && budget > 0 {
        let feed = m.awaits_input() && input.len() > 0;
        let event = if feed {
            Some(input[0])
        } else {
            None
        };
        let unread = if feed {
            input.drop_first()
        } else {
            input
        };
        if m.step(event) is Ok {
            lemma_step_preserves_wf(m, event);
            lemma_run_preserves_wf(m.step(event)->Ok_0.0, unread, (budget - 1) as nat);
        }
    }
}

/// A run stops for exactly one reason, and the machine shows it: after
/// `Finished` it is halted, after `Suspended` it is not, and after `Aborted`
/// it stands on the instruction that faulted.
pub proof fn lemma_run_exit(m: Machine, input: Seq<u8>, budget: nat)
    ensures
        m.run(input, budget).exit == Exit::Finished <==> m.run(input, budget).machine.halted(),
        m.run(input, budget).exit matches Exit::Aborted(fault) ==> {
            let last = m.run(input, budget).machine;
            &&& !last.halted()
            &&& last.step(None) is Err
            &&& last.step(None)->Err_0 == fault
        },
    decreases budget,
{
    if !m.halted() && budget > 0 {
        let feed = m.awaits_input() && input.len() > 0;
        let event = if feed {
            Some(input[0])
        } else {
            None
        };
        let unread = if feed {
            input.drop_first()
        } else {
            input
        };
        if m.step(event) is Ok {
            lemma_run_exit(m.step(event)->Ok_0.0, unread, (budget - 1) as nat);
        }
    }
}

/// In a balanced program every jump that is taken has its partner: a step
/// never faults with an unmatched bracket.
pub proof fn lemma_balanced_step_resolves(m: Machine, input: Option<u8>)
    requires
        m.wf(),
        balanced(m.code),
    ensures
        m.step(input) is Err ==> m.step(input)->Err_0 != Fault::UnmatchedBracket,
{
    if !m.halted() {
        match m.fetch() {
            Token::JumpForward => {
                lemma_balanced_opener_resolves(m.code, m.ip);
            },
            Token::JumpBackward => {
                lemma_balanced_closer_resolves(m.code, m.ip);
            },
            _ => {},
        }
    }
}

/// A run of a balanced program never stops on an unmatched bracket.
pub proof fn lemma_balanced_run_resolves(m: Machine, input: Seq<u8>, budget: nat)
    requires
        m.wf(),
        balanced(m.code),
    ensures
        m.run(input, budget).exit != Exit::Aborted(Fault::UnmatchedBracket),
    decreases budget,
{
    if !m.halted() && budget > 0 {
        let feed = m.awaits_input() && input.len() > 0;
        let event = if feed {
            Some(input[0])
        } else {
            None
        };
        let unread = if feed {
            input.drop_first()
        } else {
            input
        };
        lemma_balanced_step_resolves(m, event);
        if m.step(event) is Ok {
            lemma_step_preserves_wf(m, event);
            lemma_balanced_run_resolves(m.step(event)->Ok_0.0, unread, (budget - 1) as nat);
        }
    }
}

/// The budget only bounds a run: once a run has stopped for another reason
/// than the budget, a larger budget gives the same result.
pub proof fn lemma_run_budget_monotone(m: Machine, input: Seq<u8>, budget: nat, more: nat)
    requires
        m.run(input, budget).exit != Exit::Suspended,
        budget <= more,
    ensures
        m.run(input, more) == m.run(input, budget),
    decreases budget,
{
    if !m.halted() {
        let feed = m.awaits_input() && input.len() > 0;
        let event = if feed {
            Some(input[0])
        } else {
            None
        };
        let unread = if feed {
            input.drop_first()
        } else {
            input
        };
        if m.step(event) is Ok {
            lemma_run_budget_monotone(
                m.step(event)->Ok_0.0,
                unread,
                (budget - 1) as nat,
                (more - 1) as nat,
            );
        }
    }
}

/// A suspended run can be resumed: running on from where it stopped, on the
/// input it left unread, does what one run with the two budgets together
/// does.
pub proof fn lemma_run_resume(m: Machine, input: Seq<u8>, first: nat, second: nat)
    requires
        m.run(input, first).exit == Exit::Suspended,
    ensures
        m.run(input, first + second) == m.run(input, first).machine.run(
            input.skip(m.run(input, first).consumed as int),
            second,
        ).after(m.run(input, first).output, m.run(input, first).consumed),
    decreases first,
{
    let head = m.run(input, first);
    if first == 0 {
        let tail = m.run(input, second);
        assert(input.skip(0) =~= input);
        assert(tail.after(Seq::empty(), 0) =~= tail);
    } else {
        let feed = m.awaits_input() && input.len() > 0;
        let event = if feed {
            Some(input[0])
        } else {
            None
        };
        let unread = if feed {
            input.drop_first()
        } else {
            input
        };
        let fed: nat = if feed {
            1
        } else {
            0
        };
        let next = m.step(event)->Ok_0.0;
        let chunk = match m.step(event)->Ok_0.1 {
            Some(byte) => seq![byte],
            None => Seq::<u8>::empty(),
        };
        let inner = next.run(unread, (first - 1) as nat);
        lemma_run_resume(next, unread, (first - 1) as nat, second);
        lemma_run_consumed_bound(next, unread, (first - 1) as nat);
        let tail = inner.machine.run(unread.skip(inner.consumed as int), second);
        assert(input.skip(head.consumed as int) =~= unread.skip(inner.consumed as int));
        assert(chunk + (inner.output + tail.output) =~= (chunk + inner.output) + tail.output);
        assert(m.run(input, first + second) == next.run(
            unread,
            (first + second - 1) as nat,
        ).after(chunk, fed));
    }
}

} // verus!
