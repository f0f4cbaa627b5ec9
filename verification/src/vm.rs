//! The execution engine: a fixed-size tape of 8-bit cells, a data pointer,
//! an instruction pointer, and the fetch-decode-execute loop, with lazy
//! bracket matching by linear scan.

use vstd::prelude::*;
use crate::operator::Operator;
use crate::semantics::{
    net_depth, is_match, lemma_net_depth_extend, lemma_net_depth_prepend, lemma_net_depth_concat,
    lemma_match_end_unique, lemma_match_start_unique, ExecState, step, steps,
};

verus! {

/// The fatal error kinds of a run. Each one aborts the run at the point it
/// is discovered; there are no recoverable errors.
#[derive(Debug, Clone, Copy, PartialEq, Eq, Structural)]
pub enum RunError {
    /// A `LoopStart` has no zero-depth `LoopEnd` before the program's end.
    UnbalancedLoopStart,
    /// A `LoopEnd` has no zero-depth `LoopStart` before address 0.
    UnbalancedLoopEnd,
    /// An `Input` instruction executed with the input source exhausted.
    InputExhausted,
}

/// How a run that stayed within its step budget ended.
#[derive(Debug, Clone, Copy, PartialEq, Eq, Structural)]
pub enum RunStatus {
    /// The instruction pointer ran past the end of the program.
    Halted,
    /// The step budget was spent with the program still running.
    StepLimitReached,
}

/// What a finished call of the dispatch loop means, as one predicate over
/// the program, the starting state and what is observable afterwards: the
/// final tape, data pointer and instruction pointer, the input bytes not
/// yet consumed, the bytes emitted, the step budget and the result.
///
/// Each arm pins the outcome to the small-step semantics: stepping from
/// the starting state within the budget reaches exactly the observed
/// state, and an error is returned precisely when the next step fails
/// with it.
pub open spec fn run_post(
    program: Seq<Operator>,
    size: int,
    init: ExecState,
    tape: Seq<u8>,
    dp: int,
    ip: int,
    input_rest: Seq<u8>,
    emitted: Seq<u8>,
    max_steps: u64,
    r: Result<RunStatus, RunError>,
) -> bool {
    let fin = ExecState { tape, dp, ip, input: input_rest, output: emitted };
    match r {
        Ok(RunStatus::Halted) => exists|n: nat|
            #![auto]
            {
                &&& n <= max_steps
                &&& steps(program, size, init, n) == Ok::<ExecState, RunError>(fin)
                &&& ip >= program.len()
            },
        Ok(RunStatus::StepLimitReached) => {
            &&& steps(program, size, init, max_steps as nat) == Ok::<ExecState, RunError>(fin)
            &&& ip < program.len()
        },
        Err(e) => exists|n: nat|
            #![auto]
            {
                &&& n < max_steps
                &&& steps(program, size, init, n) == Ok::<ExecState, RunError>(fin)
                &&& step(program, size, fin) == Err::<ExecState, RunError>(e)
            },
    }
}

/// The execution engine: a tape of `MEM_SIZE` 8-bit cells, a data pointer
/// and an instruction pointer. Created fresh per run and mutated only by
/// its own dispatch loop.
pub struct VM<const MEM_SIZE: usize> {
    /// Index of the active cell, always in `[0, MEM_SIZE)`.
    pub memory_pointer: usize,
    /// Address of the next instruction to execute.
    pub instruction_pointer: usize,
    /// The tape, `MEM_SIZE` cells long.
    pub memory: Vec<u8>,
}

impl<const MEM_SIZE: usize> VM<MEM_SIZE> {
    /// Well-formedness: the tape has its fixed length and the data pointer
    /// is on it.
    pub open spec fn wf(self) -> bool {
        &&& self.memory@.len() == MEM_SIZE
        &&& self.memory_pointer < MEM_SIZE
    }

    /// The semantic state this engine is in, given the input bytes not yet
    /// consumed and the output bytes emitted so far.
    pub open spec fn state(self, input: Seq<u8>, output: Seq<u8>) -> ExecState {
        ExecState {
            tape: self.memory@,
            dp: self.memory_pointer as int,
            ip: self.instruction_pointer as int,
            input: input,
            output: output,
        }
    }

    /// A fresh engine: every cell zero, both pointers at zero.
    pub fn new() -> (vm: VM<MEM_SIZE>)
        requires
            MEM_SIZE >= 1,
        ensures
            vm.wf(),
            vm.memory@ == Seq::new(MEM_SIZE as nat, |i: int| 0u8),
            vm.memory_pointer == 0,
            vm.instruction_pointer == 0,
    {
        let mut memory: Vec<u8> = Vec::new();
        while memory.len() < MEM_SIZE
            invariant
                memory@.len() <= MEM_SIZE,
                forall|i: int| 0 <= i < memory@.len() ==> memory@[i] == 0u8,
            decreases MEM_SIZE - memory@.len(),
        {
            memory.push(0u8);
        }
        proof {
            assert(memory@ =~= Seq::new(MEM_SIZE as nat, |i: int| 0u8));
        }
        VM { memory_pointer: 0, instruction_pointer: 0, memory }
    }

    /// Interpret `program` against this engine's state for at most
    /// `max_steps` instructions, reading bytes from `input` starting at
    /// `*input_pos` (which advances past what was consumed) and appending
    /// emitted bytes to `output`.
    ///
    /// The result is exactly what the small-step semantics says: the
    /// engine's final state, the bytes appended to `output` and the bytes
    /// consumed from `input` are those of `steps` from the starting state,
    /// and an error is returned precisely when the semantics fails with
    /// that error within the budget.
    pub fn run(
        &mut self,
        program: &Vec<Operator>,
        input: &Vec<u8>,
        input_pos: &mut usize,
        output: &mut Vec<u8>,
        max_steps: u64,
    ) -> (r: Result<RunStatus, RunError>)
        requires
            old(self).wf(),
            *old(input_pos) <= input@.len(),
        ensures
            final(self).wf(),
            *old(input_pos) <= *final(input_pos) <= input@.len(),
            old(output)@.is_prefix_of(final(output)@),
            run_post(
                program@,
                MEM_SIZE as int,
                old(self).state(input@.skip(*old(input_pos) as int), Seq::<u8>::empty()),
                final(self).memory@,
                final(self).memory_pointer as int,
                final(self).instruction_pointer as int,
                input@.skip(*final(input_pos) as int),
                final(output)@.skip(old(output)@.len() as int),
                max_steps,
                r,
            ),
    {
        let ghost size = MEM_SIZE as int;
        let ghost init = self.state(input@.skip(*input_pos as int), Seq::<u8>::empty());
        let ghost base_out = output@;
        let ghost base_in = *input_pos;
        let p_len = program.len();
        let mut steps_done: u64 = 0;

        proof {
            assert(output@.skip(base_out.len() as int) =~= Seq::<u8>::empty());
        }
        while self.instruction_pointer < p_len && steps_done < max_steps
            invariant
                size == MEM_SIZE as int,
                p_len == program@.len(),
                self.memory@.len() == MEM_SIZE,
                self.memory_pointer < MEM_SIZE,
                base_in == *old(input_pos),
                base_in <= *input_pos <= input@.len(),
                steps_done <= max_steps,
                base_out == old(output)@,
                base_out.is_prefix_of(output@),
                init == old(self).state(input@.skip(base_in as int), Seq::<u8>::empty()),
                steps(program@, size, init, steps_done as nat) == Ok::<ExecState, RunError>(
                    self.state(
                        input@.skip(*input_pos as int),
                        output@.skip(base_out.len() as int),
                    ),
                ),
            decreases max_steps - steps_done,
        {
            let ghost cur = self.state(
                input@.skip(*input_pos as int),
                output@.skip(base_out.len() as int),
            );
            let op = program[self.instruction_pointer];
            match op {
                Operator::IncrementPointer => {
                    self.memory_pointer = if self.memory_pointer + 1 == MEM_SIZE {
                        0
                    } else {
                        self.memory_pointer + 1
                    };
                },
                Operator::DecrementPointer => {
                    self.memory_pointer = if self.memory_pointer == 0 {
                        MEM_SIZE - 1
                    } else {
                        self.memory_pointer - 1
                    };
                },
                Operator::IncrementCell => {
                    let v = self.memory[self.memory_pointer];
                    self.memory[self.memory_pointer] = if v == 255 {
                        0
                    } else {
                        v + 1
                    };
                },
                Operator::DecrementCell => {
                    let v = self.memory[self.memory_pointer];
                    self.memory[self.memory_pointer] = if v == 0 {
                        255
                    } else {
                        v - 1
                    };
                },
                Operator::Output => {
                    let v = self.memory[self.memory_pointer];
                    output.push(v);
                    proof {
                        assert(output@.skip(base_out.len() as int) =~= cur.output.push(v));
                    }
                },
                Operator::Input => {
                    if *input_pos == input.len() {
                        proof {
                            assert(cur.input.len() == 0);
                            assert(step(program@, size, cur) == Err::<ExecState, RunError>(
                                RunError::InputExhausted,
                            ));
                        }
                        return Err(RunError::InputExhausted);
                    }
                    let byte = input[*input_pos];
                    self.memory[self.memory_pointer] = byte;
                    *input_pos = *input_pos + 1;
                    proof {
                        assert(input@.skip(*input_pos as int) =~= cur.input.skip(1));
                        assert(cur.input[0] == byte);
                    }
                },
                Operator::LoopStart => {
                    let v = self.memory[self.memory_pointer];
                    if v == 0 {
                        match find_next_loop_end_address(self.instruction_pointer, program) {
                            Some(end_address) => {
                                proof {
                                    assert(is_match(program@, cur.ip, end_address as int));
                                    let chosen = choose|x: int| is_match(program@, cur.ip, x);
                                    lemma_match_end_unique(
                                        program@,
                                        cur.ip,
                                        end_address as int,
                                        chosen,
                                    );
                                }
                                self.instruction_pointer = end_address;
                            },
                            None => {
                                proof {
                                    assert(step(program@, size, cur) == Err::<
                                        ExecState,
                                        RunError,
                                    >(RunError::UnbalancedLoopStart));
                                }
                                return Err(RunError::UnbalancedLoopStart);
                            },
                        }
                    }
                },
                Operator::LoopEnd => {
                    let v = self.memory[self.memory_pointer];
                    if v != 0 {
                        if self.instruction_pointer == 0 {
                            proof {
                                assert(forall|a: int| !is_match(program@, a, cur.ip));
                                assert(step(program@, size, cur) == Err::<ExecState, RunError>(
                                    RunError::UnbalancedLoopEnd,
                                ));
                            }
                            return Err(RunError::UnbalancedLoopEnd);
                        }
                        match find_previous_loop_start_address(
                            self.instruction_pointer,
                            program,
                        ) {
                            Some(start_address) => {
                                proof {
                                    assert(is_match(program@, start_address as int, cur.ip));
                                    let chosen = choose|x: int| is_match(program@, x, cur.ip);
                                    lemma_match_start_unique(
                                        program@,
                                        start_address as int,
                                        chosen,
                                        cur.ip,
                                    );
                                }
                                self.instruction_pointer = start_address;
                            },
                            None => {
                                proof {
                                    assert(step(program@, size, cur) == Err::<
                                        ExecState,
                                        RunError,
                                    >(RunError::UnbalancedLoopEnd));
                                }
                                return Err(RunError::UnbalancedLoopEnd);
                            },
                        }
                    }
                },
            }
            self.instruction_pointer = self.instruction_pointer + 1;
            steps_done = steps_done + 1;
            proof {
                let now = self.state(
                    input@.skip(*input_pos as int),
                    output@.skip(base_out.len() as int),
                );
                assert(step(program@, size, cur) == Ok::<ExecState, RunError>(now));
            }
        }
        if self.instruction_pointer >= p_len {
            Ok(RunStatus::Halted)
        } else {
            Ok(RunStatus::StepLimitReached)
        }
    }
}

/// Scan forward from a `LoopStart` for the matching `LoopEnd`: the first
/// later address at which the nesting depth returns to zero. Returns
/// `None` when the scan runs off the end of the program, which the caller
/// reports as an unbalanced bracket.
pub fn find_next_loop_end_address(loop_start_address: usize, program: &Vec<Operator>) -> (r: Option<
    usize,
>)
    requires
        loop_start_address < program@.len(),
        program@[loop_start_address as int] == Operator::LoopStart,
    ensures
        r matches Some(b) ==> is_match(program@, loop_start_address as int, b as int),
        r is None ==> forall|b: int| !is_match(program@, loop_start_address as int, b),
{
    let a = loop_start_address;
    let p_len = program.len();
    let mut ip: usize = a + 1;
    let mut depth: usize = 0;

    while ip < p_len
        invariant
            a == loop_start_address,
            a as int + 1 <= ip as int <= p_len,
            p_len == program@.len(),
            program@[a as int] == Operator::LoopStart,
            depth <= ip - (a + 1),
            depth as int == net_depth(program@.subrange(a as int + 1, ip as int)),
            forall|j: int|
                a as int + 1 <= j <= ip as int ==> net_depth(
                    #[trigger] program@.subrange(a as int + 1, j),
                ) >= 0,
            forall|b: int| a < b < ip ==> !is_match(program@, a as int, b),
        decreases p_len - ip,
    {
        proof {
            lemma_net_depth_extend(program@, a as int + 1, ip as int);
        }
        let op = program[ip];
        match op {
            Operator::LoopEnd => {
                if depth == 0 {
                    proof {
                        let interior = program@.subrange(a as int + 1, ip as int);
                        assert forall|i: int| 0 <= i <= interior.len() implies net_depth(
                            #[trigger] interior.take(i),
                        ) >= 0 by {
                            assert(interior.take(i) =~= program@.subrange(
                                a as int + 1,
                                a as int + 1 + i,
                            ));
                        }
                        assert(is_match(program@, a as int, ip as int));
                    }
                    return Some(ip);
                }
                depth = depth - 1;
            },
            Operator::LoopStart => {
                depth = depth + 1;
            },
            _ => {},
        }
        ip = ip + 1;
    }
    None
}

/// Scan backward from a `LoopEnd` for the matching `LoopStart`: the first
/// earlier address at which the nesting depth returns to zero. Returns
/// `None` when the scan exhausts addresses down to 0, which the caller
/// reports as an unbalanced bracket.
pub fn find_previous_loop_start_address(loop_end_address: usize, program: &Vec<Operator>) -> (r:
    Option<usize>)
    requires
        0 < loop_end_address < program@.len(),
        program@[loop_end_address as int] == Operator::LoopEnd,
    ensures
        r matches Some(a) ==> is_match(program@, a as int, loop_end_address as int),
        r is None ==> forall|a: int| !is_match(program@, a, loop_end_address as int),
{
    let b = loop_end_address;
    let mut ip: usize = b;
    let mut depth: usize = 0;

    while ip > 0
        invariant
            b == loop_end_address,
            ip <= b < program@.len(),
            program@[b as int] == Operator::LoopEnd,
            depth <= b - ip,
            depth as int == -net_depth(program@.subrange(ip as int, b as int)),
            forall|j: int|
                ip as int <= j <= b as int ==> net_depth(
                    #[trigger] program@.subrange(j, b as int),
                ) <= 0,
            forall|a: int| ip <= a < b ==> !is_match(program@, a, b as int),
        decreases ip,
    {
        ip = ip - 1;
        proof {
            lemma_net_depth_prepend(program@, ip as int, b as int);
        }
        let op = program[ip];
        match op {
            Operator::LoopEnd => {
                depth = depth + 1;
            },
            Operator::LoopStart => {
                if depth == 0 {
                    proof {
                        let interior = program@.subrange(ip as int + 1, b as int);
                        assert forall|i: int| 0 <= i <= interior.len() implies net_depth(
                            #[trigger] interior.take(i),
                        ) >= 0 by {
                            let j = ip as int + 1 + i;
                            assert(interior =~= program@.subrange(ip as int + 1, j)
                                + program@.subrange(j, b as int));
                            lemma_net_depth_concat(
                                program@.subrange(ip as int + 1, j),
                                program@.subrange(j, b as int),
                            );
                            assert(interior.take(i) =~= program@.subrange(ip as int + 1, j));
                        }
                        assert(is_match(program@, ip as int, b as int));
                    }
                    return Some(ip);
                }
                depth = depth - 1;
            },
            _ => {},
        }
    }
    None
}

} // verus!
