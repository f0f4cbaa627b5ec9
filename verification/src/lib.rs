//! A minimal virtual machine for an 8-instruction tape-and-pointer language.
//!
//! A [`Parser`](parser::Parser) turns source text into a sequence of
//! [`Operator`](operator::Operator)s, and a [`VM`](vm::VM) interprets that
//! sequence against a fixed-size tape of 8-bit cells, with wrap-around
//! pointer and cell arithmetic and lazy, scan-based bracket matching.

use vstd::prelude::*;

pub mod operator;
pub mod parser;
pub mod semantics;
pub mod vm;

use crate::parser::{Parser, parse_chars};
use crate::vm::{VM, RunError, RunStatus, run_post};

verus! {

/// The interpreter as one piece: a translator in front of an execution
/// engine with a tape of 32768 cells.
pub struct Brainfuck {
    /// Translates source text into a program.
    pub parser: Parser,
    /// Interprets the translated program.
    pub vm: VM<32768>,
}

impl Brainfuck {
    /// A fresh interpreter: every cell zero, both pointers at zero.
    pub fn new() -> (b: Brainfuck)
        ensures
            b.vm.wf(),
            b.vm.memory@ == Seq::new(32768, |i: int| 0u8),
            b.vm.memory_pointer == 0,
            b.vm.instruction_pointer == 0,
    {
        Brainfuck { parser: Parser::new(), vm: VM::new() }
    }

    /// Translate `source` and interpret the resulting program for at most
    /// `max_steps` instructions, reading bytes from `input` starting at
    /// `*input_pos` and appending emitted bytes to `output`. The outcome
    /// is exactly that of the small-step semantics on the translated
    /// program.
    pub fn run(
        &mut self,
        source: String,
        input: &Vec<u8>,
        input_pos: &mut usize,
        output: &mut Vec<u8>,
        max_steps: u64,
    ) -> (r: Result<RunStatus, RunError>)
        requires
            old(self).vm.wf(),
            *old(input_pos) <= input@.len(),
        ensures
            final(self).vm.wf(),
            *old(input_pos) <= *final(input_pos) <= input@.len(),
            old(output)@.is_prefix_of(final(output)@),
            run_post(
                parse_chars(source@),
                32768,
                old(self).vm.state(input@.skip(*old(input_pos) as int), Seq::<u8>::empty()),
                final(self).vm.memory@,
                final(self).vm.memory_pointer as int,
                final(self).vm.instruction_pointer as int,
                input@.skip(*final(input_pos) as int),
                final(output)@.skip(old(output)@.len() as int),
                max_steps,
                r,
            ),
    {
        let instructions = self.parser.run(source);
        self.vm.run(&instructions, input, input_pos, output, max_steps)
    }
}

} // verus!
