//! The translator from source text to instructions: each of the eight
//! recognized characters maps to its operator, every other character is
//! silently discarded, and the relative order of recognized characters is
//! preserved.

use vstd::prelude::*;
use vstd::string::StrSliceExecFns;
use crate::operator::Operator;

verus! {

/// The operator a source character stands for, or `None` for the
/// characters the translator discards.
pub open spec fn op_of_char(c: char) -> Option<Operator> {
    match c {
        '<' => Some(Operator::DecrementPointer),
        '>' => Some(Operator::IncrementPointer),
        '-' => Some(Operator::DecrementCell),
        '+' => Some(Operator::IncrementCell),
        '.' => Some(Operator::Output),
        ',' => Some(Operator::Input),
        '[' => Some(Operator::LoopStart),
        ']' => Some(Operator::LoopEnd),
        _ => None,
    }
}

/// The program a piece of source text translates to: the operators of its
/// recognized characters, in source order.
pub open spec fn parse_chars(s: Seq<char>) -> Seq<Operator>
    decreases s.len(),
{
    if s.len() == 0 {
        Seq::<Operator>::empty()
    } else {
        match op_of_char(s.last()) {
            Some(op) => parse_chars(s.drop_last()).push(op),
            None => parse_chars(s.drop_last()),
        }
    }
}

/// Maps one source character to its operator, or to `None` when the
/// character is not one of the eight recognized symbols.
fn char_to_operator(c: char) -> (r: Option<Operator>)
    ensures
        r == op_of_char(c),
{
    match c {
        '<' => Some(Operator::DecrementPointer),
        '>' => Some(Operator::IncrementPointer),
        '-' => Some(Operator::DecrementCell),
        '+' => Some(Operator::IncrementCell),
        '.' => Some(Operator::Output),
        ',' => Some(Operator::Input),
        '[' => Some(Operator::LoopStart),
        ']' => Some(Operator::LoopEnd),
        _ => None,
    }
}

/// The source-text translator. It holds no state: translation is a pure
/// function of the text.
pub struct Parser {}

impl Parser {
    /// A new translator.
    pub fn new() -> Parser {
        Parser {}
    }

    /// Translate source text into a program: one operator per recognized
    /// character, in source order, every other character discarded.
    pub fn run(&self, source: String) -> (program: Vec<Operator>)
        ensures
            program@ == parse_chars(source@),
    {
        let mut program: Vec<Operator> = Vec::new();
        let text = source.as_str();
        let n = text.unicode_len();
        let mut i: usize = 0;

        proof {
            assert(source@.take(0) =~= Seq::<char>::empty());
        }
        while i < n
            invariant
                n == source@.len(),
                i <= n,
                text@ == source@,
                program@ == parse_chars(source@.take(i as int)),
            decreases n - i,
        {
            let c = text.get_char(i);
            proof {
                assert(source@.take(i as int + 1).drop_last() =~= source@.take(i as int));
                assert(source@.take(i as int + 1).last() == source@[i as int]);
            }
            match char_to_operator(c) {
                Some(op) => program.push(op),
                None => {},
            }
            i = i + 1;
        }
        proof {
            assert(source@.take(n as int) =~= source@);
        }
        program
    }
}

} // verus!
