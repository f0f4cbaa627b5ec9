//! The mathematical model of the machine: nesting depth of bracket
//! sequences, the matching relation between loop boundaries, the per-cell
//! and per-pointer wrap-around arithmetic, and the small-step semantics
//! that the execution engine is proved against.

use vstd::prelude::*;
use crate::operator::Operator;
use crate::vm::RunError;

verus! {

/// The machine state the semantics speaks of: the tape, the two pointers,
/// the input bytes not yet consumed and the output bytes emitted so far.
pub struct ExecState {
    /// The memory tape, one entry per 8-bit cell.
    pub tape: Seq<u8>,
    /// The data pointer: which cell is active.
    pub dp: int,
    /// The instruction pointer: which program address runs next.
    pub ip: int,
    /// The input bytes that have not been consumed yet.
    pub input: Seq<u8>,
    /// The output bytes emitted so far, oldest first.
    pub output: Seq<u8>,
}

/// Well-formedness of a machine state over a tape of `size` cells.
pub open spec fn state_inv(s: ExecState, size: int) -> bool {
    &&& s.tape.len() == size
    &&& 0 <= s.dp < size
    &&& 0 <= s.ip
}

/// One step of the machine: the effect of the instruction at the current
/// instruction pointer, including the unconditional advance past it.
/// Loop jumps land one past the matching bracket, which is the jump to the
/// bracket's own address followed by that advance.
pub open spec fn step(p: Seq<Operator>, size: int, s: ExecState) -> Result<ExecState, RunError>
    recommends
        state_inv(s, size),
        0 <= s.ip < p.len(),
{
    match p[s.ip] {
        Operator::IncrementPointer => Ok(
            ExecState { dp: ptr_inc(s.dp, size), ip: s.ip + 1, ..s },
        ),
        Operator::DecrementPointer => Ok(
            ExecState { dp: ptr_dec(s.dp, size), ip: s.ip + 1, ..s },
        ),
        Operator::IncrementCell => Ok(
            ExecState { tape: s.tape.update(s.dp, cell_inc(s.tape[s.dp])), ip: s.ip + 1, ..s },
        ),
        Operator::DecrementCell => Ok(
            ExecState { tape: s.tape.update(s.dp, cell_dec(s.tape[s.dp])), ip: s.ip + 1, ..s },
        ),
        Operator::Output => Ok(
            ExecState { output: s.output.push(s.tape[s.dp]), ip: s.ip + 1, ..s },
        ),
        Operator::Input => if s.input.len() == 0 {
            Err(RunError::InputExhausted)
        } else {
            Ok(
                ExecState {
                    tape: s.tape.update(s.dp, s.input[0]),
                    input: s.input.skip(1),
                    ip: s.ip + 1,
                    ..s
                },
            )
        },
        Operator::LoopStart => if s.tape[s.dp] == 0 {
            if exists|b: int| is_match(p, s.ip, b) {
                Ok(ExecState { ip: (choose|b: int| is_match(p, s.ip, b)) + 1, ..s })
            } else {
                Err(RunError::UnbalancedLoopStart)
            }
        } else {
            Ok(ExecState { ip: s.ip + 1, ..s })
        },
        Operator::LoopEnd => if s.tape[s.dp] != 0 {
            if exists|a: int| is_match(p, a, s.ip) {
                Ok(ExecState { ip: (choose|a: int| is_match(p, a, s.ip)) + 1, ..s })
            } else {
                Err(RunError::UnbalancedLoopEnd)
            }
        } else {
            Ok(ExecState { ip: s.ip + 1, ..s })
        },
    }
}

/// The machine after `n` steps from `s`. A state whose instruction pointer
/// has run past the program is final and absorbing; an error is absorbing
/// too.
pub open spec fn steps(p: Seq<Operator>, size: int, s: ExecState, n: nat) -> Result<
    ExecState,
    RunError,
>
    decreases n,
{
    if n == 0 {
        Ok(s)
    } else {
        match steps(p, size, s, (n - 1) as nat) {
            Ok(s1) => if s1.ip < p.len() {
                step(p, size, s1)
            } else {
                Ok(s1)
            },
            Err(e) => Err(e),
        }
    }
}

/// How one instruction changes the bracket-nesting depth: `LoopStart`
/// opens a level, `LoopEnd` closes one, everything else leaves it alone.
pub open spec fn depth_change(op: Operator) -> int {
    match op {
        Operator::LoopStart => 1,
        Operator::LoopEnd => -1,
        _ => 0,
    }
}

/// Net nesting depth of a whole sequence: opening brackets minus closing
/// brackets.
pub open spec fn net_depth(s: Seq<Operator>) -> int
    decreases s.len(),
{
    if s.len() == 0 {
        0
    } else {
        net_depth(s.drop_last()) + depth_change(s.last())
    }
}

/// A sequence is balanced when its net depth is zero and no prefix closes
/// more brackets than it has opened.
pub open spec fn balanced(s: Seq<Operator>) -> bool {
    &&& net_depth(s) == 0
    &&& forall|i: int| 0 <= i <= s.len() ==> #[trigger] net_depth(s.take(i)) >= 0
}

/// Addresses `a` and `b` are a matching `LoopStart`/`LoopEnd` pair of
/// program `p`: the text strictly between them is balanced.
pub open spec fn is_match(p: Seq<Operator>, a: int, b: int) -> bool {
    &&& 0 <= a < b < p.len()
    &&& p[a] == Operator::LoopStart
    &&& p[b] == Operator::LoopEnd
    &&& balanced(p.subrange(a + 1, b))
}

/// Net depth distributes over concatenation.
pub proof fn lemma_net_depth_concat(s1: Seq<Operator>, s2: Seq<Operator>)
    ensures
        net_depth(s1 + s2) == net_depth(s1) + net_depth(s2),
    decreases s2.len(),
{
    if s2.len() == 0 {
        assert(s1 + s2 =~= s1);
    } else {
        assert((s1 + s2).drop_last() =~= s1 + s2.drop_last());
        assert((s1 + s2).last() == s2.last());
        lemma_net_depth_concat(s1, s2.drop_last());
    }
}

/// Extending a subrange by one element on the right adds that element's
/// depth change.
pub proof fn lemma_net_depth_extend(p: Seq<Operator>, lo: int, i: int)
    requires
        0 <= lo <= i < p.len(),
    ensures
        net_depth(p.subrange(lo, i + 1)) == net_depth(p.subrange(lo, i)) + depth_change(p[i]),
{
    assert(p.subrange(lo, i + 1).drop_last() =~= p.subrange(lo, i));
    assert(p.subrange(lo, i + 1).last() == p[i]);
}

/// Extending a subrange by one element on the left adds that element's
/// depth change.
pub proof fn lemma_net_depth_prepend(p: Seq<Operator>, i: int, hi: int)
    requires
        0 <= i < hi <= p.len(),
    ensures
        net_depth(p.subrange(i, hi)) == depth_change(p[i]) + net_depth(p.subrange(i + 1, hi)),
{
    assert(p.subrange(i, hi) =~= p.subrange(i, i + 1) + p.subrange(i + 1, hi));
    lemma_net_depth_concat(p.subrange(i, i + 1), p.subrange(i + 1, hi));
    assert(p.subrange(i, i + 1).drop_last() =~= Seq::<Operator>::empty());
    assert(net_depth(Seq::<Operator>::empty()) == 0);
    assert(p.subrange(i, i + 1).last() == p[i]);
    assert(net_depth(p.subrange(i, i + 1)) == depth_change(p[i]));
}

/// The value of an 8-bit cell after one increment: `(v + 1) mod 256`.
pub open spec fn cell_inc(v: u8) -> u8 {
    if v == 255 {
        0
    } else {
        (v + 1) as u8
    }
}

/// The value of an 8-bit cell after one decrement: `(v - 1) mod 256`.
pub open spec fn cell_dec(v: u8) -> u8 {
    if v == 0 {
        255
    } else {
        (v - 1) as u8
    }
}

/// The data pointer after one step right: `(dp + 1) mod size`.
pub open spec fn ptr_inc(dp: int, size: int) -> int {
    if dp + 1 == size {
        0
    } else {
        dp + 1
    }
}

/// The data pointer after one step left: `(dp - 1) mod size`, as a true
/// modular subtraction, so it is correct for every positive tape size.
pub open spec fn ptr_dec(dp: int, size: int) -> int {
    if dp == 0 {
        size - 1
    } else {
        dp - 1
    }
}

/// The cell operations are exactly addition and subtraction modulo 256.
pub proof fn lemma_cell_ops_are_modular(v: u8)
    ensures
        cell_inc(v) == ((v + 1) % 256) as u8,
        cell_dec(v) == ((v + 255) % 256) as u8,
{
    if v == 255 {
        vstd::arithmetic::div_mod::lemma_mod_self_0(256);
        vstd::arithmetic::div_mod::lemma_mod_add_multiples_vanish(254, 256);
        vstd::arithmetic::div_mod::lemma_small_mod(254, 256);
    } else {
        vstd::arithmetic::div_mod::lemma_small_mod((v + 1) as nat, 256);
        if v == 0 {
            vstd::arithmetic::div_mod::lemma_small_mod(255, 256);
        } else {
            vstd::arithmetic::div_mod::lemma_mod_add_multiples_vanish(v - 1, 256);
            vstd::arithmetic::div_mod::lemma_small_mod((v - 1) as nat, 256);
        }
    }
}

/// The pointer operations are exactly addition and subtraction modulo the
/// tape size.
pub proof fn lemma_ptr_ops_are_modular(dp: int, size: int)
    requires
        0 < size,
        0 <= dp < size,
    ensures
        ptr_inc(dp, size) == (dp + 1) % size,
        ptr_dec(dp, size) == (dp + size - 1) % size,
{
    if dp + 1 == size {
        vstd::arithmetic::div_mod::lemma_mod_self_0(size);
    } else {
        vstd::arithmetic::div_mod::lemma_small_mod((dp + 1) as nat, size as nat);
    }
    if dp == 0 {
        vstd::arithmetic::div_mod::lemma_small_mod((size - 1) as nat, size as nat);
    } else {
        vstd::arithmetic::div_mod::lemma_mod_add_multiples_vanish(dp - 1, size);
        vstd::arithmetic::div_mod::lemma_small_mod((dp - 1) as nat, size as nat);
    }
}

/// The cell value after `n` increments.
pub open spec fn iter_cell_inc(v: u8, n: nat) -> u8
    decreases n,
{
    if n == 0 {
        v
    } else {
        cell_inc(iter_cell_inc(v, (n - 1) as nat))
    }
}

/// `n` increments amount to adding `n` modulo 256.
pub proof fn lemma_iter_cell_inc(v: u8, n: nat)
    ensures
        iter_cell_inc(v, n) == ((v + n) % 256) as u8,
    decreases n,
{
    if n == 0 {
        vstd::arithmetic::div_mod::lemma_small_mod(v as nat, 256);
    } else {
        lemma_iter_cell_inc(v, (n - 1) as nat);
        let w = (v + n - 1) % 256;
        vstd::arithmetic::div_mod::lemma_mod_bound(v + n - 1, 256);
        lemma_cell_ops_are_modular(w as u8);
        vstd::arithmetic::div_mod::lemma_add_mod_noop_right(1, v + n - 1, 256);
        assert((1 + w) % 256 == (v + n) % 256);
    }
}

/// Wraparound closure of the cell: 256 increments return any 8-bit value
/// to itself.
pub proof fn lemma_cell_inc_cycle(v: u8)
    ensures
        iter_cell_inc(v, 256) == v,
{
    lemma_iter_cell_inc(v, 256);
    vstd::arithmetic::div_mod::lemma_mod_add_multiples_vanish(v as int, 256);
    vstd::arithmetic::div_mod::lemma_small_mod(v as nat, 256);
}

/// Modular closure of the data pointer: one step left then one step right
/// returns every position to itself, and vice versa, boundaries included.
pub proof fn lemma_ptr_moves_inverse(dp: int, size: int)
    requires
        0 < size,
        0 <= dp < size,
    ensures
        ptr_inc(ptr_dec(dp, size), size) == dp,
        ptr_dec(ptr_inc(dp, size), size) == dp,
{
}

/// A `LoopStart` has at most one matching `LoopEnd`: the first address at
/// which the nesting depth returns to zero.
pub proof fn lemma_match_end_unique(p: Seq<Operator>, a: int, b1: int, b2: int)
    requires
        is_match(p, a, b1),
        is_match(p, a, b2),
    ensures
        b1 == b2,
{
    if b1 != b2 {
        let (lo, hi) = if b1 < b2 { (b1, b2) } else { (b2, b1) };
        // Within the balanced interior of the farther match, the prefix
        // ending just past the nearer `LoopEnd` dips below depth zero.
        let interior = p.subrange(a + 1, hi);
        assert(interior.take(lo + 1 - (a + 1)) =~= p.subrange(a + 1, lo + 1));
        lemma_net_depth_extend(p, a + 1, lo);
        assert(net_depth(p.subrange(a + 1, lo + 1)) == -1);
        assert(net_depth(interior.take(lo + 1 - (a + 1))) >= 0);
        assert(false);
    }
}

/// A `LoopEnd` has at most one matching `LoopStart`: the first address,
/// scanning backward, at which the nesting depth returns to zero.
pub proof fn lemma_match_start_unique(p: Seq<Operator>, a1: int, a2: int, b: int)
    requires
        is_match(p, a1, b),
        is_match(p, a2, b),
    ensures
        a1 == a2,
{
    if a1 != a2 {
        let (lo, hi) = if a1 < a2 { (a1, a2) } else { (a2, a1) };
        // Split the balanced interior of the farther match at the nearer
        // `LoopStart`: the tail from there is one unmatched open bracket
        // plus a balanced interior, so the head must have net depth -1.
        let interior = p.subrange(lo + 1, b);
        assert(interior =~= p.subrange(lo + 1, hi) + p.subrange(hi, b));
        lemma_net_depth_concat(p.subrange(lo + 1, hi), p.subrange(hi, b));
        lemma_net_depth_prepend(p, hi, b);
        assert(net_depth(p.subrange(hi, b)) == 1);
        assert(net_depth(p.subrange(lo + 1, hi)) == -1);
        assert(interior.take(hi - (lo + 1)) =~= p.subrange(lo + 1, hi));
        assert(net_depth(interior.take(hi - (lo + 1))) >= 0);
        assert(false);
    }
}

/// The two bracket scans are mutual inverses on well-nested programs:
/// a matched pair determines each endpoint from the other, so whenever
/// the forward scan from `a` finds `b`, the backward scan from `b` finds
/// `a` again, and vice versa.
pub proof fn lemma_matching_mutual_inverse(p: Seq<Operator>, a: int, b: int, a2: int, b2: int)
    requires
        is_match(p, a, b),
        is_match(p, a2, b),
        is_match(p, a, b2),
    ensures
        a2 == a,
        b2 == b,
{
    lemma_match_start_unique(p, a, a2, b);
    lemma_match_end_unique(p, a, b, b2);
}

} // verus!
