use vstd::prelude::*;
use crate::bigint::big_val;
use crate::words::Word;
use crate::words::Prim;
use crate::words::IntBin;
use crate::words::word_is_prim;
use crate::words::word_pushes_int;
use crate::vm::VmV;
use crate::vm::FailV;
use crate::sem::word_rel;
use crate::sem::int_bin_val;
use crate::sem::block_rel;
use crate::sem::step_trig;
use crate::sem::prim_rel;
use crate::sem::leaf_prim_rel;

verus! {

//
// The laws of the word set, stated over the big-step semantics and proved
// from the contracts of the interpreter alone.
//

/// After a successful run of two integer pushes and one of the arithmetic
/// words, the integer stack has gained exactly one value: the sum,
/// difference or product of the two.
pub proof fn lemma_arithmetic_result(
    a: VmV,
    x: int,
    y: int,
    op: IntBin,
    wx: Word,
    wy: Word,
    wop: Word,
    m1: VmV,
    m2: VmV,
    b: VmV,
    fuel: nat,
)
    requires
        a.comp is None,
        op is Add || op is Sub || op is Mul,
        word_pushes_int(wx, x) && !wx.immediate,
        word_pushes_int(wy, y) && !wy.immediate,
        word_is_prim(wop, Prim::IntBin(op), false),
        word_rel(a, wx, m1, Ok::<(), FailV>(()), fuel),
        word_rel(m1, wy, m2, Ok::<(), FailV>(()), fuel),
        word_rel(m2, wop, b, Ok::<(), FailV>(()), fuel),
    ensures
        b.ints.len() == a.ints.len() + 1,
        big_val(b.ints.last()) == int_bin_val(op, x, y),
{
    reveal(crate::sem::prim_rel);
    reveal(crate::sem::leaf_prim_rel);
    assert(m1 == (VmV { ints: m1.ints, ..a }));
    assert(m2.ints =~= a.ints.push(m1.ints.last()).push(m2.ints.last()));
    assert(m2.ints[m2.ints.len() - 2] == m1.ints.last());
}

/// A comparison word leaves exactly zero or one on top; and duplicating the
/// top and comparing it with itself leaves one.
pub proof fn lemma_comparison_result(
    a: VmV,
    op: IntBin,
    wop: Word,
    b: VmV,
    fuel: nat,
)
    requires
        a.comp is None,
        a.ints.len() >= 2,
        op is CmpEq || op is CmpNe || op is CmpLt || op is CmpGt || op is CmpLe || op is CmpGe,
        word_is_prim(wop, Prim::IntBin(op), false),
        word_rel(a, wop, b, Ok::<(), FailV>(()), fuel),
    ensures
        b.ints.len() == a.ints.len() - 1,
        big_val(b.ints.last()) == 0 || big_val(b.ints.last()) == 1,
{
    reveal(crate::sem::prim_rel);
    reveal(crate::sem::leaf_prim_rel);
}

/// Duplicating the integer top and testing it for equality with itself
/// leaves one on top.
pub proof fn lemma_dup_eq_pushes_one(
    a: VmV,
    wdup: Word,
    weq: Word,
    m: VmV,
    b: VmV,
    fuel: nat,
)
    requires
        a.comp is None,
        a.ints.len() >= 1,
        word_is_prim(wdup, Prim::IntDup, false),
        word_is_prim(weq, Prim::IntBin(IntBin::CmpEq), false),
        word_rel(a, wdup, m, Ok::<(), FailV>(()), fuel),
        word_rel(m, weq, b, Ok::<(), FailV>(()), fuel),
    ensures
        big_val(b.ints.last()) == 1,
        b.ints.len() == a.ints.len(),
        b.ints.drop_last() == a.ints.drop_last(),
{
    reveal(crate::sem::prim_rel);
    reveal(crate::sem::leaf_prim_rel);
    assert(m.ints == a.ints.push(a.ints.last()));
    assert(m.ints[m.ints.len() - 2] == m.ints.last());
    assert(b.ints == m.ints.take(m.ints.len() - 2).push(b.ints.last()));
    assert(m.ints.take(m.ints.len() - 2) =~= a.ints.drop_last());
    assert(b.ints.drop_last() =~= a.ints.drop_last());
}

/// Swapping the two topmost integers twice is the identity on the stack.
pub proof fn lemma_swap_swap_identity(
    a: VmV,
    wswap: Word,
    m: VmV,
    b: VmV,
    fuel: nat,
)
    requires
        a.comp is None,
        a.ints.len() >= 2,
        word_is_prim(wswap, Prim::IntSwap, false),
        word_rel(a, wswap, m, Ok::<(), FailV>(()), fuel),
        word_rel(m, wswap, b, Ok::<(), FailV>(()), fuel),
    ensures
        b == a,
{
    reveal(crate::sem::prim_rel);
    reveal(crate::sem::leaf_prim_rel);
    let n = a.ints.len();
    assert(m.ints.len() == n);
    assert(m == (VmV { ints: m.ints, ..a }));
    assert(m.ints.take(n - 2) =~= a.ints.take(n - 2));
    assert(b.ints =~= a.ints);
    assert(b =~~= a);
}

/// A compiled sequence of two words runs them strictly in source order: the
/// first from the start state, the second from where the first left off.
pub proof fn lemma_block_source_order(
    a: VmV,
    ws: Seq<Word>,
    b: VmV,
    fuel: nat,
)
    requires
        ws.len() == 2,
        fuel > 0,
        block_rel(a, ws, b, Ok::<(), FailV>(()), fuel),
    ensures
        exists|mid: VmV, r0: Result<(), FailV>, r1: Result<(), FailV>|
            {
                &&& #[trigger] step_trig(mid, r0)
                &&& #[trigger] step_trig(b, r1)
                &&& r0 is Ok && r1 is Ok
                &&& word_rel(a, ws[0], mid, r0, (fuel - 1) as nat)
                &&& word_rel(mid, ws[1], b, r1, (fuel - 1) as nat)
            },
{
    let (mid, r0): (VmV, Result<(), FailV>) = choose|mid: VmV, r0: Result<(), FailV>|
        {
            &&& #[trigger] step_trig(mid, r0)
            &&& word_rel(a, ws[0], mid, r0, (fuel - 1) as nat)
            &&& if r0 is Err {
                b == mid && Ok::<(), FailV>(()) == r0
            } else {
                block_rel(mid, ws.drop_first(), b, Ok::<(), FailV>(()), fuel)
            }
        };
    assert(step_trig(mid, r0));
    assert(r0 is Ok);
    assert(block_rel(mid, ws.drop_first(), b, Ok::<(), FailV>(()), fuel));
    let (mid2, r1): (VmV, Result<(), FailV>) = choose|mid2: VmV, r1: Result<(), FailV>|
        {
            &&& #[trigger] step_trig(mid2, r1)
            &&& word_rel(mid, ws.drop_first()[0], mid2, r1, (fuel - 1) as nat)
            &&& if r1 is Err {
                b == mid2 && Ok::<(), FailV>(()) == r1
            } else {
                block_rel(mid2, ws.drop_first().drop_first(), b, Ok::<(), FailV>(()), fuel)
            }
        };
    assert(ws.drop_first()[0] == ws[1]);
    assert(ws.drop_first().drop_first() =~= Seq::<Word>::empty());
    assert(mid2 == b);
    assert(r0 is Ok && r1 is Ok);
    assert(step_trig(b, r1));
    assert(word_rel(a, ws[0], mid, r0, (fuel - 1) as nat));
    assert(word_rel(mid, ws[1], b, r1, (fuel - 1) as nat));
}

} // verus!
