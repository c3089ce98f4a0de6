use vstd::prelude::*;
use vstd::arithmetic::power2::pow2;
use crate::bigint::big_val;
use crate::bigint::bit_and_int;
use crate::bigint::bit_or_int;
use crate::bigint::bit_xor_int;
use crate::bigint::dec_bytes;
use crate::object::concat_view;
use crate::object::intoref_view;
use crate::words::Word;
use crate::words::Body;
use crate::words::Prim;
use crate::words::IntBin;
use crate::words::entries_map;
use crate::words::lookup_yields;
use crate::words::word_is_block;
use crate::words::word_is_branch;
use crate::words::word_pushes_int;
use crate::words::word_is_prim;
use crate::vm::VmV;
use crate::vm::BuilderV;
use crate::vm::CondV;
use crate::vm::Stage;
use crate::vm::EffV;
use crate::vm::FailV;
use crate::vm::lex_token_bytes;
use crate::vm::lex_consumed;
use crate::textutil::split_on;
use vstd::utf8::valid_utf8;
use vstd::utf8::decode_utf8;
use vstd::utf8::encode_scalar;
use vstd::utf8::is_scalar;

verus! {

//
// The big-step semantics of the interpreter: what one word, one body, one
// sequence of words does to the machine value. The executable interpreter's
// contracts say that each run satisfies these relations. A failing word
// leaves the state as it found it, except that words which read a token
// keep the token consumed, and `Sys panic` keeps its message popped.
//

/// The result of the pure binary integer operations.
pub open spec fn int_bin_val(op: IntBin, x: int, y: int) -> int {
    match op {
        IntBin::Add => x + y,
        IntBin::Sub => x - y,
        IntBin::Mul => x * y,
        IntBin::CmpEq => if x == y {
            1int
        } else {
            0int
        },
        IntBin::CmpNe => if x != y {
            1int
        } else {
            0int
        },
        IntBin::CmpLt => if x < y {
            1int
        } else {
            0int
        },
        IntBin::CmpGt => if x > y {
            1int
        } else {
            0int
        },
        IntBin::CmpLe => if x <= y {
            1int
        } else {
            0int
        },
        IntBin::CmpGe => if x >= y {
            1int
        } else {
            0int
        },
        IntBin::Min => if x <= y {
            x
        } else {
            y
        },
        IntBin::Max => if x >= y {
            x
        } else {
            y
        },
        IntBin::BitShl => x * pow2(y as nat),
        IntBin::BitShr => x / pow2(y as nat) as int,
        IntBin::BitAnd => bit_and_int(x, y),
        IntBin::BitOr => bit_or_int(x, y),
        IntBin::BitXor => bit_xor_int(x, y),
    }
}

/// Whether the operation's second argument is a shift amount, which must
/// convert to a platform index.
pub open spec fn int_bin_shifts(op: IntBin) -> bool {
    op is BitShl || op is BitShr
}

/// Appending a word to the open builder: into the active conditional buffer
/// when a conditional is open, else onto the body.
pub open spec fn builder_push(b: BuilderV, w: Word) -> BuilderV {
    match b.cond {
        Some(c) => match c.stage {
            Stage::Cond => BuilderV {
                cond: Some(CondV { cond_words: c.cond_words.push(w), ..c }),
                ..b
            },
            Stage::True => BuilderV { cond: Some(CondV { tru: c.tru.push(w), ..c }), ..b },
            Stage::False => BuilderV { cond: Some(CondV { fals: c.fals.push(w), ..c }), ..b },
        },
        None => BuilderV { words: b.words.push(w), ..b },
    }
}

/// The state after the lexer took one token off the top source.
pub open spec fn lex_step(a: VmV) -> VmV
    recommends
        a.input.len() > 0,
{
    let rem = a.input.last();
    VmV { input: a.input.update(a.input.len() - 1, rem.skip(lex_consumed(rem) as int)), ..a }
}

/// The bytes of the next token on the top source.
pub open spec fn lex_tok(a: VmV) -> Seq<u8>
    recommends
        a.input.len() > 0,
{
    lex_token_bytes(a.input.last())
}

/// Whether a word that needs the next token gets one.
pub open spec fn reads_token_ok(a: VmV) -> bool {
    a.input.len() > 0 && lex_tok(a).len() > 0 && valid_utf8(lex_tok(a))
}

/// The next token as text.
pub open spec fn token_chars(a: VmV) -> Seq<char>
    recommends
        reads_token_ok(a),
{
    decode_utf8(lex_tok(a))
}

/// How a word that needs the next token fails when it gets none: the end of
/// the input, or bytes that are not UTF-8. The consumed bytes stay consumed.
pub open spec fn read_fail_rel(a: VmV, b: VmV, r: Result<(), FailV>) -> bool {
    if a.input.len() == 0 {
        b == a && r == Err::<(), FailV>(FailV::Eoi)
    } else if lex_tok(a).len() == 0 {
        b == lex_step(a) && r == Err::<(), FailV>(FailV::Eoi)
    } else {
        b == lex_step(a) && r == Err::<(), FailV>(FailV::Lex)
    }
}

/// The name of the setter that a variable declaration registers.
pub open spec fn set_name(t: Seq<char>) -> Seq<char> {
    seq!['s', 'e', 't', ':'] + t
}

/// A trigger handle for the intermediate state and outcome that the
/// relations below quantify over.
pub open spec fn step_trig(mid: VmV, r0: Result<(), FailV>) -> bool {
    true
}

/// What one leaf primitive does; the compiler control words and the
/// namespace dispatch are in `prim_rel`, which can run further words.
#[verifier::opaque]
pub open spec fn leaf_prim_rel(a: VmV, p: Prim, b: VmV, r: Result<(), FailV>) -> bool {
    let ok = Ok::<(), FailV>(());
    let und = Err::<(), FailV>(FailV::Underflow);
    let conv = Err::<(), FailV>(FailV::Convert);
    match p {
        Prim::PushInt(x) => b == (VmV { ints: a.ints.push(*x), ..a }) && r == ok,
        Prim::PushObj(o) => b == (VmV { objs: a.objs.push(*o), ..a }) && r == ok,
        Prim::IntBin(op) => {
            let n = a.ints.len();
            if n < 2 {
                b == a && r == und
            } else {
                let x = big_val(a.ints[n - 2]);
                let y = big_val(a.ints[n - 1]);
                if int_bin_shifts(op) && !(0 <= y <= usize::MAX) {
                    b == a && r == conv
                } else {
                    &&& r == ok
                    &&& b == (VmV { ints: b.ints, ..a })
                    &&& b.ints == a.ints.take(n - 2).push(b.ints.last())
                    &&& big_val(b.ints.last()) == int_bin_val(op, x, y)
                }
            }
        },
        Prim::IntDup => {
            if a.ints.len() < 1 {
                b == a && r == und
            } else {
                b == (VmV { ints: a.ints.push(a.ints.last()), ..a }) && r == ok
            }
        },
        Prim::IntDup2 => {
            let n = a.ints.len();
            if n < 2 {
                b == a && r == und
            } else {
                b == (VmV { ints: a.ints + a.ints.skip(n - 2), ..a }) && r == ok
            }
        },
        Prim::IntDrop => {
            if a.ints.len() < 1 {
                b == a && r == und
            } else {
                b == (VmV { ints: a.ints.drop_last(), ..a }) && r == ok
            }
        },
        Prim::IntSwap => {
            let n = a.ints.len();
            if n < 2 {
                b == a && r == und
            } else {
                b == (VmV { ints: a.ints.take(n - 2).push(a.ints[n - 1]).push(a.ints[n - 2]), ..a })
                    && r == ok
            }
        },
        Prim::ObjDup => {
            if a.objs.len() < 1 {
                b == a && r == und
            } else {
                b == (VmV { objs: a.objs.push(a.objs.last()), ..a }) && r == ok
            }
        },
        Prim::ObjDrop => {
            if a.objs.len() < 1 {
                b == a && r == und
            } else {
                b == (VmV { objs: a.objs.drop_last(), ..a }) && r == ok
            }
        },
        Prim::ObjSwap => {
            let n = a.objs.len();
            if n < 2 {
                b == a && r == und
            } else {
                b == (VmV { objs: a.objs.take(n - 2).push(a.objs[n - 1]).push(a.objs[n - 2]), ..a })
                    && r == ok
            }
        },
        Prim::ObjByte => {
            if a.ints.len() < 1 || a.objs.len() < 1 {
                b == a && r == und
            } else {
                let i = big_val(a.ints.last());
                let o = a.objs.last();
                if !(0 <= i < o@.data.len()) {
                    b == a && r == conv
                } else {
                    &&& r == ok
                    &&& b == (VmV { ints: b.ints, objs: a.objs.drop_last(), ..a })
                    &&& b.ints == a.ints.drop_last().push(b.ints.last())
                    &&& big_val(b.ints.last()) == o@.data[i]
                }
            }
        },
        Prim::ObjRefs => {
            if a.ints.len() < 1 || a.objs.len() < 1 {
                b == a && r == und
            } else {
                let i = big_val(a.ints.last());
                let o = a.objs.last();
                if !(0 <= i < o@.refs.len()) {
                    b == a && r == conv
                } else {
                    b == (VmV {
                        ints: a.ints.drop_last(),
                        objs: a.objs.drop_last().push(o@.refs[i]),
                        ..a
                    }) && r == ok
                }
            }
        },
        Prim::ObjRefCount => {
            if a.objs.len() < 1 {
                b == a && r == und
            } else {
                &&& r == ok
                &&& b == (VmV { ints: b.ints, objs: a.objs.drop_last(), ..a })
                &&& b.ints == a.ints.push(b.ints.last())
                &&& big_val(b.ints.last()) == a.objs.last()@.refs.len()
            }
        },
        Prim::ObjByteCount => {
            if a.objs.len() < 1 {
                b == a && r == und
            } else {
                &&& r == ok
                &&& b == (VmV { ints: b.ints, objs: a.objs.drop_last(), ..a })
                &&& b.ints == a.ints.push(b.ints.last())
                &&& big_val(b.ints.last()) == a.objs.last()@.data.len()
            }
        },
        Prim::ObjConcat => {
            let n = a.objs.len();
            if n < 2 {
                b == a && r == und
            } else {
                &&& r == ok
                &&& b == (VmV { objs: b.objs, ..a })
                &&& b.objs == a.objs.take(n - 2).push(b.objs.last())
                &&& b.objs.last()@ == concat_view(a.objs[n - 2]@, a.objs[n - 1]@)
            }
        },
        Prim::ObjSlice => {
            let n = a.ints.len();
            if n < 4 || a.objs.len() < 1 {
                b == a && r == und
            } else {
                let o = a.objs.last();
                let ds = big_val(a.ints[n - 4]);
                let de = big_val(a.ints[n - 3]);
                let rs = big_val(a.ints[n - 2]);
                let re = big_val(a.ints[n - 1]);
                if !(0 <= ds <= de <= o@.data.len() && 0 <= rs <= re <= o@.refs.len()) {
                    b == a && r == conv
                } else {
                    &&& r == ok
                    &&& b == (VmV { ints: a.ints.take(n - 4), objs: b.objs, ..a })
                    &&& b.objs == a.objs.drop_last().push(b.objs.last())
                    &&& b.objs.last()@.data == o@.data.subrange(ds, de)
                    &&& b.objs.last()@.refs == o@.refs.subrange(rs, re)
                }
            }
        },
        Prim::ObjIntoRef => {
            if a.objs.len() < 1 {
                b == a && r == und
            } else {
                &&& r == ok
                &&& b == (VmV { objs: b.objs, ..a })
                &&& b.objs == a.objs.drop_last().push(b.objs.last())
                &&& b.objs.last()@ == intoref_view(a.objs.last())
            }
        },
        Prim::StrDecimal => {
            if a.ints.len() < 1 {
                b == a && r == und
            } else {
                &&& r == ok
                &&& b == (VmV { ints: a.ints.drop_last(), objs: b.objs, ..a })
                &&& b.objs == a.objs.push(b.objs.last())
                &&& b.objs.last()@.data == dec_bytes(big_val(a.ints.last()))
                &&& b.objs.last()@.refs.len() == 0
            }
        },
        Prim::StrSplit => {
            if a.ints.len() < 1 || a.objs.len() < 1 {
                b == a && r == und
            } else {
                let c = big_val(a.ints.last());
                let o = a.objs.last();
                if !(0 <= c < 0x1_0000_0000 && is_scalar(c as u32)) {
                    b == a && r == conv
                } else if !valid_utf8(o@.data) {
                    b == a && r == Err::<(), FailV>(FailV::Lex)
                } else {
                    let pieces = split_on(o@.data, encode_scalar(c as u32));
                    &&& r == ok
                    &&& b == (VmV { ints: a.ints.drop_last(), objs: b.objs, ..a })
                    &&& b.objs == a.objs.drop_last().push(b.objs.last())
                    &&& b.objs.last()@.data.len() == 0
                    &&& b.objs.last()@.refs.len() == pieces.len()
                    &&& forall|i: int|
                        0 <= i < pieces.len() ==> #[trigger] b.objs.last()@.refs[i]@.data
                            == pieces[i] && b.objs.last()@.refs[i]@.refs.len() == 0
                }
            }
        },
        Prim::VarGetInt(ci) => {
            if ci >= a.int_cells.len() {
                b == a && r == Err::<(), FailV>(FailV::BadCell)
            } else {
                b == (VmV { ints: a.ints.push(a.int_cells[ci as int]), ..a }) && r == ok
            }
        },
        Prim::VarSetInt(ci) => {
            if ci >= a.int_cells.len() {
                b == a && r == Err::<(), FailV>(FailV::BadCell)
            } else if a.ints.len() < 1 {
                b == a && r == und
            } else {
                b == (VmV {
                    ints: a.ints.drop_last(),
                    int_cells: a.int_cells.update(ci as int, a.ints.last()),
                    ..a
                }) && r == ok
            }
        },
        Prim::VarGetObj(ci) => {
            if ci >= a.obj_cells.len() {
                b == a && r == Err::<(), FailV>(FailV::BadCell)
            } else {
                b == (VmV { objs: a.objs.push(a.obj_cells[ci as int]), ..a }) && r == ok
            }
        },
        Prim::VarSetObj(ci) => {
            if ci >= a.obj_cells.len() {
                b == a && r == Err::<(), FailV>(FailV::BadCell)
            } else if a.objs.len() < 1 {
                b == a && r == und
            } else {
                b == (VmV {
                    objs: a.objs.drop_last(),
                    obj_cells: a.obj_cells.update(ci as int, a.objs.last()),
                    ..a
                }) && r == ok
            }
        },
        Prim::EmitPrintLn => {
            if a.objs.len() < 1 {
                b == a && r == und
            } else {
                b == (VmV {
                    objs: a.objs.drop_last(),
                    effects: a.effects.push(EffV::Print(a.objs.last()@.data + seq![('\n' as u8)])),
                    ..a
                }) && r == ok
            }
        },
        Prim::EmitPrint => {
            if a.objs.len() < 1 {
                b == a && r == und
            } else {
                b == (VmV {
                    objs: a.objs.drop_last(),
                    effects: a.effects.push(EffV::Print(a.objs.last()@.data)),
                    ..a
                }) && r == ok
            }
        },
        Prim::EmitClear => b == (VmV { effects: a.effects.push(EffV::Clear), ..a }) && r == ok,
        Prim::EmitClearLine => b == (VmV { effects: a.effects.push(EffV::ClearLine), ..a }) && r
            == ok,
        Prim::EmitFlush => b == (VmV { effects: a.effects.push(EffV::Flush), ..a }) && r == ok,
        Prim::SetCursor => {
            let n = a.ints.len();
            if n < 2 {
                b == a && r == und
            } else {
                let y = big_val(a.ints[n - 1]);
                let x = big_val(a.ints[n - 2]);
                if !(0 <= x < 0x1_0000 && 0 <= y < 0x1_0000) {
                    b == a && r == conv
                } else {
                    b == (VmV {
                        ints: a.ints.take(n - 2),
                        effects: a.effects.push(EffV::SetCursor(x as u16, y as u16)),
                        ..a
                    }) && r == ok
                }
            }
        },
        Prim::TermWait => {
            if a.events.len() == 0 {
                b == a && r == Err::<(), FailV>(FailV::NeedEvent)
            } else {
                b == (VmV {
                    ints: a.ints.push(a.events[0]),
                    events: a.events.drop_first(),
                    ..a
                }) && r == ok
            }
        },
        Prim::TermSize => {
            match a.term_size {
                None => b == a && r == Err::<(), FailV>(FailV::NeedSize),
                Some((w, h)) => {
                    let n = a.ints.len();
                    &&& r == ok
                    &&& b == (VmV { ints: b.ints, ..a })
                    &&& b.ints.len() == n + 2
                    &&& b.ints.take(n as int) == a.ints
                    &&& big_val(b.ints[n as int]) == w
                    &&& big_val(b.ints[n as int + 1]) == h
                },
            }
        },
        Prim::FsRead => {
            if a.objs.len() < 1 {
                b == a && r == und
            } else {
                let path = a.objs.last()@.data;
                if !valid_utf8(path) {
                    b == a && r == Err::<(), FailV>(FailV::Lex)
                } else if !a.files.dom().contains(path) {
                    b == a && r == Err::<(), FailV>(FailV::NeedFile(path))
                } else {
                    &&& r == ok
                    &&& b == (VmV { objs: b.objs, ..a })
                    &&& b.objs == a.objs.drop_last().push(b.objs.last())
                    &&& b.objs.last()@.data == a.files[path]
                    &&& b.objs.last()@.refs.len() == 0
                }
            }
        },
        Prim::UserPanic => {
            if a.objs.len() < 1 {
                b == a && r == und
            } else {
                b == (VmV { objs: a.objs.drop_last(), ..a }) && r == Err::<(), FailV>(
                    FailV::User(a.objs.last()@.data),
                )
            }
        },
        _ => false,
    }
}

/// What running one word does: while the compiler is active, a
/// non-immediate word is appended to the builder instead of running; an
/// immediate word, or any word with no compiler active, runs its body.
pub open spec fn word_rel(a: VmV, w: Word, b: VmV, r: Result<(), FailV>, fuel: nat) -> bool
    decreases fuel, 6int, 0int,
{
    match a.comp {
        Some(bd) if !w.immediate => {
            b == (VmV {
                comp: Some(builder_push(bd, Word { body: w.body, immediate: true })),
                ..a
            }) && r == Ok::<(), FailV>(())
        },
        _ => body_rel(a, *w.body, b, r, fuel),
    }
}

/// What running a word body does.
pub open spec fn body_rel(a: VmV, body: Body, b: VmV, r: Result<(), FailV>, fuel: nat) -> bool
    decreases fuel, 5int, 0int,
{
    match body {
        Body::Prim(p) => prim_rel(a, p, b, r, fuel),
        Body::Block(v) => block_rel(a, v@, b, r, fuel),
        Body::Branch(cb) => {
            if cb.looping {
                loop_rel(a, cb.cond_words@, cb.tru@, cb.fals@, b, r, fuel)
            } else {
                branch_rel(a, cb.cond_words@, cb.tru@, cb.fals@, b, r, fuel)
            }
        },
        Body::Named(tbl) => named_rel(a, tbl@, b, r, fuel),
    }
}

/// A compiled sequence runs its words strictly in order; the first failure
/// stops it and is its failure.
pub open spec fn block_rel(a: VmV, ws: Seq<Word>, b: VmV, r: Result<(), FailV>, fuel: nat) -> bool
    decreases fuel, 3int, ws.len(),
{
    if ws.len() == 0 {
        b == a && r == Ok::<(), FailV>(())
    } else if fuel == 0 {
        b == a && r == Err::<(), FailV>(FailV::Depth)
    } else {
        exists|mid: VmV, r0: Result<(), FailV>|
            {
                &&& #[trigger] step_trig(mid, r0)
                &&& word_rel(a, ws[0], mid, r0, (fuel - 1) as nat)
                &&& if r0 is Err {
                    b == mid && r == r0
                } else {
                    block_rel(mid, ws.drop_first(), b, r, fuel)
                }
            }
    }
}

/// Running a primitive body is running the primitive.
pub proof fn lemma_body_rel_prim(a: VmV, p: Prim, b: VmV, r: Result<(), FailV>, fuel: nat)
    requires
        prim_rel(a, p, b, r, fuel),
    ensures
        body_rel(a, Body::Prim(p), b, r, fuel),
{
    assert(Body::Prim(p) is Prim);
    reveal_with_fuel(body_rel, 2);
    reveal(prim_rel);
}

/// One step of a sequence: running the first word and then the rest runs
/// the whole.
pub proof fn lemma_block_rel_step(
    a: VmV,
    ws: Seq<Word>,
    mid: VmV,
    r0: Result<(), FailV>,
    b: VmV,
    r: Result<(), FailV>,
    fuel: nat,
)
    requires
        ws.len() > 0,
        fuel > 0,
        word_rel(a, ws[0], mid, r0, (fuel - 1) as nat),
        if r0 is Err {
            b == mid && r == r0
        } else {
            block_rel(mid, ws.drop_first(), b, r, fuel)
        },
    ensures
        block_rel(a, ws, b, r, fuel),
{
    assert(step_trig(mid, r0));
}

/// A conditional runs its condition once, pops the integer top, and then
/// runs exactly one of the two branches.
pub open spec fn branch_rel(
    a: VmV,
    c: Seq<Word>,
    t: Seq<Word>,
    f: Seq<Word>,
    b: VmV,
    r: Result<(), FailV>,
    fuel: nat,
) -> bool
    decreases fuel, 4int, 0int,
{
    exists|mid: VmV, r0: Result<(), FailV>|
        {
            &&& #[trigger] step_trig(mid, r0)
            &&& block_rel(a, c, mid, r0, fuel)
            &&& if r0 is Err {
                b == mid && r == r0
            } else if mid.ints.len() == 0 {
                b == mid && r == Err::<(), FailV>(FailV::Underflow)
            } else {
                block_rel(
                    VmV { ints: mid.ints.drop_last(), ..mid },
                    if big_val(mid.ints.last()) != 0 {
                        t
                    } else {
                        f
                    },
                    b,
                    r,
                    fuel,
                )
            }
        }
}

/// A loop runs its condition, pops the integer top, and while that value is
/// non-zero runs the body and repeats; on zero it runs the final part once.
/// Each round consumes one unit of the nesting budget, so a loop that never
/// ends runs out of it; any failure on the way stops the loop.
pub open spec fn loop_rel(
    a: VmV,
    c: Seq<Word>,
    t: Seq<Word>,
    f: Seq<Word>,
    b: VmV,
    r: Result<(), FailV>,
    fuel: nat,
) -> bool
    decreases fuel, 4int, 1int,
{
    if fuel == 0 {
        b == a && r == Err::<(), FailV>(FailV::Depth)
    } else {
        exists|mid: VmV, r0: Result<(), FailV>|
            {
                &&& #[trigger] step_trig(mid, r0)
                &&& block_rel(a, c, mid, r0, fuel)
                &&& if r0 is Err {
                    b == mid && r == r0
                } else if mid.ints.len() == 0 {
                    b == mid && r == Err::<(), FailV>(FailV::Underflow)
                } else if big_val(mid.ints.last()) == 0 {
                    block_rel(VmV { ints: mid.ints.drop_last(), ..mid }, f, b, r, fuel)
                } else {
                    exists|mid2: VmV, r1: Result<(), FailV>|
                        {
                            &&& #[trigger] step_trig(mid2, r1)
                            &&& block_rel(
                                VmV { ints: mid.ints.drop_last(), ..mid },
                                t,
                                mid2,
                                r1,
                                fuel,
                            )
                            &&& if r1 is Err {
                                b == mid2 && r == r1
                            } else {
                                loop_rel(mid2, c, t, f, b, r, (fuel - 1) as nat)
                            }
                        }
                }
            }
    }
}

/// A namespace word reads the next token and runs the word the token names
/// in its own table.
pub open spec fn named_rel(
    a: VmV,
    tbl: Seq<(String, Word)>,
    b: VmV,
    r: Result<(), FailV>,
    fuel: nat,
) -> bool
    decreases fuel, 4int, 0int,
{
    if !reads_token_ok(a) {
        read_fail_rel(a, b, r)
    } else {
        let t = token_chars(a);
        let a2 = lex_step(a);
        if !entries_map(tbl).dom().contains(t) {
            b == a2 && r == Err::<(), FailV>(FailV::Unknown(t))
        } else if fuel == 0 {
            b == a2 && r == Err::<(), FailV>(FailV::Depth)
        } else {
            word_rel(a2, entries_map(tbl)[t], b, r, (fuel - 1) as nat)
        }
    }
}

/// What one primitive does, including the compiler control words, which may
/// in turn run a finished body.
#[verifier::opaque]
pub open spec fn prim_rel(a: VmV, p: Prim, b: VmV, r: Result<(), FailV>, fuel: nat) -> bool
    decreases fuel, 2int, 0int,
{
    let ok = Ok::<(), FailV>(());
    let und = Err::<(), FailV>(FailV::Underflow);
    let cst = Err::<(), FailV>(FailV::CompileState);
    match p {
        Prim::Colon => colon_rel(a, b, r, false),
        Prim::ColonImm => colon_rel(a, b, r, true),
        Prim::SemiColon => {
            match a.comp {
                None => b == a && r == cst,
                Some(bd) => {
                    if bd.cond is Some {
                        b == a && r == cst
                    } else if bd.name.len() == 0 {
                        if fuel == 0 {
                            b == (VmV { comp: None, ..a }) && r == Err::<(), FailV>(FailV::Depth)
                        } else {
                            block_rel(VmV { comp: None, ..a }, bd.words, b, r, (fuel - 1) as nat)
                        }
                    } else {
                        exists|w: Word|
                            {
                                &&& #[trigger] word_is_block(w, bd.words, bd.immediate)
                                &&& b == (VmV {
                                    comp: None,
                                    dict: a.dict.insert(bd.name, w),
                                    ..a
                                })
                                &&& r == ok
                            }
                    }
                },
            }
        },
        Prim::CondIf => {
            // the words gathered so far become the condition, which a loop
            // re-runs before every round
            match a.comp {
                None => b == (VmV {
                    comp: Some(
                        BuilderV {
                            name: Seq::empty(),
                            immediate: false,
                            words: Seq::empty(),
                            cond: Some(
                                CondV {
                                    cond_words: Seq::empty(),
                                    tru: Seq::empty(),
                                    fals: Seq::empty(),
                                    stage: Stage::Cond,
                                },
                            ),
                        },
                    ),
                    ..a
                }) && r == ok,
                Some(bd) => {
                    if bd.cond is Some {
                        b == a && r == cst
                    } else {
                        b == (VmV {
                            comp: Some(
                                BuilderV {
                                    words: Seq::empty(),
                                    cond: Some(
                                        CondV {
                                            cond_words: bd.words,
                                            tru: Seq::empty(),
                                            fals: Seq::empty(),
                                            stage: Stage::Cond,
                                        },
                                    ),
                                    ..bd
                                },
                            ),
                            ..a
                        }) && r == ok
                    }
                },
            }
        },
        Prim::CondThen => {
            match a.comp {
                Some(bd) => match bd.cond {
                    Some(c) => {
                        if c.stage is Cond {
                            b == (VmV {
                                comp: Some(
                                    BuilderV {
                                        cond: Some(CondV { stage: Stage::True, ..c }),
                                        ..bd
                                    },
                                ),
                                ..a
                            }) && r == ok
                        } else {
                            b == a && r == cst
                        }
                    },
                    None => b == a && r == cst,
                },
                None => b == a && r == cst,
            }
        },
        Prim::CondElse => {
            match a.comp {
                Some(bd) => match bd.cond {
                    Some(c) => {
                        if c.stage is True {
                            b == (VmV {
                                comp: Some(
                                    BuilderV {
                                        cond: Some(CondV { stage: Stage::False, ..c }),
                                        ..bd
                                    },
                                ),
                                ..a
                            }) && r == ok
                        } else {
                            b == a && r == cst
                        }
                    },
                    None => b == a && r == cst,
                },
                None => b == a && r == cst,
            }
        },
        Prim::CondEnd => cond_close_rel(a, b, r, fuel, false),
        Prim::CondRepeat => cond_close_rel(a, b, r, fuel, true),
        Prim::Defer => {
            if !reads_token_ok(a) {
                read_fail_rel(a, b, r)
            } else {
                let t = token_chars(a);
                let a2 = lex_step(a);
                exists|res: Option<Word>|
                    {
                        &&& #[trigger] lookup_yields(a.dict, a.alts, t, res)
                        &&& match res {
                            None => b == a2 && r == Err::<(), FailV>(FailV::Unknown(t)),
                            Some(w) => {
                                match a2.comp {
                                    None => b == a2 && r == cst,
                                    Some(bd) => b == (VmV {
                                        comp: Some(builder_push(bd, w)),
                                        ..a2
                                    }) && r == ok,
                                }
                            },
                        }
                    }
            }
        },
        Prim::BeginDef => {
            if a.comp is Some {
                b == a && r == cst
            } else if a.objs.len() < 1 {
                b == a && r == und
            } else {
                let name = a.objs.last()@.data;
                if name.len() == 0 {
                    b == a && r == cst
                } else if !valid_utf8(name) {
                    b == a && r == Err::<(), FailV>(FailV::Lex)
                } else {
                    b == (VmV {
                        objs: a.objs.drop_last(),
                        comp: Some(
                            BuilderV {
                                name: decode_utf8(name),
                                immediate: false,
                                words: Seq::empty(),
                                cond: None,
                            },
                        ),
                        ..a
                    }) && r == ok
                }
            }
        },
        Prim::CaptureInt => {
            match a.comp {
                None => b == a && r == cst,
                Some(bd) => {
                    if a.ints.len() < 1 {
                        b == a && r == und
                    } else {
                        exists|w: Word|
                            {
                                &&& #[trigger] word_pushes_int(w, big_val(a.ints.last()))
                                &&& w.immediate
                                &&& b == (VmV {
                                    ints: a.ints.drop_last(),
                                    comp: Some(builder_push(bd, w)),
                                    ..a
                                })
                                &&& r == ok
                            }
                    }
                },
            }
        },
        Prim::CallByName => {
            if a.objs.len() < 1 {
                b == a && r == und
            } else {
                let name = a.objs.last()@.data;
                if !valid_utf8(name) {
                    b == a && r == Err::<(), FailV>(FailV::Lex)
                } else {
                    let t = decode_utf8(name);
                    exists|res: Option<Word>|
                        {
                            &&& #[trigger] lookup_yields(a.dict, a.alts, t, res)
                            &&& match res {
                                None => b == a && r == Err::<(), FailV>(FailV::Unknown(t)),
                                Some(w) => {
                                    let a2 = VmV { objs: a.objs.drop_last(), ..a };
                                    match a2.comp {
                                        Some(bd) => b == (VmV {
                                            comp: Some(builder_push(bd, w)),
                                            ..a2
                                        }) && r == ok,
                                        None => {
                                            if fuel == 0 {
                                                b == a2 && r == Err::<(), FailV>(FailV::Depth)
                                            } else {
                                                word_rel(a2, w, b, r, (fuel - 1) as nat)
                                            }
                                        },
                                    }
                                },
                            }
                        }
                }
            }
        },
        Prim::VarIntCtor => {
            if !reads_token_ok(a) {
                read_fail_rel(a, b, r)
            } else {
                let t = token_chars(a);
                let a2 = lex_step(a);
                exists|wg: Word, ws: Word, ci: usize|
                    {
                        &&& ci == a.int_cells.len()
                        &&& #[trigger] word_is_prim(wg, Prim::VarGetInt(ci), false)
                        &&& #[trigger] word_is_prim(ws, Prim::VarSetInt(ci), false)
                        &&& b == (VmV {
                            input: a2.input,
                            int_cells: a.int_cells.push(b.int_cells.last()),
                            dict: a.dict.insert(t, wg).insert(set_name(t), ws),
                            ..a
                        })
                        &&& big_val(b.int_cells.last()) == 0
                        &&& r == ok
                    }
            }
        },
        Prim::VarObjCtor => {
            if !reads_token_ok(a) {
                read_fail_rel(a, b, r)
            } else {
                let t = token_chars(a);
                let a2 = lex_step(a);
                exists|wg: Word, ws: Word, ci: usize|
                    {
                        &&& ci == a.obj_cells.len()
                        &&& #[trigger] word_is_prim(wg, Prim::VarGetObj(ci), false)
                        &&& #[trigger] word_is_prim(ws, Prim::VarSetObj(ci), false)
                        &&& b == (VmV {
                            input: a2.input,
                            obj_cells: a.obj_cells.push(b.obj_cells.last()),
                            dict: a.dict.insert(t, wg).insert(set_name(t), ws),
                            ..a
                        })
                        &&& b.obj_cells.last()@.data.len() == 0
                        &&& b.obj_cells.last()@.refs.len() == 0
                        &&& r == ok
                    }
            }
        },
        _ => leaf_prim_rel(a, p, b, r),
    }
}

/// `:` and `:!`: read the name and open a fresh builder.
pub open spec fn colon_rel(a: VmV, b: VmV, r: Result<(), FailV>, imm: bool) -> bool {
    if a.comp is Some {
        b == a && r == Err::<(), FailV>(FailV::CompileState)
    } else if !reads_token_ok(a) {
        read_fail_rel(a, b, r)
    } else {
        b == (VmV {
            input: lex_step(a).input,
            comp: Some(
                BuilderV {
                    name: token_chars(a),
                    immediate: imm,
                    words: Seq::empty(),
                    cond: None,
                },
            ),
            ..a
        }) && r == Ok::<(), FailV>(())
    }
}

/// `end` and `repeat`: close the open conditional. In a named definition
/// the conditional body is appended; the anonymous builder that `if` opened
/// at the top level is discarded and its conditional runs at once.
pub open spec fn cond_close_rel(
    a: VmV,
    b: VmV,
    r: Result<(), FailV>,
    fuel: nat,
    looping: bool,
) -> bool
    decreases fuel, 1int, 0int,
{
    let cst = Err::<(), FailV>(FailV::CompileState);
    match a.comp {
        None => b == a && r == cst,
        Some(bd) => {
            match bd.cond {
                None => b == a && r == cst,
                Some(c) => {
                    if c.stage is Cond {
                        b == a && r == cst
                    } else if looping {
                        // `repeat` emits or runs the looping body and leaves
                        // the conditional open, so a following `end` still
                        // closes it
                        if bd.name.len() == 0 {
                            if fuel == 0 {
                                b == a && r == Err::<(), FailV>(FailV::Depth)
                            } else {
                                loop_rel(a, c.cond_words, c.tru, c.fals, b, r, (fuel - 1) as nat)
                            }
                        } else {
                            exists|w: Word|
                                {
                                    &&& #[trigger] word_is_branch(
                                        w,
                                        c.cond_words,
                                        c.tru,
                                        c.fals,
                                        true,
                                    )
                                    &&& b == (VmV {
                                        comp: Some(BuilderV { words: bd.words.push(w), ..bd }),
                                        ..a
                                    })
                                    &&& r == Ok::<(), FailV>(())
                                }
                        }
                    } else if bd.name.len() == 0 {
                        let a2 = VmV { comp: None, ..a };
                        if fuel == 0 {
                            b == a2 && r == Err::<(), FailV>(FailV::Depth)
                        } else {
                            branch_rel(a2, c.cond_words, c.tru, c.fals, b, r, (fuel - 1) as nat)
                        }
                    } else {
                        exists|w: Word|
                            {
                                &&& #[trigger] word_is_branch(
                                    w,
                                    c.cond_words,
                                    c.tru,
                                    c.fals,
                                    false,
                                )
                                &&& b == (VmV {
                                    comp: Some(
                                        BuilderV { words: bd.words.push(w), cond: None, ..bd },
                                    ),
                                    ..a
                                })
                                &&& r == Ok::<(), FailV>(())
                            }
                    }
                },
            }
        },
    }
}

/// What driving the interpreter does: read a word, resolve it, run it,
/// until the input is exhausted; an unknown word or a failing word stops
/// the run with that failure.
/// Whether a failure asks the host for input: an event, the screen size or
/// a file. The driver winds the machine back so that, once the answer is
/// staged, the next drive re-runs the word that asked.
pub open spec fn needs_host(r: Result<(), FailV>) -> bool {
    match r {
        Err(f) => f is NeedEvent || f is NeedSize || f is NeedFile,
        Ok(_) => false,
    }
}

pub open spec fn drive_rel(a: VmV, b: VmV, r: Result<(), FailV>, fuel: nat) -> bool
    decreases fuel, 7int, 0int,
{
    if a.input.len() == 0 || lex_tok(a).len() == 0 {
        let b0 = if a.input.len() == 0 {
            a
        } else {
            lex_step(a)
        };
        b == b0 && r == Ok::<(), FailV>(())
    } else if !valid_utf8(lex_tok(a)) {
        b == lex_step(a) && r == Err::<(), FailV>(FailV::Lex)
    } else {
        let t = token_chars(a);
        let a2 = lex_step(a);
        if fuel == 0 {
            b == a2 && r == Err::<(), FailV>(FailV::Depth)
        } else {
            exists|res: Option<Word>|
                {
                    &&& #[trigger] lookup_yields(a.dict, a.alts, t, res)
                    &&& match res {
                        None => b == a2 && r == Err::<(), FailV>(FailV::Unknown(t)),
                        Some(w) => exists|mid: VmV, r0: Result<(), FailV>|
                            {
                                &&& #[trigger] step_trig(mid, r0)
                                &&& word_rel(a2, w, mid, r0, (fuel - 1) as nat)
                                &&& if needs_host(r0) {
                                    b == a && r == r0
                                } else if r0 is Err {
                                    b == mid && r == r0
                                } else {
                                    drive_rel(mid, b, r, (fuel - 1) as nat)
                                }
                            },
                    }
                }
        }
    }
}

} // verus!
