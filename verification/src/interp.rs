use vstd::prelude::*;
use std::rc::Rc;
use crate::object::Object;
use crate::object::rc_dup;
use crate::bigint::big_val;
use crate::bigint::big_from_u64;
use crate::bigint::big_add;
use crate::bigint::big_sub;
use crate::bigint::big_mul;
use crate::bigint::big_cmp;
use crate::bigint::big_and;
use crate::bigint::big_or;
use crate::bigint::big_xor;
use crate::bigint::big_shl;
use crate::bigint::big_shr;
use crate::bigint::big_to_dec_bytes;
use crate::bigint::big_to_u32;
use crate::bigint::big_to_u16;
use crate::bigint::big_to_usize;
use crate::words::Prim;
use crate::words::IntBin;
use crate::vm::Vm;
use crate::vm::VmV;
use crate::vm::Failure;
use crate::vm::FailV;
use crate::vm::Effect;
use crate::vm::vmv;
use crate::vm::res_view;
use crate::sem::leaf_prim_rel;
use crate::sem::int_bin_val;
use crate::sem::int_bin_shifts;
use crate::textutil::split_bytes;
use crate::textutil::encode_scalar_exec;
use crate::textutil::string_from_utf8;
use vstd::utf8::is_scalar;

verus! {

/// Pops the integer top.
pub(crate) fn pop_int(vm: &mut Vm) -> (r: Option<Rc<num::BigInt>>)
    ensures
        match r {
            None => vmv(*final(vm)) == vmv(*old(vm)) && vmv(*old(vm)).ints.len() == 0,
            Some(x) => vmv(*old(vm)).ints.len() > 0 && *x == vmv(*old(vm)).ints.last() && vmv(
                *final(vm),
            ) == (VmV { ints: vmv(*old(vm)).ints.drop_last(), ..vmv(*old(vm)) }),
        },
{
    let r = vm.ints.pop();
    proof {
        if vm.ints@.len() < old(vm).ints@.len() {
            assert(vmv(*vm).ints =~= vmv(*old(vm)).ints.drop_last());
            assert(vmv(*vm) =~~= (VmV { ints: vmv(*old(vm)).ints.drop_last(), ..vmv(*old(vm)) }));
        } else {
            assert(vmv(*vm) =~~= vmv(*old(vm)));
        }
    }
    r
}

/// Pushes onto the integer stack.
fn push_int(vm: &mut Vm, x: Rc<num::BigInt>)
    ensures
        vmv(*final(vm)) == (VmV { ints: vmv(*old(vm)).ints.push(*x), ..vmv(*old(vm)) }),
{
    vm.ints.push(x);
    proof {
        assert(vmv(*vm).ints =~= vmv(*old(vm)).ints.push(*vm.ints@.last()));
        assert(vmv(*vm) =~~= (VmV { ints: vmv(*old(vm)).ints.push(*vm.ints@.last()), ..vmv(*old(vm)) }));
    }
}

/// Pops the object top.
pub(crate) fn pop_obj(vm: &mut Vm) -> (r: Option<Rc<Object>>)
    ensures
        match r {
            None => vmv(*final(vm)) == vmv(*old(vm)) && vmv(*old(vm)).objs.len() == 0,
            Some(x) => vmv(*old(vm)).objs.len() > 0 && *x == vmv(*old(vm)).objs.last() && vmv(
                *final(vm),
            ) == (VmV { objs: vmv(*old(vm)).objs.drop_last(), ..vmv(*old(vm)) }),
        },
{
    let r = vm.objs.pop();
    proof {
        if vm.objs@.len() < old(vm).objs@.len() {
            assert(vmv(*vm).objs =~= vmv(*old(vm)).objs.drop_last());
            assert(vmv(*vm) =~~= (VmV { objs: vmv(*old(vm)).objs.drop_last(), ..vmv(*old(vm)) }));
        } else {
            assert(vmv(*vm) =~~= vmv(*old(vm)));
        }
    }
    r
}

/// Pushes onto the object stack.
fn push_obj(vm: &mut Vm, x: Rc<Object>)
    ensures
        vmv(*final(vm)) == (VmV { objs: vmv(*old(vm)).objs.push(*x), ..vmv(*old(vm)) }),
{
    vm.objs.push(x);
    proof {
        assert(vmv(*vm).objs =~= vmv(*old(vm)).objs.push(*vm.objs@.last()));
        assert(vmv(*vm) =~~= (VmV { objs: vmv(*old(vm)).objs.push(*vm.objs@.last()), ..vmv(*old(vm)) }));
    }
}

/// Queues an effect.
fn push_effect(vm: &mut Vm, e: Effect)
    ensures
        vmv(*final(vm)) == (VmV {
            effects: vmv(*old(vm)).effects.push(crate::vm::eff_view(e)),
            ..vmv(*old(vm))
        }),
{
    let ghost ev = crate::vm::eff_view(e);
    vm.effects.push(e);
    proof {
        assert(vmv(*vm).effects =~= vmv(*old(vm)).effects.push(ev));
        assert(vmv(*vm) =~~= (VmV { effects: vmv(*old(vm)).effects.push(ev), ..vmv(*old(vm)) }));
    }
}

/// The result of a pure binary integer operation, through the
/// arbitrary-precision library.
fn int_bin_exec(op: IntBin, x: &Rc<num::BigInt>, y: &Rc<num::BigInt>) -> (r: Result<
    num::BigInt,
    Failure,
>)
    ensures
        match r {
            Ok(z) => big_val(z) == int_bin_val(op, big_val(**x), big_val(**y)) && (int_bin_shifts(
                op,
            ) ==> 0 <= big_val(**y) <= usize::MAX),
            Err(f) => int_bin_shifts(op) && !(0 <= big_val(**y) <= usize::MAX) && crate::vm::fail_view(f)
                == FailV::Convert,
        },
{
    match op {
        IntBin::Add => Ok(big_add(x, y)),
        IntBin::Sub => Ok(big_sub(x, y)),
        IntBin::Mul => Ok(big_mul(x, y)),
        IntBin::CmpEq => {
            let c = big_cmp(x, y);
            Ok(big_from_u64(if c == 0 { 1 } else { 0 }))
        },
        IntBin::CmpNe => {
            let c = big_cmp(x, y);
            Ok(big_from_u64(if c != 0 { 1 } else { 0 }))
        },
        IntBin::CmpLt => {
            let c = big_cmp(x, y);
            Ok(big_from_u64(if c == -1 { 1 } else { 0 }))
        },
        IntBin::CmpGt => {
            let c = big_cmp(x, y);
            Ok(big_from_u64(if c == 1 { 1 } else { 0 }))
        },
        IntBin::CmpLe => {
            let c = big_cmp(x, y);
            Ok(big_from_u64(if c != 1 { 1 } else { 0 }))
        },
        IntBin::CmpGe => {
            let c = big_cmp(x, y);
            Ok(big_from_u64(if c != -1 { 1 } else { 0 }))
        },
        IntBin::Min => {
            let c = big_cmp(x, y);
            if c != 1 {
                Ok(big_clone_of(x))
            } else {
                Ok(big_clone_of(y))
            }
        },
        IntBin::Max => {
            let c = big_cmp(x, y);
            if c != -1 {
                Ok(big_clone_of(x))
            } else {
                Ok(big_clone_of(y))
            }
        },
        IntBin::BitShl => {
            match big_to_usize(y) {
                Some(k) => Ok(big_shl(x, k)),
                None => Err(Failure::Convert),
            }
        },
        IntBin::BitShr => {
            match big_to_usize(y) {
                Some(k) => Ok(big_shr(x, k)),
                None => Err(Failure::Convert),
            }
        },
        IntBin::BitAnd => Ok(big_and(x, y)),
        IntBin::BitOr => Ok(big_or(x, y)),
        IntBin::BitXor => Ok(big_xor(x, y)),
    }
}

/// Relies on num::BigInt's Clone: the same integer.
#[verifier::external_body]
fn big_clone_of(x: &Rc<num::BigInt>) -> (r: num::BigInt)
    ensures
        big_val(r) == big_val(**x),
{
    (**x).clone()
}

/// Runs one leaf primitive: a stack word, a literal push, a variable word,
/// an effect word or a staged host answer.
pub fn exec_leaf_prim(vm: &mut Vm, p: &Prim) -> (r: Result<(), Failure>)
    requires
        !(p is Colon || p is ColonImm || p is SemiColon || p is CondIf || p is CondThen
            || p is CondElse || p is CondEnd || p is CondRepeat || p is Defer || p is BeginDef
            || p is CaptureInt || p is CallByName || p is VarIntCtor || p is VarObjCtor),
    ensures
        leaf_prim_rel(vmv(*old(vm)), *p, vmv(*final(vm)), res_view(r)),
{
    proof {
        reveal(crate::sem::leaf_prim_rel);
    }
    match p {
        Prim::PushInt(_) | Prim::PushObj(_) | Prim::IntBin(_) | Prim::IntDup | Prim::IntDup2
            | Prim::IntDrop | Prim::IntSwap => exec_stack_prim(vm, p),
        Prim::ObjDup | Prim::ObjDrop | Prim::ObjSwap | Prim::ObjByte | Prim::ObjRefs
            | Prim::ObjRefCount | Prim::ObjByteCount | Prim::ObjConcat | Prim::ObjSlice
            | Prim::ObjIntoRef => exec_object_prim(vm, p),
        Prim::StrDecimal => exec_decimal_prim(vm, p),
        Prim::StrSplit => exec_split_prim(vm, p),
        _ => exec_host_prim(vm, p),
    }
}

/// Runs a literal push or an integer-stack primitive.
#[verifier::rlimit(100)]
fn exec_stack_prim(vm: &mut Vm, p: &Prim) -> (r: Result<(), Failure>)
    requires
        p is PushInt || p is PushObj || p is IntBin || p is IntDup || p is IntDup2 || p is IntDrop
            || p is IntSwap,
    ensures
        leaf_prim_rel(vmv(*old(vm)), *p, vmv(*final(vm)), res_view(r)),
{
    proof {
        reveal(crate::sem::leaf_prim_rel);
    }
    let ghost a = vmv(*old(vm));
    match p {
        Prim::PushInt(x) => {
            push_int(vm, rc_dup(x));
            Ok(())
        },
        Prim::PushObj(o) => {
            push_obj(vm, rc_dup(o));
            Ok(())
        },
        Prim::IntBin(op) => {
            let n = vm.ints.len();
            if n < 2 {
                return Err(Failure::Underflow);
            }
            let z = match int_bin_exec(*op, &vm.ints[n - 2], &vm.ints[n - 1]) {
                Ok(z) => z,
                Err(f) => {
                    return Err(f);
                },
            };
            vm.ints.truncate(n - 2);
            proof {
                assert(vmv(*vm).ints =~= a.ints.take(n - 2));
                assert(vmv(*vm) =~~= (VmV { ints: a.ints.take(n - 2), ..a }));
            }
            push_int(vm, Rc::new(z));
            proof {
                assert(vmv(*vm).ints =~= a.ints.take(n - 2).push(vmv(*vm).ints.last()));
            }
            Ok(())
        },
        Prim::IntDup => {
            let n = vm.ints.len();
            if n < 1 {
                return Err(Failure::Underflow);
            }
            let x = rc_dup(&vm.ints[n - 1]);
            push_int(vm, x);
            Ok(())
        },
        Prim::IntDup2 => {
            let n = vm.ints.len();
            if n < 2 {
                return Err(Failure::Underflow);
            }
            let x = rc_dup(&vm.ints[n - 2]);
            let y = rc_dup(&vm.ints[n - 1]);
            push_int(vm, x);
            push_int(vm, y);
            proof {
                assert(vmv(*vm).ints =~= a.ints + a.ints.skip(n - 2));
                assert(vmv(*vm) =~~= (VmV { ints: a.ints + a.ints.skip(n - 2), ..a }));
            }
            Ok(())
        },
        Prim::IntDrop => {
            match pop_int(vm) {
                Some(_) => Ok(()),
                None => Err(Failure::Underflow),
            }
        },
        Prim::IntSwap => {
            let n = vm.ints.len();
            if n < 2 {
                return Err(Failure::Underflow);
            }
            let y = match pop_int(vm) {
                Some(v) => v,
                None => {
                    return Err(Failure::Underflow);
                },
            };
            let x = match pop_int(vm) {
                Some(v) => v,
                None => {
                    return Err(Failure::Underflow);
                },
            };
            push_int(vm, y);
            push_int(vm, x);
            proof {
                assert(a.ints.drop_last().drop_last() =~= a.ints.take(n - 2));
                assert(vmv(*vm) =~~= (VmV {
                    ints: a.ints.take(n - 2).push(a.ints[n - 1]).push(a.ints[n - 2]),
                    ..a
                }));
            }
            Ok(())
        },
        _ => {
            proof {
                assert(false);
            }
            Err(Failure::Depth)
        },
    }
}

/// Runs an object-stack primitive.
#[verifier::rlimit(100)]
fn exec_object_prim(vm: &mut Vm, p: &Prim) -> (r: Result<(), Failure>)
    requires
        p is ObjDup || p is ObjDrop || p is ObjSwap || p is ObjByte || p is ObjRefs
            || p is ObjRefCount || p is ObjByteCount || p is ObjConcat || p is ObjSlice
            || p is ObjIntoRef,
    ensures
        leaf_prim_rel(vmv(*old(vm)), *p, vmv(*final(vm)), res_view(r)),
{
    proof {
        reveal(crate::sem::leaf_prim_rel);
    }
    let ghost a = vmv(*old(vm));
    match p {
        Prim::ObjDup => {
            let n = vm.objs.len();
            if n < 1 {
                return Err(Failure::Underflow);
            }
            let x = rc_dup(&vm.objs[n - 1]);
            push_obj(vm, x);
            Ok(())
        },
        Prim::ObjDrop => {
            match pop_obj(vm) {
                Some(_) => Ok(()),
                None => Err(Failure::Underflow),
            }
        },
        Prim::ObjSwap => {
            let n = vm.objs.len();
            if n < 2 {
                return Err(Failure::Underflow);
            }
            let y = match pop_obj(vm) {
                Some(v) => v,
                None => {
                    return Err(Failure::Underflow);
                },
            };
            let x = match pop_obj(vm) {
                Some(v) => v,
                None => {
                    return Err(Failure::Underflow);
                },
            };
            push_obj(vm, y);
            push_obj(vm, x);
            proof {
                assert(a.objs.drop_last().drop_last() =~= a.objs.take(n - 2));
                assert(vmv(*vm) =~~= (VmV {
                    objs: a.objs.take(n - 2).push(a.objs[n - 1]).push(a.objs[n - 2]),
                    ..a
                }));
            }
            Ok(())
        },
        Prim::ObjByte => {
            let ni = vm.ints.len();
            let no = vm.objs.len();
            if ni < 1 || no < 1 {
                return Err(Failure::Underflow);
            }
            let dlen = vm.objs[no - 1].data.len();
            let i = match big_to_usize(&vm.ints[ni - 1]) {
                Some(i) => i,
                None => {
                    return Err(Failure::Convert);
                },
            };
            if i >= dlen {
                return Err(Failure::Convert);
            }
            let byte = vm.objs[no - 1].data[i];
            let _ = pop_int(vm);
            let _ = pop_obj(vm);
            push_int(vm, Rc::new(big_from_u64(byte as u64)));
            proof {
                assert(vmv(*vm).ints =~= a.ints.drop_last().push(vmv(*vm).ints.last()));
            }
            Ok(())
        },
        Prim::ObjRefs => {
            let ni = vm.ints.len();
            let no = vm.objs.len();
            if ni < 1 || no < 1 {
                return Err(Failure::Underflow);
            }
            let rlen = vm.objs[no - 1].refs.len();
            let i = match big_to_usize(&vm.ints[ni - 1]) {
                Some(i) => i,
                None => {
                    return Err(Failure::Convert);
                },
            };
            if i >= rlen {
                return Err(Failure::Convert);
            }
            let child = rc_dup(&vm.objs[no - 1].refs[i]);
            let _ = pop_int(vm);
            let _ = pop_obj(vm);
            push_obj(vm, child);
            Ok(())
        },
        Prim::ObjRefCount => {
            let o = match pop_obj(vm) {
                Some(o) => o,
                None => {
                    return Err(Failure::Underflow);
                },
            };
            let k = o.refs.len();
            push_int(vm, Rc::new(big_from_u64(k as u64)));
            Ok(())
        },
        Prim::ObjByteCount => {
            let o = match pop_obj(vm) {
                Some(o) => o,
                None => {
                    return Err(Failure::Underflow);
                },
            };
            let k = o.data.len();
            push_int(vm, Rc::new(big_from_u64(k as u64)));
            Ok(())
        },
        Prim::ObjConcat => {
            let n = vm.objs.len();
            if n < 2 {
                return Err(Failure::Underflow);
            }
            let y = match pop_obj(vm) {
                Some(v) => v,
                None => {
                    return Err(Failure::Underflow);
                },
            };
            let x = match pop_obj(vm) {
                Some(v) => v,
                None => {
                    return Err(Failure::Underflow);
                },
            };
            let z = x.concat(&y);
            push_obj(vm, Rc::new(z));
            proof {
                assert(a.objs.drop_last().drop_last() =~= a.objs.take(n - 2));
                assert(vmv(*vm).objs =~= a.objs.take(n - 2).push(vmv(*vm).objs.last()));
            }
            Ok(())
        },
        Prim::ObjSlice => {
            let ni = vm.ints.len();
            let no = vm.objs.len();
            if ni < 4 || no < 1 {
                return Err(Failure::Underflow);
            }
            let dlen = vm.objs[no - 1].data.len();
            let rlen = vm.objs[no - 1].refs.len();
            let ds = big_to_usize(&vm.ints[ni - 4]);
            let de = big_to_usize(&vm.ints[ni - 3]);
            let rs = big_to_usize(&vm.ints[ni - 2]);
            let re = big_to_usize(&vm.ints[ni - 1]);
            let (ds, de, rs, re) = match (ds, de, rs, re) {
                (Some(a1), Some(b1), Some(c1), Some(d1)) => (a1, b1, c1, d1),
                _ => {
                    return Err(Failure::Convert);
                },
            };
            if !(ds <= de && de <= dlen && rs <= re && re <= rlen) {
                return Err(Failure::Convert);
            }
            let o = match pop_obj(vm) {
                Some(o) => o,
                None => {
                    return Err(Failure::Underflow);
                },
            };
            vm.ints.truncate(ni - 4);
            proof {
                assert(vmv(*vm).ints =~= a.ints.take(ni - 4));
                assert(vmv(*vm) =~~= (VmV {
                    ints: a.ints.take(ni - 4),
                    objs: a.objs.drop_last(),
                    ..a
                }));
            }
            let s = o.slice(ds..de, rs..re);
            push_obj(vm, Rc::new(s));
            proof {
                assert(vmv(*vm).objs =~= a.objs.drop_last().push(vmv(*vm).objs.last()));
            }
            Ok(())
        },
        Prim::ObjIntoRef => {
            let o = match pop_obj(vm) {
                Some(o) => o,
                None => {
                    return Err(Failure::Underflow);
                },
            };
            let w = o.intoref();
            push_obj(vm, Rc::new(w));
            proof {
                assert(vmv(*vm).objs =~= a.objs.drop_last().push(vmv(*vm).objs.last()));
            }
            Ok(())
        },
        _ => {
            proof {
                assert(false);
            }
            Err(Failure::Depth)
        },
    }
}

/// Runs the decimal-formatting primitive.
#[verifier::rlimit(100)]
fn exec_decimal_prim(vm: &mut Vm, p: &Prim) -> (r: Result<(), Failure>)
    requires
        p is StrDecimal,
    ensures
        leaf_prim_rel(vmv(*old(vm)), *p, vmv(*final(vm)), res_view(r)),
{
    proof {
        reveal(crate::sem::leaf_prim_rel);
    }
    let ghost a = vmv(*old(vm));
    match p {
        Prim::StrDecimal => {
            let x = match pop_int(vm) {
                Some(v) => v,
                None => {
                    return Err(Failure::Underflow);
                },
            };
            let bytes = big_to_dec_bytes(&x);
            push_obj(vm, Rc::new(Object::from_bytes(bytes)));
            proof {
                assert(vmv(*vm).objs =~= a.objs.push(vmv(*vm).objs.last()));
                assert(vmv(*vm).objs.last()@.data == crate::bigint::dec_bytes(
                    big_val(a.ints.last()),
                ));
                assert(vmv(*vm).objs.last()@.refs.len() == 0);
                assert(vmv(*vm) =~~= (VmV {
                    ints: a.ints.drop_last(),
                    objs: vmv(*vm).objs,
                    ..a
                }));
            }
            Ok(())
        },
        _ => {
            proof {
                assert(false);
            }
            Err(Failure::Depth)
        },
    }
}

/// Runs the splitting primitive.
#[verifier::rlimit(100)]
fn exec_split_prim(vm: &mut Vm, p: &Prim) -> (r: Result<(), Failure>)
    requires
        p is StrSplit,
    ensures
        leaf_prim_rel(vmv(*old(vm)), *p, vmv(*final(vm)), res_view(r)),
{
    proof {
        reveal(crate::sem::leaf_prim_rel);
    }
    let ghost a = vmv(*old(vm));
    match p {
        Prim::StrSplit => {
            let ni = vm.ints.len();
            let no = vm.objs.len();
            if ni < 1 || no < 1 {
                return Err(Failure::Underflow);
            }
            let c = match big_to_u32(&vm.ints[ni - 1]) {
                Some(c) => c,
                None => {
                    return Err(Failure::Convert);
                },
            };
            if !(c <= 0x7F || (0x80 <= c && c <= 0x7FF) || (0x800 <= c && c <= 0xFFFF && !(0xD800
                <= c && c <= 0xDFFF)) || (0x10000 <= c && c <= 0x10FFFF)) {
                return Err(Failure::Convert);
            }
            assert(is_scalar(c));
            if !utf8_ok(&vm.objs[no - 1].data) {
                return Err(Failure::Lex);
            }
            let _ = pop_int(vm);
            let o = match pop_obj(vm) {
                Some(o) => o,
                None => {
                    return Err(Failure::Underflow);
                },
            };
            let sep = encode_scalar_exec(c);
            let pieces = split_bytes(&o.data, &sep);
            let list = pieces_object(pieces);
            push_obj(vm, Rc::new(list));
            proof {
                assert(vmv(*vm).objs =~= a.objs.drop_last().push(vmv(*vm).objs.last()));
            }
            Ok(())
        },
        _ => {
            proof {
                assert(false);
            }
            Err(Failure::Depth)
        },
    }
}

/// Runs a variable word, an effect word or a staged host answer.
#[verifier::rlimit(100)]
fn exec_host_prim(vm: &mut Vm, p: &Prim) -> (r: Result<(), Failure>)
    requires
        p is VarGetInt || p is VarSetInt || p is VarGetObj || p is VarSetObj || p is EmitPrintLn
            || p is EmitPrint || p is EmitClear || p is EmitClearLine || p is EmitFlush
            || p is SetCursor || p is TermWait || p is TermSize || p is FsRead || p is UserPanic,
    ensures
        leaf_prim_rel(vmv(*old(vm)), *p, vmv(*final(vm)), res_view(r)),
{
    proof {
        reveal(crate::sem::leaf_prim_rel);
    }
    let ghost a = vmv(*old(vm));
    match p {
        Prim::VarGetInt(ci) => {
            if *ci >= vm.int_cells.len() {
                return Err(Failure::BadCell);
            }
            let x = rc_dup(&vm.int_cells[*ci]);
            push_int(vm, x);
            Ok(())
        },
        Prim::VarSetInt(ci) => {
            if *ci >= vm.int_cells.len() {
                return Err(Failure::BadCell);
            }
            let x = match pop_int(vm) {
                Some(v) => v,
                None => {
                    return Err(Failure::Underflow);
                },
            };
            proof {
                assert(vmv(*vm).int_cells == a.int_cells);
                assert(vm.int_cells@.len() == a.int_cells.len());
            }
            vm.int_cells.set(*ci, x);
            proof {
                assert(vmv(*vm).int_cells =~= a.int_cells.update(*ci as int, a.ints.last()));
                assert(vmv(*vm) =~~= (VmV {
                    ints: a.ints.drop_last(),
                    int_cells: a.int_cells.update(*ci as int, a.ints.last()),
                    ..a
                }));
            }
            Ok(())
        },
        Prim::VarGetObj(ci) => {
            if *ci >= vm.obj_cells.len() {
                return Err(Failure::BadCell);
            }
            let x = rc_dup(&vm.obj_cells[*ci]);
            push_obj(vm, x);
            Ok(())
        },
        Prim::VarSetObj(ci) => {
            if *ci >= vm.obj_cells.len() {
                return Err(Failure::BadCell);
            }
            let x = match pop_obj(vm) {
                Some(v) => v,
                None => {
                    return Err(Failure::Underflow);
                },
            };
            proof {
                assert(vmv(*vm).obj_cells == a.obj_cells);
                assert(vm.obj_cells@.len() == a.obj_cells.len());
            }
            vm.obj_cells.set(*ci, x);
            proof {
                assert(vmv(*vm).obj_cells =~= a.obj_cells.update(*ci as int, a.objs.last()));
                assert(vmv(*vm) =~~= (VmV {
                    objs: a.objs.drop_last(),
                    obj_cells: a.obj_cells.update(*ci as int, a.objs.last()),
                    ..a
                }));
            }
            Ok(())
        },
        Prim::EmitPrintLn => {
            let o = match pop_obj(vm) {
                Some(o) => o,
                None => {
                    return Err(Failure::Underflow);
                },
            };
            let mut bytes: Vec<u8> = Vec::new();
            crate::textutil::append_bytes(&mut bytes, &o.data);
            bytes.push('\n' as u8);
            proof {
                assert(bytes@ =~= a.objs.last()@.data + seq![('\n' as u8)]);
            }
            push_effect(vm, Effect::Print(bytes));
            Ok(())
        },
        Prim::EmitPrint => {
            let o = match pop_obj(vm) {
                Some(o) => o,
                None => {
                    return Err(Failure::Underflow);
                },
            };
            let mut bytes: Vec<u8> = Vec::new();
            crate::textutil::append_bytes(&mut bytes, &o.data);
            proof {
                assert(bytes@ =~= a.objs.last()@.data);
            }
            push_effect(vm, Effect::Print(bytes));
            Ok(())
        },
        Prim::EmitClear => {
            push_effect(vm, Effect::Clear);
            Ok(())
        },
        Prim::EmitClearLine => {
            push_effect(vm, Effect::ClearLine);
            Ok(())
        },
        Prim::EmitFlush => {
            push_effect(vm, Effect::Flush);
            Ok(())
        },
        Prim::SetCursor => {
            let n = vm.ints.len();
            if n < 2 {
                return Err(Failure::Underflow);
            }
            let y = match big_to_u16(&vm.ints[n - 1]) {
                Some(v) => v,
                None => {
                    return Err(Failure::Convert);
                },
            };
            let x = match big_to_u16(&vm.ints[n - 2]) {
                Some(v) => v,
                None => {
                    return Err(Failure::Convert);
                },
            };
            vm.ints.truncate(n - 2);
            proof {
                assert(vmv(*vm).ints =~= a.ints.take(n - 2));
                assert(vmv(*vm) =~~= (VmV { ints: a.ints.take(n - 2), ..a }));
            }
            push_effect(vm, Effect::SetCursor(x, y));
            Ok(())
        },
        Prim::TermWait => {
            if vm.events.len() == 0 {
                return Err(Failure::NeedEvent);
            }
            let ev = vm.events.remove(0);
            proof {
                assert(vmv(*vm).events =~= a.events.drop_first());
                assert(vmv(*vm) =~~= (VmV { events: a.events.drop_first(), ..a }));
            }
            push_int(vm, ev);
            Ok(())
        },
        Prim::TermSize => {
            let (w, h) = match vm.term_size {
                Some(s) => s,
                None => {
                    return Err(Failure::NeedSize);
                },
            };
            push_int(vm, Rc::new(big_from_u64(w as u64)));
            push_int(vm, Rc::new(big_from_u64(h as u64)));
            proof {
                assert(vmv(*vm).ints.take(a.ints.len() as int) =~= a.ints);
            }
            Ok(())
        },
        Prim::FsRead => {
            let no = vm.objs.len();
            if no < 1 {
                return Err(Failure::Underflow);
            }
            if !utf8_ok(&vm.objs[no - 1].data) {
                return Err(Failure::Lex);
            }
            let data = match files_lookup(&vm.files, &vm.objs[no - 1].data) {
                Some(d) => d,
                None => {
                    let mut path: Vec<u8> = Vec::new();
                    crate::textutil::append_bytes(&mut path, &vm.objs[no - 1].data);
                    return Err(Failure::NeedFile(path));
                },
            };
            let _ = pop_obj(vm);
            push_obj(vm, Rc::new(Object::from_bytes(data)));
            proof {
                assert(vmv(*vm).objs =~= a.objs.drop_last().push(vmv(*vm).objs.last()));
            }
            Ok(())
        },
        Prim::UserPanic => {
            let o = match pop_obj(vm) {
                Some(o) => o,
                None => {
                    return Err(Failure::Underflow);
                },
            };
            let mut msg: Vec<u8> = Vec::new();
            crate::textutil::append_bytes(&mut msg, &o.data);
            Err(Failure::User(msg))
        },
        _ => {
            proof {
                assert(false);
            }
            Err(Failure::Depth)
        },
    }
}

/// Whether the bytes are valid UTF-8, by way of the standard decoder.
fn utf8_ok(v: &Vec<u8>) -> (r: bool)
    ensures
        r == vstd::utf8::valid_utf8(v@),
{
    let mut copy: Vec<u8> = Vec::new();
    crate::textutil::append_bytes(&mut copy, v);
    proof {
        assert(copy@ =~= v@);
    }
    match string_from_utf8(copy) {
        Some(_) => true,
        None => false,
    }
}

/// The list object whose children are the given byte strings.
fn pieces_object(pieces: Vec<Vec<u8>>) -> (r: Object)
    ensures
        r@.data.len() == 0,
        r@.refs.len() == pieces@.len(),
        forall|i: int|
            0 <= i < pieces@.len() ==> #[trigger] r@.refs[i]@.data == pieces@[i]@ && r@.refs[i]@.refs.len()
                == 0,
{
    let mut refs: Vec<Rc<Object>> = Vec::new();
    let n = pieces.len();
    let mut pieces = pieces;
    let mut i: usize = 0;
    let ghost pv = pieces@;
    while i < n
        invariant
            0 <= i <= n == pv.len(),
            pieces@ == pv.skip(i as int),
            refs@.len() == i,
            forall|j: int|
                0 <= j < i ==> (#[trigger] refs@[j])@.data == pv[j]@ && refs@[j]@.refs.len() == 0,
        decreases n - i,
    {
        let piece = pieces.remove(0);
        proof {
            assert(pv.skip(i as int)[0] == piece);
            assert(pieces@ =~= pv.skip(i as int + 1));
        }
        refs.push(Rc::new(Object::from_bytes(piece)));
        i = i + 1;
    }
    let r = Object::from_refs(refs);
    r
}

/// The staged file contents for a path, if one is staged; the latest staged
/// entry for a path wins.
fn files_lookup(files: &Vec<(Vec<u8>, Vec<u8>)>, path: &Vec<u8>) -> (r: Option<Vec<u8>>)
    ensures
        match r {
            Some(d) => crate::vm::files_map(files@).dom().contains(path@) && d@
                == crate::vm::files_map(files@)[path@],
            None => !crate::vm::files_map(files@).dom().contains(path@),
        },
{
    let n = files.len();
    let mut i: usize = n;
    while i > 0
        invariant
            0 <= i <= n == files@.len(),
            forall|j: int| i <= j < n ==> files@[j].0@ != path@,
        decreases i,
    {
        i = i - 1;
        if bytes_eq(&files[i].0, path) {
            let mut d: Vec<u8> = Vec::new();
            crate::textutil::append_bytes(&mut d, &files[i].1);
            proof {
                assert(d@ =~= files@[i as int].1@);
                lemma_files_map_found(files@, i as int);
            }
            return Some(d);
        }
    }
    proof {
        lemma_files_map_absent(files@, path@);
    }
    None
}

proof fn lemma_files_map_found(s: Seq<(Vec<u8>, Vec<u8>)>, i: int)
    requires
        0 <= i < s.len(),
        forall|j: int| i < j < s.len() ==> s[j].0@ != s[i].0@,
    ensures
        crate::vm::files_map(s).dom().contains(s[i].0@),
        crate::vm::files_map(s)[s[i].0@] == s[i].1@,
    decreases s.len(),
{
    if i == s.len() - 1 {
    } else {
        assert(s.drop_last()[i] == s[i]);
        lemma_files_map_found(s.drop_last(), i);
    }
}

proof fn lemma_files_map_absent(s: Seq<(Vec<u8>, Vec<u8>)>, t: Seq<u8>)
    requires
        forall|j: int| 0 <= j < s.len() ==> s[j].0@ != t,
    ensures
        !crate::vm::files_map(s).dom().contains(t),
    decreases s.len(),
{
    if s.len() > 0 {
        lemma_files_map_absent(s.drop_last(), t);
    }
}

/// Byte-for-byte equality of two byte strings.
pub fn bytes_eq(x: &Vec<u8>, y: &Vec<u8>) -> (r: bool)
    ensures
        r == (x@ == y@),
{
    if x.len() != y.len() {
        proof {
            if x@ == y@ {
                assert(x@.len() == y@.len());
            }
        }
        return false;
    }
    let mut i: usize = 0;
    while i < x.len()
        invariant
            0 <= i <= x@.len() == y@.len(),
            forall|j: int| 0 <= j < i ==> x@[j] == y@[j],
        decreases x@.len() - i,
    {
        if x[i] != y[i] {
            return false;
        }
        i = i + 1;
    }
    proof {
        assert(x@ =~= y@);
    }
    true
}

} // verus!
