use vstd::prelude::*;
use std::rc::Rc;
use crate::object::rc_dup;
use crate::bigint::big_val;
use crate::bigint::big_from_u64;
use crate::bigint::big_cmp;
use crate::words::Word;
use crate::words::Body;
use crate::words::Prim;
use crate::words::CondBody;
use crate::words::table_get;
use crate::words::word_is_block;
use crate::words::word_is_branch;
use crate::words::word_is_prim;
use crate::words::word_pushes_int;
use crate::vm::Vm;
use crate::vm::VmV;
use crate::vm::Failure;
use crate::vm::FailV;
use crate::vm::Builder;
use crate::vm::CondBuilder;
use crate::vm::Stage;
use crate::vm::vmv;
use crate::vm::res_view;
use crate::vm::builder_view;
use crate::sem::word_rel;
use crate::sem::body_rel;
use crate::sem::block_rel;
use crate::sem::branch_rel;
use crate::sem::loop_rel;
use crate::sem::named_rel;
use crate::sem::prim_rel;
use crate::sem::colon_rel;
use crate::sem::cond_close_rel;
use crate::sem::drive_rel;
use crate::sem::builder_push;
use crate::sem::lex_step;
use crate::sem::reads_token_ok;
use crate::sem::token_chars;
use crate::sem::read_fail_rel;
use crate::sem::set_name;
use crate::interp::exec_leaf_prim;
use crate::textutil::string_from_utf8;
use vstd::utf8::encode_utf8;

verus! {

/// Reads the next token as text; the end of the input and invalid UTF-8 are
/// failures here, because the caller is a word that needs a name.
fn read_token(vm: &mut Vm) -> (r: Result<String, Failure>)
    ensures
        match r {
            Ok(s) => reads_token_ok(vmv(*old(vm))) && s@ == token_chars(vmv(*old(vm))) && vmv(
                *final(vm),
            ) == lex_step(vmv(*old(vm))),
            Err(f) => !reads_token_ok(vmv(*old(vm))) && read_fail_rel(
                vmv(*old(vm)),
                vmv(*final(vm)),
                Err(crate::vm::fail_view(f)),
            ),
        },
{
    match vm.read_word() {
        Ok(Some(s)) => Ok(s),
        Ok(None) => Err(Failure::Eoi),
        Err(f) => Err(f),
    }
}

/// Appends a word to the open builder, into the active conditional buffer
/// when one is open.
fn builder_append(vm: &mut Vm, w: Word)
    requires
        old(vm).comp is Some,
    ensures
        vmv(*final(vm)) == (VmV {
            comp: Some(
                builder_push(builder_view(old(vm).comp.unwrap()), w),
            ),
            ..vmv(*old(vm))
        }),
{
    let ghost wg = w;
    let mut bd = match vm.comp.take() {
        Some(bd) => bd,
        None => {
            proof {
                assert(false);
            }
            return ;
        },
    };
    match bd.cond.take() {
        Some(mut cb) => {
            match cb.stage {
                Stage::Cond => {
                    cb.cond_words.push(w);
                    proof {
                        assert(cb.cond_words@.drop_last() =~= old(vm).comp.unwrap().cond.unwrap().cond_words@);
                    }
                },
                Stage::True => {
                    cb.tru.push(w);
                    proof {
                        assert(cb.tru@.drop_last() =~= old(vm).comp.unwrap().cond.unwrap().tru@);
                    }
                },
                Stage::False => {
                    cb.fals.push(w);
                    proof {
                        assert(cb.fals@.drop_last() =~= old(vm).comp.unwrap().cond.unwrap().fals@);
                    }
                },
            }
            bd.cond = Some(cb);
        },
        None => {
            bd.words.push(w);
            proof {
                assert(bd.words@.drop_last() =~= old(vm).comp.unwrap().words@);
            }
        },
    }
    vm.comp = Some(bd);
    proof {
        assert(builder_view(vm.comp.unwrap()) =~~= builder_push(
            builder_view(old(vm).comp.unwrap()),
            wg,
        ));
        assert(vmv(*vm) =~~= (VmV {
            comp: Some(builder_push(builder_view(old(vm).comp.unwrap()), wg)),
            ..vmv(*old(vm))
        }));
    }
}

/// Runs one word: appends it to the open builder when it is not immediate
/// and the compiler is active, and runs its body otherwise.
pub fn exec_word(vm: &mut Vm, w: &Word, fuel: u64) -> (r: Result<(), Failure>)
    ensures
        word_rel(vmv(*old(vm)), *w, vmv(*final(vm)), res_view(r), fuel as nat),
    decreases fuel, 6int, 0int,
{
    if vm.comp.is_some() && !w.immediate {
        let w2 = Word { body: rc_dup(&w.body), immediate: true };
        builder_append(vm, w2);
        Ok(())
    } else {
        exec_body(vm, &*w.body, fuel)
    }
}

/// Runs a word body.
pub fn exec_body(vm: &mut Vm, b: &Body, fuel: u64) -> (r: Result<(), Failure>)
    ensures
        body_rel(vmv(*old(vm)), *b, vmv(*final(vm)), res_view(r), fuel as nat),
    decreases fuel, 5int, 0int,
{
    let ghost a = vmv(*old(vm));
    match b {
        Body::Prim(p) => {
            let rr = exec_prim(vm, p, fuel);
            proof {
                assert(*b == Body::Prim(*p));
                crate::sem::lemma_body_rel_prim(a, *p, vmv(*vm), res_view(rr), fuel as nat);
            }
            rr
        },
        Body::Block(v) => {
            let rr = exec_block(vm, &**v, 0, fuel);
            proof {
                assert((**v)@.skip(0) =~= v@);
                assert(body_rel(a, *b, vmv(*vm), res_view(rr), fuel as nat));
            }
            rr
        },
        Body::Branch(cb) => {
            let rr = if cb.looping {
                exec_loop(vm, &cb.cond_words, &cb.tru, &cb.fals, fuel)
            } else {
                exec_branch(vm, &cb.cond_words, &cb.tru, &cb.fals, fuel)
            };
            proof {
                assert(body_rel(a, *b, vmv(*vm), res_view(rr), fuel as nat));
            }
            rr
        },
        Body::Named(tbl) => {
            let rr = exec_named(vm, &**tbl, fuel);
            proof {
                assert(body_rel(a, *b, vmv(*vm), res_view(rr), fuel as nat));
            }
            rr
        },
    }
}

/// Runs the words of a compiled sequence from `i` on, in order; the first
/// failure stops the run.
pub fn exec_block(vm: &mut Vm, ws: &Vec<Word>, i: usize, fuel: u64) -> (r: Result<(), Failure>)
    requires
        i <= ws@.len(),
    ensures
        block_rel(vmv(*old(vm)), ws@.skip(i as int), vmv(*final(vm)), res_view(r), fuel as nat),
    decreases fuel, 3int, ws@.len() - i,
{
    let ghost a = vmv(*old(vm));
    if i == ws.len() {
        proof {
            assert(ws@.skip(i as int) =~= Seq::<Word>::empty());
        }
        return Ok(());
    }
    if fuel == 0 {
        return Err(Failure::Depth);
    }
    let w = ws[i].clone();
    let ghost fm: nat = (fuel as nat - 1) as nat;
    proof {
        assert(ws@.skip(i as int)[0] == w);
        assert((fuel - 1) as nat == fm);
    }
    match exec_word(vm, &w, fuel - 1) {
        Err(f) => {
            proof {
                assert(word_rel(a, ws@.skip(i as int)[0], vmv(*vm), res_view(Err::<(), Failure>(f)), fm));
                crate::sem::lemma_block_rel_step(
                    a,
                    ws@.skip(i as int),
                    vmv(*vm),
                    res_view(Err::<(), Failure>(f)),
                    vmv(*vm),
                    res_view(Err::<(), Failure>(f)),
                    fuel as nat,
                );
            }
            Err(f)
        },
        Ok(_) => {
            let ghost mid = vmv(*vm);
            proof {
                assert(word_rel(a, ws@.skip(i as int)[0], mid, Ok::<(), FailV>(()), fm));
            }
            let rr = exec_block(vm, ws, i + 1, fuel);
            proof {
                assert(ws@.skip(i as int).drop_first() =~= ws@.skip(i as int + 1));
                crate::sem::lemma_block_rel_step(
                    a,
                    ws@.skip(i as int),
                    mid,
                    Ok::<(), FailV>(()),
                    vmv(*vm),
                    res_view(rr),
                    fuel as nat,
                );
            }
            rr
        },
    }
}

/// Runs a conditional: the condition once, then exactly one branch, picked
/// by the popped integer.
pub fn exec_branch(vm: &mut Vm, c: &Vec<Word>, t: &Vec<Word>, f: &Vec<Word>, fuel: u64) -> (r:
    Result<(), Failure>)
    ensures
        branch_rel(vmv(*old(vm)), c@, t@, f@, vmv(*final(vm)), res_view(r), fuel as nat),
    decreases fuel, 4int, 0int,
{
    let ghost a = vmv(*old(vm));
    let r0 = exec_block(vm, c, 0, fuel);
    proof {
        assert(c@.skip(0) =~= c@);
    }
    match r0 {
        Err(f0) => {
            proof {
                assert(crate::sem::step_trig(vmv(*vm), res_view(Err::<(), Failure>(f0))));
            }
            return Err(f0);
        },
        Ok(_) => {},
    }
    let ghost mid = vmv(*vm);
    proof {
        assert(crate::sem::step_trig(mid, Ok::<(), FailV>(())));
    }
    let x = match crate::interp::pop_int(vm) {
        Some(x) => x,
        None => {
            return Err(Failure::Underflow);
        },
    };
    let zero = big_from_u64(0);
    let taken = big_cmp(&x, &zero) != 0;
    let rr = if taken {
        exec_block(vm, t, 0, fuel)
    } else {
        exec_block(vm, f, 0, fuel)
    };
    proof {
        assert(t@.skip(0) =~= t@);
        assert(f@.skip(0) =~= f@);
        assert(branch_rel(a, c@, t@, f@, vmv(*vm), res_view(rr), fuel as nat));
    }
    rr
}

/// Runs a loop: the condition, a pop, and the body, over and over while the
/// popped value is non-zero, then the final part once. Each round consumes
/// one unit of the nesting budget.
#[verifier::loop_isolation(false)]
pub fn exec_loop(vm: &mut Vm, c: &Vec<Word>, t: &Vec<Word>, f: &Vec<Word>, fuel: u64) -> (r: Result<
    (),
    Failure,
>)
    ensures
        loop_rel(vmv(*old(vm)), c@, t@, f@, vmv(*final(vm)), res_view(r), fuel as nat),
    decreases fuel, 4int, 0int,
{
    let ghost a0 = vmv(*old(vm));
    let mut fc = fuel;
    loop
        invariant
            fc <= fuel,
            forall|b2: VmV, r2: Result<(), FailV>|
                #[trigger] crate::sem::step_trig(b2, r2) ==> (loop_rel(
                    vmv(*vm),
                    c@,
                    t@,
                    f@,
                    b2,
                    r2,
                    fc as nat,
                ) ==> loop_rel(a0, c@, t@, f@, b2, r2, fuel as nat)),
        decreases fc,
    {
        let ghost prev = vmv(*vm);
        if fc == 0 {
            proof {
                assert(crate::sem::step_trig(prev, Err::<(), FailV>(FailV::Depth)));
                assert(fc as nat == 0nat);
                assert(loop_rel(prev, c@, t@, f@, prev, Err::<(), FailV>(FailV::Depth), fc as nat));
            }
            return Err(Failure::Depth);
        }
        let r0 = exec_block(vm, c, 0, fc);
        proof {
            assert(c@.skip(0) =~= c@);
        }
        match r0 {
            Err(f0) => {
                proof {
                    assert(crate::sem::step_trig(vmv(*vm), res_view(Err::<(), Failure>(f0))));
                    assert(loop_rel(prev, c@, t@, f@, vmv(*vm), res_view(Err::<(), Failure>(f0)), fc as nat));
                }
                return Err(f0);
            },
            Ok(_) => {},
        }
        let ghost cond_mid = vmv(*vm);
        proof {
            assert(crate::sem::step_trig(cond_mid, Ok::<(), FailV>(())));
        }
        let x = match crate::interp::pop_int(vm) {
            Some(x) => x,
            None => {
                proof {
                    assert(crate::sem::step_trig(vmv(*vm), Err::<(), FailV>(FailV::Underflow)));
                    assert(loop_rel(
                        prev,
                        c@,
                        t@,
                        f@,
                        vmv(*vm),
                        Err::<(), FailV>(FailV::Underflow),
                        fc as nat,
                    ));
                }
                return Err(Failure::Underflow);
            },
        };
        let zero = big_from_u64(0);
        if big_cmp(&x, &zero) == 0 {
            let rr = exec_block(vm, f, 0, fc);
            proof {
                assert(f@.skip(0) =~= f@);
                assert(crate::sem::step_trig(vmv(*vm), res_view(rr)));
                assert(loop_rel(prev, c@, t@, f@, vmv(*vm), res_view(rr), fc as nat));
            }
            return rr;
        }
        let r1 = exec_block(vm, t, 0, fc);
        proof {
            assert(t@.skip(0) =~= t@);
            assert(crate::sem::step_trig(vmv(*vm), res_view(r1)));
        }
        match r1 {
            Err(f1) => {
                proof {
                    assert(loop_rel(prev, c@, t@, f@, vmv(*vm), res_view(Err::<(), Failure>(f1)), fc as nat));
                }
                return Err(f1);
            },
            Ok(_) => {},
        }
        proof {
            let ghost fcm: nat = (fc as nat - 1) as nat;
            assert((fc - 1) as nat == fcm);
            assert forall|b2: VmV, r2: Result<(), FailV>|
                #[trigger] crate::sem::step_trig(b2, r2) implies (loop_rel(
                vmv(*vm),
                c@,
                t@,
                f@,
                b2,
                r2,
                fcm,
            ) ==> loop_rel(a0, c@, t@, f@, b2, r2, fuel as nat)) by {
                if loop_rel(vmv(*vm), c@, t@, f@, b2, r2, fcm) {
                    assert(loop_rel(prev, c@, t@, f@, b2, r2, fc as nat));
                }
            }
        }
        fc = fc - 1;
    }
}

/// Runs a namespace word: reads the next token and runs the entry it names.
pub fn exec_named(vm: &mut Vm, tbl: &Vec<(String, Word)>, fuel: u64) -> (r: Result<(), Failure>)
    ensures
        named_rel(vmv(*old(vm)), tbl@, vmv(*final(vm)), res_view(r), fuel as nat),
    decreases fuel, 4int, 0int,
{
    let s = match read_token(vm) {
        Ok(s) => s,
        Err(f) => {
            return Err(f);
        },
    };
    match table_get(tbl, &s) {
        None => Err(Failure::Unknown(s)),
        Some(w) => {
            if fuel == 0 {
                return Err(Failure::Depth);
            }
            exec_word(vm, &w, fuel - 1)
        },
    }
}

/// Runs one primitive.
pub fn exec_prim(vm: &mut Vm, p: &Prim, fuel: u64) -> (r: Result<(), Failure>)
    ensures
        prim_rel(vmv(*old(vm)), *p, vmv(*final(vm)), res_view(r), fuel as nat),
    decreases fuel, 2int, 0int,
{
    proof {
        reveal(crate::sem::prim_rel);
    }
    match p {
        Prim::Colon => exec_colon(vm, false),
        Prim::ColonImm => exec_colon(vm, true),
        Prim::SemiColon => exec_semicolon(vm, fuel),
        Prim::CondIf => exec_cond_if(vm),
        Prim::CondThen => exec_cond_stage(vm, false),
        Prim::CondElse => exec_cond_stage(vm, true),
        Prim::CondEnd => exec_cond_close(vm, fuel, false),
        Prim::CondRepeat => exec_cond_close(vm, fuel, true),
        Prim::Defer => exec_defer(vm),
        Prim::BeginDef => exec_begin_def(vm),
        Prim::CaptureInt => exec_capture_int(vm),
        Prim::CallByName => exec_call_by_name(vm, fuel),
        Prim::VarIntCtor => exec_var_ctor(vm, true),
        Prim::VarObjCtor => exec_var_ctor(vm, false),
        _ => exec_leaf_prim(vm, p),
    }
}

/// `:` and `:!`: read the name and open a fresh builder.
fn exec_colon(vm: &mut Vm, imm: bool) -> (r: Result<(), Failure>)
    ensures
        colon_rel(vmv(*old(vm)), vmv(*final(vm)), res_view(r), imm),
{
    if vm.comp.is_some() {
        return Err(Failure::CompileState);
    }
    let name = match read_token(vm) {
        Ok(s) => s,
        Err(f) => {
            return Err(f);
        },
    };
    let ghost stepped = vmv(*vm);
    vm.comp = Some(Builder { name, immediate: imm, words: Vec::new(), cond: None });
    proof {
        assert(builder_view(vm.comp.unwrap()).words =~= Seq::<Word>::empty());
        assert(vmv(*vm) =~~= (VmV {
            input: stepped.input,
            comp: Some(builder_view(vm.comp.unwrap())),
            ..vmv(*old(vm))
        }));
    }
    Ok(())
}

/// `;`: finish the open definition and store it; a finished anonymous body
/// runs at once.
fn exec_semicolon(vm: &mut Vm, fuel: u64) -> (r: Result<(), Failure>)
    ensures
        prim_rel(vmv(*old(vm)), Prim::SemiColon, vmv(*final(vm)), res_view(r), fuel as nat),
    decreases fuel, 1int, 0int,
{
    proof {
        reveal(crate::sem::prim_rel);
    }
    let ghost a = vmv(*old(vm));
    let bd = match vm.comp.take() {
        Some(bd) => bd,
        None => {
            return Err(Failure::CompileState);
        },
    };
    if bd.cond.is_some() {
        vm.comp = Some(bd);
        proof {
            assert(vmv(*vm) =~~= a);
        }
        return Err(Failure::CompileState);
    }
    if bd.name.as_str().is_empty() {
        proof {
            assert(vmv(*vm) =~~= (VmV { comp: None, ..a }));
        }
        if fuel == 0 {
            return Err(Failure::Depth);
        }
        let rr = exec_block(vm, &bd.words, 0, fuel - 1);
        proof {
            assert(bd.words@.skip(0) =~= bd.words@);
        }
        return rr;
    }
    let w = Word { body: Rc::new(Body::Block(Rc::new(bd.words))), immediate: bd.immediate };
    let ghost wg = w;
    let ghost bdv = builder_view(old(vm).comp.unwrap());
    proof {
        assert(word_is_block(wg, bdv.words, bdv.immediate));
    }
    vm.dict.define(bd.name, w);
    proof {
        assert(vmv(*vm) =~~= (VmV { comp: None, dict: a.dict.insert(bdv.name, wg), ..a }));
    }
    Ok(())
}

/// `if`: open a conditional, inside an anonymous builder when none is open.
fn exec_cond_if(vm: &mut Vm) -> (r: Result<(), Failure>)
    ensures
        prim_rel(vmv(*old(vm)), Prim::CondIf, vmv(*final(vm)), res_view(r), 0nat),
{
    proof {
        reveal(crate::sem::prim_rel);
    }
    let ghost a = vmv(*old(vm));
    match vm.comp.take() {
        None => {
            let fresh = CondBuilder {
                cond_words: Vec::new(),
                tru: Vec::new(),
                fals: Vec::new(),
                stage: Stage::Cond,
            };
            vm.comp = Some(
                Builder {
                    name: String::new(),
                    immediate: false,
                    words: Vec::new(),
                    cond: Some(fresh),
                },
            );
            proof {
                assert(builder_view(vm.comp.unwrap()).words =~= Seq::<Word>::empty());
                assert(builder_view(vm.comp.unwrap()).name =~= Seq::<char>::empty());
                assert(crate::vm::cond_view(vm.comp.unwrap().cond.unwrap()).cond_words
                    =~= Seq::<Word>::empty());
                assert(crate::vm::cond_view(vm.comp.unwrap().cond.unwrap()).tru =~= Seq::<
                    Word,
                >::empty());
                assert(crate::vm::cond_view(vm.comp.unwrap().cond.unwrap()).fals =~= Seq::<
                    Word,
                >::empty());
                assert(vmv(*vm) =~~= (VmV { comp: Some(builder_view(vm.comp.unwrap())), ..a }));
            }
            Ok(())
        },
        Some(bd) => {
            if bd.cond.is_some() {
                vm.comp = Some(bd);
                proof {
                    assert(vmv(*vm) =~~= a);
                }
                return Err(Failure::CompileState);
            }
            let opened = CondBuilder {
                cond_words: bd.words,
                tru: Vec::new(),
                fals: Vec::new(),
                stage: Stage::Cond,
            };
            vm.comp = Some(
                Builder {
                    name: bd.name,
                    immediate: bd.immediate,
                    words: Vec::new(),
                    cond: Some(opened),
                },
            );
            proof {
                assert(builder_view(vm.comp.unwrap()).words =~= Seq::<Word>::empty());
                assert(crate::vm::cond_view(vm.comp.unwrap().cond.unwrap()).tru =~= Seq::<
                    Word,
                >::empty());
                assert(crate::vm::cond_view(vm.comp.unwrap().cond.unwrap()).fals =~= Seq::<
                    Word,
                >::empty());
                assert(vmv(*vm) =~~= (VmV { comp: Some(builder_view(vm.comp.unwrap())), ..a }));
            }
            Ok(())
        },
    }
}

/// `then` and `else`: move the open conditional to its next stage.
fn exec_cond_stage(vm: &mut Vm, to_false: bool) -> (r: Result<(), Failure>)
    ensures
        prim_rel(
            vmv(*old(vm)),
            if to_false {
                Prim::CondElse
            } else {
                Prim::CondThen
            },
            vmv(*final(vm)),
            res_view(r),
            0nat,
        ),
{
    proof {
        reveal(crate::sem::prim_rel);
    }
    let ghost a = vmv(*old(vm));
    let mut bd = match vm.comp.take() {
        Some(bd) => bd,
        None => {
            return Err(Failure::CompileState);
        },
    };
    let mut cb = match bd.cond.take() {
        Some(cb) => cb,
        None => {
            vm.comp = Some(bd);
            proof {
                assert(vmv(*vm) =~~= a);
            }
            return Err(Failure::CompileState);
        },
    };
    let good = if to_false {
        matches!(cb.stage, Stage::True)
    } else {
        matches!(cb.stage, Stage::Cond)
    };
    if !good {
        bd.cond = Some(cb);
        vm.comp = Some(bd);
        proof {
            assert(vmv(*vm) =~~= a);
        }
        return Err(Failure::CompileState);
    }
    cb.stage = if to_false {
        Stage::False
    } else {
        Stage::True
    };
    bd.cond = Some(cb);
    vm.comp = Some(bd);
    proof {
        assert(vmv(*vm) =~~= (VmV { comp: Some(builder_view(vm.comp.unwrap())), ..a }));
    }
    Ok(())
}

/// `end` and `repeat`: close the conditional; in a named definition append
/// it, at the top level run it now and drop the anonymous builder.
fn exec_cond_close(vm: &mut Vm, fuel: u64, looping: bool) -> (r: Result<(), Failure>)
    ensures
        cond_close_rel(vmv(*old(vm)), vmv(*final(vm)), res_view(r), fuel as nat, looping),
    decreases fuel, 1int, 0int,
{
    let ghost a = vmv(*old(vm));
    let mut bd = match vm.comp.take() {
        Some(bd) => bd,
        None => {
            return Err(Failure::CompileState);
        },
    };
    let cb = match bd.cond.take() {
        Some(cb) => cb,
        None => {
            vm.comp = Some(bd);
            proof {
                assert(vmv(*vm) =~~= a);
            }
            return Err(Failure::CompileState);
        },
    };
    if matches!(cb.stage, Stage::Cond) {
        bd.cond = Some(cb);
        vm.comp = Some(bd);
        proof {
            assert(vmv(*vm) =~~= a);
        }
        return Err(Failure::CompileState);
    }
    let ghost bdv = builder_view(old(vm).comp.unwrap());
    let ghost cv = bdv.cond.unwrap();
    if looping {
        // the looping body is emitted, or run at the top level, and the
        // conditional stays open for the closing `end`
        let c2 = clone_words(&cb.cond_words);
        let t2 = clone_words(&cb.tru);
        let f2 = clone_words(&cb.fals);
        bd.cond = Some(cb);
        if bd.name.as_str().is_empty() {
            vm.comp = Some(bd);
            proof {
                assert(vmv(*vm) =~~= a);
            }
            if fuel == 0 {
                return Err(Failure::Depth);
            }
            return exec_loop(vm, &c2, &t2, &f2, fuel - 1);
        }
        let w = Word {
            body: Rc::new(
                Body::Branch(
                    Rc::new(CondBody { cond_words: c2, tru: t2, fals: f2, looping: true }),
                ),
            ),
            immediate: true,
        };
        let ghost wg = w;
        proof {
            assert(word_is_branch(wg, cv.cond_words, cv.tru, cv.fals, true));
        }
        bd.words.push(w);
        vm.comp = Some(bd);
        proof {
            assert(builder_view(vm.comp.unwrap()) =~~= (crate::vm::BuilderV {
                words: bdv.words.push(wg),
                ..bdv
            }));
            assert(vmv(*vm) =~~= (VmV {
                comp: Some(crate::vm::BuilderV { words: bdv.words.push(wg), ..bdv }),
                ..a
            }));
        }
        return Ok(());
    }
    if bd.name.as_str().is_empty() {
        proof {
            assert(vmv(*vm) =~~= (VmV { comp: None, ..a }));
        }
        if fuel == 0 {
            return Err(Failure::Depth);
        }
        return exec_branch(vm, &cb.cond_words, &cb.tru, &cb.fals, fuel - 1);
    }
    let w = Word {
        body: Rc::new(
            Body::Branch(
                Rc::new(
                    CondBody {
                        cond_words: cb.cond_words,
                        tru: cb.tru,
                        fals: cb.fals,
                        looping: false,
                    },
                ),
            ),
        ),
        immediate: true,
    };
    let ghost wg = w;
    proof {
        assert(word_is_branch(wg, cv.cond_words, cv.tru, cv.fals, false));
    }
    bd.words.push(w);
    vm.comp = Some(bd);
    proof {
        assert(builder_view(vm.comp.unwrap()) =~~= (crate::vm::BuilderV {
            words: bdv.words.push(wg),
            cond: None,
            ..bdv
        }));
        assert(vmv(*vm) =~~= (VmV {
            comp: Some(crate::vm::BuilderV { words: bdv.words.push(wg), cond: None, ..bdv }),
            ..a
        }));
    }
    Ok(())
}

/// A copy of a word list; words are shared handles, so the copies are the
/// same values.
pub(crate) fn clone_words(v: &Vec<Word>) -> (r: Vec<Word>)
    ensures
        r@ == v@,
{
    let mut r: Vec<Word> = Vec::new();
    let mut i: usize = 0;
    while i < v.len()
        invariant
            0 <= i <= v@.len(),
            r@ == v@.take(i as int),
        decreases v@.len() - i,
    {
        r.push(v[i].clone());
        proof {
            assert(r@ =~= v@.take(i as int + 1));
        }
        i = i + 1;
    }
    assert(r@ =~= v@);
    r
}

/// `?`: read a name and splice its body into the builder, whatever its
/// immediate flag.
fn exec_defer(vm: &mut Vm) -> (r: Result<(), Failure>)
    ensures
        prim_rel(vmv(*old(vm)), Prim::Defer, vmv(*final(vm)), res_view(r), 0nat),
{
    proof {
        reveal(crate::sem::prim_rel);
    }
    let ghost a = vmv(*old(vm));
    let s = match read_token(vm) {
        Ok(s) => s,
        Err(f) => {
            return Err(f);
        },
    };
    let res = vm.dict.get(&s);
    match res {
        None => Err(Failure::Unknown(s)),
        Some(w) => {
            if vm.comp.is_some() {
                builder_append(vm, w);
                Ok(())
            } else {
                Err(Failure::CompileState)
            }
        },
    }
}

/// `!begin`: pop a non-empty name and open a definition for it.
fn exec_begin_def(vm: &mut Vm) -> (r: Result<(), Failure>)
    ensures
        prim_rel(vmv(*old(vm)), Prim::BeginDef, vmv(*final(vm)), res_view(r), 0nat),
{
    proof {
        reveal(crate::sem::prim_rel);
    }
    let ghost a = vmv(*old(vm));
    if vm.comp.is_some() {
        return Err(Failure::CompileState);
    }
    let no = vm.objs.len();
    if no < 1 {
        return Err(Failure::Underflow);
    }
    if vm.objs[no - 1].data.len() == 0 {
        return Err(Failure::CompileState);
    }
    let mut bytes: Vec<u8> = Vec::new();
    crate::textutil::append_bytes(&mut bytes, &vm.objs[no - 1].data);
    proof {
        assert(bytes@ =~= a.objs.last()@.data);
    }
    let name = match string_from_utf8(bytes) {
        Some(s) => s,
        None => {
            return Err(Failure::Lex);
        },
    };
    let _ = crate::interp::pop_obj(vm);
    vm.comp = Some(Builder { name, immediate: false, words: Vec::new(), cond: None });
    proof {
        assert(builder_view(vm.comp.unwrap()).words =~= Seq::<Word>::empty());
        assert(vmv(*vm) =~~= (VmV {
            objs: a.objs.drop_last(),
            comp: Some(builder_view(vm.comp.unwrap())),
            ..a
        }));
    }
    Ok(())
}

/// `!integer`: pop an integer and append a push of it to the builder.
fn exec_capture_int(vm: &mut Vm) -> (r: Result<(), Failure>)
    ensures
        prim_rel(vmv(*old(vm)), Prim::CaptureInt, vmv(*final(vm)), res_view(r), 0nat),
{
    proof {
        reveal(crate::sem::prim_rel);
    }
    let ghost a = vmv(*old(vm));
    if vm.comp.is_none() {
        return Err(Failure::CompileState);
    }
    let x = match crate::interp::pop_int(vm) {
        Some(x) => x,
        None => {
            return Err(Failure::Underflow);
        },
    };
    let w = Word { body: Rc::new(Body::Prim(Prim::PushInt(x))), immediate: true };
    let ghost wg = w;
    proof {
        assert(word_pushes_int(wg, big_val(a.ints.last())));
    }
    builder_append(vm, w);
    Ok(())
}

/// `!call`: pop a name; while compiling append its word, otherwise run it.
fn exec_call_by_name(vm: &mut Vm, fuel: u64) -> (r: Result<(), Failure>)
    ensures
        prim_rel(vmv(*old(vm)), Prim::CallByName, vmv(*final(vm)), res_view(r), fuel as nat),
    decreases fuel, 1int, 0int,
{
    proof {
        reveal(crate::sem::prim_rel);
    }
    let ghost a = vmv(*old(vm));
    let no = vm.objs.len();
    if no < 1 {
        return Err(Failure::Underflow);
    }
    let mut bytes: Vec<u8> = Vec::new();
    crate::textutil::append_bytes(&mut bytes, &vm.objs[no - 1].data);
    proof {
        assert(bytes@ =~= a.objs.last()@.data);
    }
    let name = match string_from_utf8(bytes) {
        Some(s) => s,
        None => {
            return Err(Failure::Lex);
        },
    };
    let res = vm.dict.get(&name);
    let w = match res {
        None => {
            return Err(Failure::Unknown(name));
        },
        Some(w) => w,
    };
    let _ = crate::interp::pop_obj(vm);
    if vm.comp.is_some() {
        builder_append(vm, w);
        Ok(())
    } else {
        if fuel == 0 {
            return Err(Failure::Depth);
        }
        exec_word(vm, &w, fuel - 1)
    }
}

/// `Var integer <name>` and `Var object <name>`: allocate a fresh cell and
/// register the word that pushes it and the `set:` word that fills it.
fn exec_var_ctor(vm: &mut Vm, is_int: bool) -> (r: Result<(), Failure>)
    ensures
        prim_rel(
            vmv(*old(vm)),
            if is_int {
                Prim::VarIntCtor
            } else {
                Prim::VarObjCtor
            },
            vmv(*final(vm)),
            res_view(r),
            0nat,
        ),
{
    proof {
        reveal(crate::sem::prim_rel);
    }
    let ghost a = vmv(*old(vm));
    let name = match read_token(vm) {
        Ok(s) => s,
        Err(f) => {
            return Err(f);
        },
    };
    let ghost stepped = vmv(*vm);
    let setter = setter_name(&name);
    if is_int {
        let ci = vm.int_cells.len();
        let wg = Word { body: Rc::new(Body::Prim(Prim::VarGetInt(ci))), immediate: false };
        let ws = Word { body: Rc::new(Body::Prim(Prim::VarSetInt(ci))), immediate: false };
        let ghost wgv = wg;
        let ghost wsv = ws;
        vm.int_cells.push(Rc::new(big_from_u64(0)));
        proof {
            assert(vmv(*vm).int_cells =~= a.int_cells.push(vmv(*vm).int_cells.last()));
        }
        vm.dict.define(name, wg);
        vm.dict.define(setter, ws);
        proof {
            assert(word_is_prim(wgv, Prim::VarGetInt(ci), false));
            assert(word_is_prim(wsv, Prim::VarSetInt(ci), false));
            assert(vmv(*vm) =~~= (VmV {
                input: stepped.input,
                int_cells: a.int_cells.push(vmv(*vm).int_cells.last()),
                dict: a.dict.insert(token_chars(a), wgv).insert(set_name(token_chars(a)), wsv),
                ..a
            }));
        }
        Ok(())
    } else {
        let ci = vm.obj_cells.len();
        let wg = Word { body: Rc::new(Body::Prim(Prim::VarGetObj(ci))), immediate: false };
        let ws = Word { body: Rc::new(Body::Prim(Prim::VarSetObj(ci))), immediate: false };
        let ghost wgv = wg;
        let ghost wsv = ws;
        vm.obj_cells.push(Rc::new(crate::object::Object::empty()));
        proof {
            assert(vmv(*vm).obj_cells =~= a.obj_cells.push(vmv(*vm).obj_cells.last()));
        }
        vm.dict.define(name, wg);
        vm.dict.define(setter, ws);
        proof {
            assert(word_is_prim(wgv, Prim::VarGetObj(ci), false));
            assert(word_is_prim(wsv, Prim::VarSetObj(ci), false));
            assert(vmv(*vm) =~~= (VmV {
                input: stepped.input,
                obj_cells: a.obj_cells.push(vmv(*vm).obj_cells.last()),
                dict: a.dict.insert(token_chars(a), wgv).insert(set_name(token_chars(a)), wsv),
                ..a
            }));
        }
        Ok(())
    }
}

/// The name of the setter word: `set:` before the variable's name.
fn setter_name(name: &String) -> (r: String)
    ensures
        r@ == set_name(name@),
{
    let mut bytes: Vec<u8> = Vec::new();
    bytes.push('s' as u8);
    bytes.push('e' as u8);
    bytes.push('t' as u8);
    bytes.push(':' as u8);
    let ghost prefix_chars: Seq<char> = seq!['s', 'e', 't', ':'];
    proof {
        assert(seq!['s', 'e', 't', ':'].drop_first() =~= seq!['e', 't', ':']);
        assert(seq!['e', 't', ':'].drop_first() =~= seq![('t'), (':')]);
        assert(seq!['t', ':'].drop_first() =~= seq![':']);
        assert(seq![':'].drop_first() =~= Seq::<char>::empty());
        assert(encode_utf8(Seq::<char>::empty()) =~= Seq::<u8>::empty());
        crate::textutil::lemma_ascii_encode_scalar('s');
        crate::textutil::lemma_ascii_encode_scalar('e');
        crate::textutil::lemma_ascii_encode_scalar('t');
        crate::textutil::lemma_ascii_encode_scalar(':');
        assert(encode_utf8(seq![':']) =~= seq![(':' as u8)]);
        assert(encode_utf8(seq!['t', ':']) =~= seq![('t' as u8), (':' as u8)]);
        assert(encode_utf8(seq!['e', 't', ':']) =~= seq![('e' as u8), ('t' as u8), (':' as u8)]);
        assert(encode_utf8(prefix_chars) =~= bytes@);
    }
    let nb = vstd::string::StrSliceExecFns::as_bytes_vec(name.as_str());
    crate::textutil::append_bytes(&mut bytes, &nb);
    proof {
        crate::textutil::lemma_encode_utf8_append(prefix_chars, name@);
        assert(bytes@ =~= encode_utf8(prefix_chars + name@));
        vstd::utf8::encode_utf8_valid_utf8(prefix_chars + name@);
        vstd::utf8::encode_utf8_decode_utf8(prefix_chars + name@);
    }
    match string_from_utf8(bytes) {
        Some(s) => s,
        None => {
            proof {
                assert(false);
            }
            String::new()
        },
    }
}

/// Drives the interpreter: reads a word, resolves it and runs it, over and
/// over until the input stream is exhausted or a word fails. When a word
/// asks the host for input, the machine is wound back to that word's start,
/// so the host stages the answer and drives again to resume exactly there.
#[verifier::loop_isolation(false)]
pub fn drive(vm: &mut Vm, fuel: u64) -> (r: Result<(), Failure>)
    ensures
        drive_rel(vmv(*old(vm)), vmv(*final(vm)), res_view(r), fuel as nat),
{
    let ghost a0 = vmv(*old(vm));
    let mut fc = fuel;
    loop
        invariant
            fc <= fuel,
            forall|b2: VmV, r2: Result<(), FailV>|
                #[trigger] crate::sem::step_trig(b2, r2) ==> (drive_rel(vmv(*vm), b2, r2, fc as nat)
                    ==> drive_rel(a0, b2, r2, fuel as nat)),
        decreases fc,
    {
        let ghost prev = vmv(*vm);
        let saved = vm.snapshot();
        let tok = match vm.read_word() {
            Ok(Some(s)) => s,
            Ok(None) => {
                proof {
                    assert(crate::sem::step_trig(vmv(*vm), Ok::<(), FailV>(())));
                    assert(drive_rel(prev, vmv(*vm), Ok::<(), FailV>(()), fc as nat));
                }
                return Ok(());
            },
            Err(f) => {
                proof {
                    assert(crate::sem::step_trig(vmv(*vm), res_view(Err::<(), Failure>(f))));
                    assert(drive_rel(prev, vmv(*vm), res_view(Err::<(), Failure>(f)), fc as nat));
                }
                return Err(f);
            },
        };
        if fc == 0 {
            proof {
                assert(crate::sem::step_trig(vmv(*vm), Err::<(), FailV>(FailV::Depth)));
                assert(fc as nat == 0nat);
                assert(drive_rel(prev, vmv(*vm), Err::<(), FailV>(FailV::Depth), fc as nat));
            }
            return Err(Failure::Depth);
        }
        proof {
            assert(vmv(*vm) =~~= lex_step(prev));
            assert(tok@ == token_chars(prev));
        }
        let w = match vm.dict.get(&tok) {
            None => {
                proof {
                    assert(crate::sem::step_trig(vmv(*vm), Err::<(), FailV>(FailV::Unknown(tok@))));
                    assert(crate::words::lookup_yields(prev.dict, prev.alts, token_chars(prev), None::<Word>));
                    assert(drive_rel(
                        prev,
                        vmv(*vm),
                        Err::<(), FailV>(FailV::Unknown(tok@)),
                        fc as nat,
                    ));
                }
                return Err(Failure::Unknown(tok));
            },
            Some(w) => w,
        };
        let ghost fcm: nat = (fc as nat - 1) as nat;
        proof {
            assert((fc - 1) as nat == fcm);
        }
        match exec_word(vm, &w, fc - 1) {
            Err(f) => {
                proof {
                    assert(crate::sem::step_trig(vmv(*vm), res_view(Err::<(), Failure>(f))));
                    assert(word_rel(lex_step(prev), w, vmv(*vm), res_view(Err::<(), Failure>(f)), fcm));
                }
                if matches!(f, Failure::NeedEvent | Failure::NeedSize | Failure::NeedFile(_)) {
                    // wind the machine back so the next drive re-runs the
                    // word that asked, once the host has staged its answer
                    *vm = saved;
                    proof {
                        assert(vmv(*vm) == prev);
                        assert(crate::sem::needs_host(res_view(Err::<(), Failure>(f))));
                        assert(crate::sem::step_trig(vmv(*vm), res_view(Err::<(), Failure>(f))));
                        assert(drive_rel(prev, vmv(*vm), res_view(Err::<(), Failure>(f)), fc as nat));
                    }
                    return Err(f);
                }
                proof {
                    assert(drive_rel(prev, vmv(*vm), res_view(Err::<(), Failure>(f)), fc as nat));
                }
                return Err(f);
            },
            Ok(_) => {},
        }
        proof {
            assert(crate::sem::step_trig(vmv(*vm), Ok::<(), FailV>(())));
            assert(word_rel(lex_step(prev), w, vmv(*vm), Ok::<(), FailV>(()), fcm));
        }
        proof {
            let ghost fcm2: nat = (fc as nat - 1) as nat;
            assert((fc - 1) as nat == fcm2);
            assert forall|b2: VmV, r2: Result<(), FailV>|
                #[trigger] crate::sem::step_trig(b2, r2) implies (drive_rel(vmv(*vm), b2, r2, fcm2)
                ==> drive_rel(a0, b2, r2, fuel as nat)) by {
                if drive_rel(vmv(*vm), b2, r2, fcm2) {
                    assert(drive_rel(prev, b2, r2, fc as nat));
                }
            }
        }
        fc = fc - 1;
    }
}

} // verus!
