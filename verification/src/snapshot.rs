use vstd::prelude::*;
use std::rc::Rc;
use crate::object::rc_dup;
use crate::words::Word;
use crate::words::Dict;
use crate::words::Fallback;
use crate::engine::clone_words;
use crate::vm::Vm;
use crate::vm::Source;
use crate::vm::Effect;
use crate::vm::Builder;
use crate::vm::CondBuilder;
use crate::vm::src_rem;
use crate::vm::eff_view;
use crate::vm::builder_view;
use crate::vm::cond_view;
use crate::vm::files_map;
use crate::vm::vmv;
use crate::textutil::append_bytes;

verus! {

//
// A copy of the whole machine. The driver takes one before each top-level
// word, so that a word which asks the host for input can be wound back and
// re-run once the answer is staged. Values on the stacks and in the cells
// are shared handles, so the copy is exact; byte buffers are copied.
//

fn clone_bytes(v: &Vec<u8>) -> (r: Vec<u8>)
    ensures
        r@ == v@,
{
    let mut r: Vec<u8> = Vec::new();
    append_bytes(&mut r, v);
    assert(r@ =~= v@);
    r
}

fn clone_rcs<T>(v: &Vec<Rc<T>>) -> (r: Vec<Rc<T>>)
    ensures
        r@ == v@,
{
    let mut r: Vec<Rc<T>> = Vec::new();
    let mut i: usize = 0;
    while i < v.len()
        invariant
            0 <= i <= v@.len(),
            r@ == v@.take(i as int),
        decreases v@.len() - i,
    {
        r.push(rc_dup(&v[i]));
        proof {
            assert(r@ =~= v@.take(i as int + 1));
        }
        i = i + 1;
    }
    assert(r@ =~= v@);
    r
}

fn clone_entries(v: &Vec<(String, Word)>) -> (r: Vec<(String, Word)>)
    ensures
        r@ == v@,
{
    let mut r: Vec<(String, Word)> = Vec::new();
    let mut i: usize = 0;
    while i < v.len()
        invariant
            0 <= i <= v@.len(),
            r@ == v@.take(i as int),
        decreases v@.len() - i,
    {
        let pair = (v[i].0.clone(), v[i].1.clone());
        proof {
            assert(pair == v@[i as int]);
        }
        r.push(pair);
        proof {
            assert(r@ =~= v@.take(i as int + 1));
        }
        i = i + 1;
    }
    assert(r@ =~= v@);
    r
}

fn clone_fallbacks(v: &Vec<Fallback>) -> (r: Vec<Fallback>)
    ensures
        r@ == v@,
{
    let mut r: Vec<Fallback> = Vec::new();
    let mut i: usize = 0;
    while i < v.len()
        invariant
            0 <= i <= v@.len(),
            r@ == v@.take(i as int),
        decreases v@.len() - i,
    {
        r.push(v[i]);
        proof {
            assert(r@ =~= v@.take(i as int + 1));
        }
        i = i + 1;
    }
    assert(r@ =~= v@);
    r
}

fn clone_sources(v: &Vec<Source>) -> (r: Vec<Source>)
    ensures
        r@.len() == v@.len(),
        forall|i: int| 0 <= i < v@.len() ==> src_rem(#[trigger] r@[i]) == src_rem(v@[i]),
{
    let mut r: Vec<Source> = Vec::new();
    let mut i: usize = 0;
    while i < v.len()
        invariant
            0 <= i <= v@.len(),
            r@.len() == i,
            forall|j: int| 0 <= j < i ==> src_rem(#[trigger] r@[j]) == src_rem(v@[j]),
        decreases v@.len() - i,
    {
        let bytes = clone_bytes(&v[i].bytes);
        r.push(Source { bytes, pos: v[i].pos });
        i = i + 1;
    }
    r
}

fn clone_effects(v: &Vec<Effect>) -> (r: Vec<Effect>)
    ensures
        r@.len() == v@.len(),
        forall|i: int| 0 <= i < v@.len() ==> eff_view(#[trigger] r@[i]) == eff_view(v@[i]),
{
    let mut r: Vec<Effect> = Vec::new();
    let mut i: usize = 0;
    while i < v.len()
        invariant
            0 <= i <= v@.len(),
            r@.len() == i,
            forall|j: int| 0 <= j < i ==> eff_view(#[trigger] r@[j]) == eff_view(v@[j]),
        decreases v@.len() - i,
    {
        let e = match &v[i] {
            Effect::Print(bytes) => Effect::Print(clone_bytes(bytes)),
            Effect::Clear => Effect::Clear,
            Effect::ClearLine => Effect::ClearLine,
            Effect::SetCursor(x, y) => Effect::SetCursor(*x, *y),
            Effect::Flush => Effect::Flush,
        };
        r.push(e);
        i = i + 1;
    }
    r
}

fn clone_files(v: &Vec<(Vec<u8>, Vec<u8>)>) -> (r: Vec<(Vec<u8>, Vec<u8>)>)
    ensures
        r@.len() == v@.len(),
        forall|i: int|
            0 <= i < v@.len() ==> (#[trigger] r@[i]).0@ == v@[i].0@ && r@[i].1@ == v@[i].1@,
{
    let mut r: Vec<(Vec<u8>, Vec<u8>)> = Vec::new();
    let mut i: usize = 0;
    while i < v.len()
        invariant
            0 <= i <= v@.len(),
            r@.len() == i,
            forall|j: int|
                0 <= j < i ==> (#[trigger] r@[j]).0@ == v@[j].0@ && r@[j].1@ == v@[j].1@,
        decreases v@.len() - i,
    {
        let path = clone_bytes(&v[i].0);
        let data = clone_bytes(&v[i].1);
        r.push((path, data));
        i = i + 1;
    }
    r
}

/// Two staged file lists whose paths and contents read the same denote the
/// same mapping.
proof fn lemma_files_map_congruent(a: Seq<(Vec<u8>, Vec<u8>)>, b: Seq<(Vec<u8>, Vec<u8>)>)
    requires
        a.len() == b.len(),
        forall|i: int| 0 <= i < a.len() ==> (#[trigger] a[i]).0@ == b[i].0@ && a[i].1@ == b[i].1@,
    ensures
        files_map(a) == files_map(b),
    decreases a.len(),
{
    if a.len() > 0 {
        lemma_files_map_congruent(a.drop_last(), b.drop_last());
        assert(files_map(a) =~= files_map(b));
    }
}

fn clone_cond(c: &CondBuilder) -> (r: CondBuilder)
    ensures
        cond_view(r) == cond_view(*c),
{
    let r = CondBuilder {
        cond_words: clone_words(&c.cond_words),
        tru: clone_words(&c.tru),
        fals: clone_words(&c.fals),
        stage: c.stage,
    };
    proof {
        assert(cond_view(r) =~~= cond_view(*c));
    }
    r
}

fn clone_builder(b: &Builder) -> (r: Builder)
    ensures
        builder_view(r) == builder_view(*b),
{
    let cond = match &b.cond {
        Some(c) => Some(clone_cond(c)),
        None => None,
    };
    let r = Builder {
        name: b.name.clone(),
        immediate: b.immediate,
        words: clone_words(&b.words),
        cond,
    };
    proof {
        assert(builder_view(r) =~~= builder_view(*b));
    }
    r
}

impl Vm {
    /// An exact copy of the machine's value: the same dictionary, stacks,
    /// builder, remaining input, cells, queues and staged answers.
    pub fn snapshot(&self) -> (r: Vm)
        ensures
            vmv(r) == vmv(*self),
    {
        let r = Vm {
            dict: Dict {
                entries: clone_entries(&self.dict.entries),
                alts: clone_fallbacks(&self.dict.alts),
            },
            ints: clone_rcs(&self.ints),
            objs: clone_rcs(&self.objs),
            comp: match &self.comp {
                Some(b) => Some(clone_builder(b)),
                None => None,
            },
            sources: clone_sources(&self.sources),
            int_cells: clone_rcs(&self.int_cells),
            obj_cells: clone_rcs(&self.obj_cells),
            effects: clone_effects(&self.effects),
            events: clone_rcs(&self.events),
            term_size: self.term_size,
            files: clone_files(&self.files),
        };
        proof {
            lemma_files_map_congruent(r.files@, self.files@);
            assert(vmv(r).ints =~= vmv(*self).ints);
            assert(vmv(r).objs =~= vmv(*self).objs);
            assert(vmv(r).input =~= vmv(*self).input);
            assert(vmv(r).int_cells =~= vmv(*self).int_cells);
            assert(vmv(r).obj_cells =~= vmv(*self).obj_cells);
            assert(vmv(r).effects =~= vmv(*self).effects);
            assert(vmv(r).events =~= vmv(*self).events);
            assert(vmv(r) =~~= vmv(*self));
        }
        r
    }
}

} // verus!
