use vstd::prelude::*;
use std::rc::Rc;
use crate::words::Word;
use crate::words::Body;
use crate::words::Prim;
use crate::words::IntBin;
use crate::words::Dict;
use crate::words::Fallback;
use crate::words::word_is_prim;
use crate::words::word_is_named;
use crate::vm::Vm;
use crate::vm::vmv;
use crate::object::Object;
use vstd::utf8::encode_utf8;

verus! {

/// The table behind `Window`: `print` and `size`.
pub open spec fn is_window_table(w: Word) -> bool {
    &&& w.immediate
    &&& match *w.body {
        Body::Named(t) => {
            &&& t@.len() == 2
            &&& t@[0].0@ == "print"@ && word_is_prim(t@[0].1, Prim::EmitPrintLn, false)
            &&& t@[1].0@ == "size"@ && word_is_prim(t@[1].1, Prim::TermSize, false)
        },
        _ => false,
    }
}

/// The table behind `String`: `decimal` and `split`.
pub open spec fn is_string_table(w: Word) -> bool {
    &&& w.immediate
    &&& match *w.body {
        Body::Named(t) => {
            &&& t@.len() == 2
            &&& t@[0].0@ == "decimal"@ && word_is_prim(t@[0].1, Prim::StrDecimal, false)
            &&& t@[1].0@ == "split"@ && word_is_prim(t@[1].1, Prim::StrSplit, false)
        },
        _ => false,
    }
}

/// The table behind `Var`: the two cell constructors.
pub open spec fn is_var_table(w: Word) -> bool {
    &&& w.immediate
    &&& match *w.body {
        Body::Named(t) => {
            &&& t@.len() == 2
            &&& t@[0].0@ == "integer"@ && word_is_prim(t@[0].1, Prim::VarIntCtor, true)
            &&& t@[1].0@ == "object"@ && word_is_prim(t@[1].1, Prim::VarObjCtor, true)
        },
        _ => false,
    }
}

/// The table behind `Sys Terminal`: the terminal effect words.
pub open spec fn is_terminal_table(w: Word) -> bool {
    &&& w.immediate
    &&& match *w.body {
        Body::Named(t) => {
            &&& t@.len() == 7
            &&& t@[0].0@ == "wait"@ && word_is_prim(t@[0].1, Prim::TermWait, false)
            &&& t@[1].0@ == "set-cursor"@ && word_is_prim(t@[1].1, Prim::SetCursor, false)
            &&& t@[2].0@ == "clear"@ && word_is_prim(t@[2].1, Prim::EmitClear, false)
            &&& t@[3].0@ == "clear-line"@ && word_is_prim(t@[3].1, Prim::EmitClearLine, false)
            &&& t@[4].0@ == "print"@ && word_is_prim(t@[4].1, Prim::EmitPrint, false)
            &&& t@[5].0@ == "size"@ && word_is_prim(t@[5].1, Prim::TermSize, false)
            &&& t@[6].0@ == "flush"@ && word_is_prim(t@[6].1, Prim::EmitFlush, false)
        },
        _ => false,
    }
}

/// The table behind `Sys`: `Terminal`, `Fs` and `panic`.
pub open spec fn is_sys_table(w: Word) -> bool {
    &&& w.immediate
    &&& match *w.body {
        Body::Named(t) => {
            &&& t@.len() == 3
            &&& t@[0].0@ == "Terminal"@ && is_terminal_table(t@[0].1)
            &&& t@[1].0@ == "Fs"@ && t@[1].1.immediate
            &&& (match *t@[1].1.body {
                Body::Named(fs) => fs@.len() == 1 && fs@[0].0@ == "read"@ && word_is_prim(
                    fs@[0].1,
                    Prim::FsRead,
                    false,
                ),
                _ => false,
            })
            &&& t@[2].0@ == "panic"@ && word_is_prim(t@[2].1, Prim::UserPanic, false)
        },
        _ => false,
    }
}

/// The names and meanings of the dictionary a fresh interpreter carries, in
/// registration order.
pub open spec fn root_entry_ok(i: int, name: Seq<char>, w: Word) -> bool {
    if i == 0 {
        name == ":"@ && word_is_prim(w, Prim::Colon, true)
    } else if i == 1 {
        name == ":!"@ && word_is_prim(w, Prim::ColonImm, true)
    } else if i == 2 {
        name == ";"@ && word_is_prim(w, Prim::SemiColon, true)
    } else if i == 3 {
        name == "if"@ && word_is_prim(w, Prim::CondIf, true)
    } else if i == 4 {
        name == "then"@ && word_is_prim(w, Prim::CondThen, true)
    } else if i == 5 {
        name == "else"@ && word_is_prim(w, Prim::CondElse, true)
    } else if i == 6 {
        name == "end"@ && word_is_prim(w, Prim::CondEnd, true)
    } else if i == 7 {
        name == "repeat"@ && word_is_prim(w, Prim::CondRepeat, true)
    } else if i == 8 {
        name == "?"@ && word_is_prim(w, Prim::Defer, true)
    } else if i == 9 {
        name == "!begin"@ && word_is_prim(w, Prim::BeginDef, false)
    } else if i == 10 {
        name == "!integer"@ && word_is_prim(w, Prim::CaptureInt, false)
    } else if i == 11 {
        name == "!call"@ && word_is_prim(w, Prim::CallByName, false)
    } else if i == 12 {
        name == "+"@ && word_is_prim(w, Prim::IntBin(IntBin::Add), false)
    } else if i == 13 {
        name == "-"@ && word_is_prim(w, Prim::IntBin(IntBin::Sub), false)
    } else if i == 14 {
        name == "*"@ && word_is_prim(w, Prim::IntBin(IntBin::Mul), false)
    } else if i == 15 {
        name == "="@ && word_is_prim(w, Prim::IntBin(IntBin::CmpEq), false)
    } else if i == 16 {
        name == "<>"@ && word_is_prim(w, Prim::IntBin(IntBin::CmpNe), false)
    } else if i == 17 {
        name == "<"@ && word_is_prim(w, Prim::IntBin(IntBin::CmpLt), false)
    } else if i == 18 {
        name == ">"@ && word_is_prim(w, Prim::IntBin(IntBin::CmpGt), false)
    } else if i == 19 {
        name == "<="@ && word_is_prim(w, Prim::IntBin(IntBin::CmpLe), false)
    } else if i == 20 {
        name == ">="@ && word_is_prim(w, Prim::IntBin(IntBin::CmpGe), false)
    } else if i == 21 {
        name == "#dup"@ && word_is_prim(w, Prim::IntDup, false)
    } else if i == 22 {
        name == "#2dup"@ && word_is_prim(w, Prim::IntDup2, false)
    } else if i == 23 {
        name == "#drop"@ && word_is_prim(w, Prim::IntDrop, false)
    } else if i == 24 {
        name == "#swap"@ && word_is_prim(w, Prim::IntSwap, false)
    } else if i == 25 {
        name == "#min"@ && word_is_prim(w, Prim::IntBin(IntBin::Min), false)
    } else if i == 26 {
        name == "#max"@ && word_is_prim(w, Prim::IntBin(IntBin::Max), false)
    } else if i == 27 {
        name == "#bit:shl"@ && word_is_prim(w, Prim::IntBin(IntBin::BitShl), false)
    } else if i == 28 {
        name == "#bit:shr"@ && word_is_prim(w, Prim::IntBin(IntBin::BitShr), false)
    } else if i == 29 {
        name == "#bit:and"@ && word_is_prim(w, Prim::IntBin(IntBin::BitAnd), false)
    } else if i == 30 {
        name == "#bit:or"@ && word_is_prim(w, Prim::IntBin(IntBin::BitOr), false)
    } else if i == 31 {
        name == "#bit:xor"@ && word_is_prim(w, Prim::IntBin(IntBin::BitXor), false)
    } else if i == 32 {
        name == "@dup"@ && word_is_prim(w, Prim::ObjDup, false)
    } else if i == 33 {
        name == "@drop"@ && word_is_prim(w, Prim::ObjDrop, false)
    } else if i == 34 {
        name == "@swap"@ && word_is_prim(w, Prim::ObjSwap, false)
    } else if i == 35 {
        name == "@byte"@ && word_is_prim(w, Prim::ObjByte, false)
    } else if i == 36 {
        name == "@refs"@ && word_is_prim(w, Prim::ObjRefs, false)
    } else if i == 37 {
        name == "@refcount"@ && word_is_prim(w, Prim::ObjRefCount, false)
    } else if i == 38 {
        name == "@bytecount"@ && word_is_prim(w, Prim::ObjByteCount, false)
    } else if i == 39 {
        name == "@concat"@ && word_is_prim(w, Prim::ObjConcat, false)
    } else if i == 40 {
        name == "@slice"@ && word_is_prim(w, Prim::ObjSlice, false)
    } else if i == 41 {
        name == "@intoref"@ && word_is_prim(w, Prim::ObjIntoRef, false)
    } else if i == 42 {
        name == "Window"@ && is_window_table(w)
    } else if i == 43 {
        name == "Sys"@ && is_sys_table(w)
    } else if i == 44 {
        name == "String"@ && is_string_table(w)
    } else {
        name == "Var"@ && is_var_table(w)
    }
}

/// How many words a fresh interpreter's dictionary carries.
pub open spec fn root_entry_count() -> int {
    46
}

/// A word that runs the given primitive: one of the building blocks a host
/// combines to register its own entries.
pub fn prim_word(p: Prim, imm: bool) -> (w: Word)
    ensures
        word_is_prim(w, p, imm),
{
    Word { body: Rc::new(Body::Prim(p)), immediate: imm }
}

/// A namespace word over the given table: with `Dict::define`, the way a
/// host registers words under namespaced paths.
pub fn named_word(t: Vec<(String, Word)>) -> (w: Word)
    ensures
        word_is_named(w, t@),
        w.immediate,
        *w.body matches Body::Named(v) && v@ == t@,
{
    Word { body: Rc::new(Body::Named(Rc::new(t))), immediate: true }
}

fn tbl_prim(t: &mut Vec<(String, Word)>, name: &str, p: Prim, imm: bool)
    ensures
        final(t)@.len() == old(t)@.len() + 1,
        forall|j: int| 0 <= j < old(t)@.len() ==> #[trigger] final(t)@[j] == old(t)@[j],
        final(t)@[old(t)@.len() as int].0@ == name@,
        word_is_prim(final(t)@[old(t)@.len() as int].1, p, imm),
{
    t.push((name.to_owned(), prim_word(p, imm)));
}

fn window_table() -> (w: Word)
    ensures
        is_window_table(w),
{
    let mut t: Vec<(String, Word)> = Vec::new();
    tbl_prim(&mut t, "print", Prim::EmitPrintLn, false);
    tbl_prim(&mut t, "size", Prim::TermSize, false);
    named_word(t)
}

fn string_table() -> (w: Word)
    ensures
        is_string_table(w),
{
    let mut t: Vec<(String, Word)> = Vec::new();
    tbl_prim(&mut t, "decimal", Prim::StrDecimal, false);
    tbl_prim(&mut t, "split", Prim::StrSplit, false);
    named_word(t)
}

fn var_table() -> (w: Word)
    ensures
        is_var_table(w),
{
    let mut t: Vec<(String, Word)> = Vec::new();
    tbl_prim(&mut t, "integer", Prim::VarIntCtor, true);
    tbl_prim(&mut t, "object", Prim::VarObjCtor, true);
    named_word(t)
}

fn sys_table() -> (w: Word)
    ensures
        is_sys_table(w),
{
    let mut term: Vec<(String, Word)> = Vec::new();
    tbl_prim(&mut term, "wait", Prim::TermWait, false);
    tbl_prim(&mut term, "set-cursor", Prim::SetCursor, false);
    tbl_prim(&mut term, "clear", Prim::EmitClear, false);
    tbl_prim(&mut term, "clear-line", Prim::EmitClearLine, false);
    tbl_prim(&mut term, "print", Prim::EmitPrint, false);
    tbl_prim(&mut term, "size", Prim::TermSize, false);
    tbl_prim(&mut term, "flush", Prim::EmitFlush, false);
    let mut fs: Vec<(String, Word)> = Vec::new();
    tbl_prim(&mut fs, "read", Prim::FsRead, false);
    let terminal = named_word(term);
    let fsw = named_word(fs);
    proof {
        assert(is_terminal_table(terminal));
    }
    let mut t: Vec<(String, Word)> = Vec::new();
    t.push(("Terminal".to_owned(), terminal));
    t.push(("Fs".to_owned(), fsw));
    tbl_prim(&mut t, "panic", Prim::UserPanic, false);
    named_word(t)
}

/// A fresh interpreter with every built-in word registered, the two literal
/// fallbacks installed (string literals shadowing numeric ones), empty
/// stacks but for the host's arguments as text objects, no open builder, no
/// input, and nothing staged or queued.
#[verifier::rlimit(100)]
pub fn create_root_vm(args: Vec<String>) -> (r: Vm)
    ensures
        r.dict.entries@.len() == root_entry_count(),
        forall|i: int|
            0 <= i < root_entry_count() ==> #[trigger] root_entry_ok(
                i,
                r.dict.entries@[i].0@,
                r.dict.entries@[i].1,
            ),
        vmv(r).alts == seq![Fallback::IntLiteral, Fallback::StrLiteral],
        vmv(r).ints == Seq::<num::BigInt>::empty(),
        vmv(r).objs.len() == args@.len(),
        forall|i: int|
            0 <= i < args@.len() ==> (#[trigger] vmv(r).objs[i])@.data == encode_utf8(args@[i]@)
                && vmv(r).objs[i]@.refs.len() == 0,
        vmv(r).comp is None,
        vmv(r).input == Seq::<Seq<u8>>::empty(),
        vmv(r).int_cells == Seq::<num::BigInt>::empty(),
        vmv(r).obj_cells == Seq::<Object>::empty(),
        vmv(r).effects == Seq::<crate::vm::EffV>::empty(),
        vmv(r).events == Seq::<num::BigInt>::empty(),
        vmv(r).term_size is None,
        vmv(r).files == Map::<Seq<u8>, Seq<u8>>::empty(),
{
    let mut entries: Vec<(String, Word)> = Vec::new();
    entries.push((":".to_owned(), prim_word(Prim::Colon, true)));
    entries.push((":!".to_owned(), prim_word(Prim::ColonImm, true)));
    entries.push((";".to_owned(), prim_word(Prim::SemiColon, true)));
    entries.push(("if".to_owned(), prim_word(Prim::CondIf, true)));
    entries.push(("then".to_owned(), prim_word(Prim::CondThen, true)));
    entries.push(("else".to_owned(), prim_word(Prim::CondElse, true)));
    entries.push(("end".to_owned(), prim_word(Prim::CondEnd, true)));
    entries.push(("repeat".to_owned(), prim_word(Prim::CondRepeat, true)));
    entries.push(("?".to_owned(), prim_word(Prim::Defer, true)));
    entries.push(("!begin".to_owned(), prim_word(Prim::BeginDef, false)));
    entries.push(("!integer".to_owned(), prim_word(Prim::CaptureInt, false)));
    entries.push(("!call".to_owned(), prim_word(Prim::CallByName, false)));
    entries.push(("+".to_owned(), prim_word(Prim::IntBin(IntBin::Add), false)));
    entries.push(("-".to_owned(), prim_word(Prim::IntBin(IntBin::Sub), false)));
    entries.push(("*".to_owned(), prim_word(Prim::IntBin(IntBin::Mul), false)));
    entries.push(("=".to_owned(), prim_word(Prim::IntBin(IntBin::CmpEq), false)));
    entries.push(("<>".to_owned(), prim_word(Prim::IntBin(IntBin::CmpNe), false)));
    entries.push(("<".to_owned(), prim_word(Prim::IntBin(IntBin::CmpLt), false)));
    entries.push((">".to_owned(), prim_word(Prim::IntBin(IntBin::CmpGt), false)));
    entries.push(("<=".to_owned(), prim_word(Prim::IntBin(IntBin::CmpLe), false)));
    entries.push((">=".to_owned(), prim_word(Prim::IntBin(IntBin::CmpGe), false)));
    entries.push(("#dup".to_owned(), prim_word(Prim::IntDup, false)));
    entries.push(("#2dup".to_owned(), prim_word(Prim::IntDup2, false)));
    entries.push(("#drop".to_owned(), prim_word(Prim::IntDrop, false)));
    entries.push(("#swap".to_owned(), prim_word(Prim::IntSwap, false)));
    entries.push(("#min".to_owned(), prim_word(Prim::IntBin(IntBin::Min), false)));
    entries.push(("#max".to_owned(), prim_word(Prim::IntBin(IntBin::Max), false)));
    entries.push(("#bit:shl".to_owned(), prim_word(Prim::IntBin(IntBin::BitShl), false)));
    entries.push(("#bit:shr".to_owned(), prim_word(Prim::IntBin(IntBin::BitShr), false)));
    entries.push(("#bit:and".to_owned(), prim_word(Prim::IntBin(IntBin::BitAnd), false)));
    entries.push(("#bit:or".to_owned(), prim_word(Prim::IntBin(IntBin::BitOr), false)));
    entries.push(("#bit:xor".to_owned(), prim_word(Prim::IntBin(IntBin::BitXor), false)));
    entries.push(("@dup".to_owned(), prim_word(Prim::ObjDup, false)));
    entries.push(("@drop".to_owned(), prim_word(Prim::ObjDrop, false)));
    entries.push(("@swap".to_owned(), prim_word(Prim::ObjSwap, false)));
    entries.push(("@byte".to_owned(), prim_word(Prim::ObjByte, false)));
    entries.push(("@refs".to_owned(), prim_word(Prim::ObjRefs, false)));
    entries.push(("@refcount".to_owned(), prim_word(Prim::ObjRefCount, false)));
    entries.push(("@bytecount".to_owned(), prim_word(Prim::ObjByteCount, false)));
    entries.push(("@concat".to_owned(), prim_word(Prim::ObjConcat, false)));
    entries.push(("@slice".to_owned(), prim_word(Prim::ObjSlice, false)));
    entries.push(("@intoref".to_owned(), prim_word(Prim::ObjIntoRef, false)));
    entries.push(("Window".to_owned(), window_table()));
    entries.push(("Sys".to_owned(), sys_table()));
    entries.push(("String".to_owned(), string_table()));
    entries.push(("Var".to_owned(), var_table()));
    proof {
        assert forall|i: int| 0 <= i < root_entry_count() implies #[trigger] root_entry_ok(
            i,
            entries@[i].0@,
            entries@[i].1,
        ) by {
        }
    }
    let mut d = Dict { entries, alts: Vec::new() };
    d.push_alt(Fallback::IntLiteral);
    d.push_alt(Fallback::StrLiteral);
    let mut objs: Vec<Rc<Object>> = Vec::new();
    let mut args = args;
    let n = args.len();
    let ghost av = args@;
    let mut i: usize = 0;
    while i < n
        invariant
            0 <= i <= n == av.len(),
            args@ == av.skip(i as int),
            objs@.len() == i,
            forall|j: int|
                0 <= j < i ==> (#[trigger] objs@[j])@.data == encode_utf8(av[j]@) && objs@[j]@.refs.len()
                    == 0,
        decreases n - i,
    {
        let s = args.remove(0);
        proof {
            assert(av.skip(i as int)[0] == s);
            assert(args@ =~= av.skip(i as int + 1));
        }
        let bytes = vstd::string::StrSliceExecFns::as_bytes_vec(s.as_str());
        objs.push(Rc::new(Object::from_bytes(bytes)));
        i = i + 1;
    }
    let r = Vm {
        dict: d,
        ints: Vec::new(),
        objs,
        comp: None,
        sources: Vec::new(),
        int_cells: Vec::new(),
        obj_cells: Vec::new(),
        effects: Vec::new(),
        events: Vec::new(),
        term_size: None,
        files: Vec::new(),
    };
    proof {
        assert(vmv(r).alts =~= seq![Fallback::IntLiteral, Fallback::StrLiteral]);
        assert(vmv(r).ints =~= Seq::<num::BigInt>::empty());
        assert(vmv(r).input =~= Seq::<Seq<u8>>::empty());
        assert(vmv(r).int_cells =~= Seq::<num::BigInt>::empty());
        assert(vmv(r).obj_cells =~= Seq::<Object>::empty());
        assert(vmv(r).effects =~= Seq::<crate::vm::EffV>::empty());
        assert(vmv(r).events =~= Seq::<num::BigInt>::empty());
        assert(vmv(r).files =~= Map::<Seq<u8>, Seq<u8>>::empty());
    }
    r
}

} // verus!
