use vstd::prelude::*;
use std::rc::Rc;
use crate::object::Object;
use crate::object::ObjView;
use crate::object::rc_dup;
use crate::bigint::big_val;
use crate::bigint::big_from_u64;
use crate::literal::int_literal_value;
use crate::literal::is_string_literal;
use crate::literal::string_literal_contents;
use crate::literal::parse_char_token;
use crate::literal::parse_num_token;
use crate::textutil::chars_of;
use vstd::utf8::encode_utf8;

verus! {

/// An arithmetic, comparison or bit operation on the two topmost integers.
#[derive(Clone, Copy)]
pub enum IntBin {
    Add,
    Sub,
    Mul,
    CmpEq,
    CmpNe,
    CmpLt,
    CmpGt,
    CmpLe,
    CmpGe,
    Min,
    Max,
    BitShl,
    BitShr,
    BitAnd,
    BitOr,
    BitXor,
}

/// A primitive state transition of the interpreter: what one built-in word
/// does when it runs.
pub enum Prim {
    /// Push a fixed integer (a compiled literal).
    PushInt(Rc<num::BigInt>),
    /// Push a fixed object (a compiled string literal).
    PushObj(Rc<Object>),
    /// Pop two integers, push the operation's result.
    IntBin(IntBin),
    IntDup,
    IntDup2,
    IntDrop,
    IntSwap,
    ObjDup,
    ObjDrop,
    ObjSwap,
    /// Pop an index, pop an object, push the byte at that index.
    ObjByte,
    /// Pop an index, pop an object, push the child at that index.
    ObjRefs,
    ObjRefCount,
    ObjByteCount,
    ObjConcat,
    /// Pop two index pairs and an object, push the sub-object.
    ObjSlice,
    ObjIntoRef,
    /// Pop an integer, push its decimal text as an object.
    StrDecimal,
    /// Pop a code point and a text object, push the list of pieces.
    StrSplit,
    /// Push the current value of an integer cell.
    VarGetInt(usize),
    /// Pop the integer stack into an integer cell.
    VarSetInt(usize),
    VarGetObj(usize),
    VarSetObj(usize),
    /// `:` — read a name and begin a definition.
    Colon,
    /// `:!` — read a name and begin an immediate definition.
    ColonImm,
    /// `;` — finish the definition.
    SemiColon,
    CondIf,
    CondThen,
    CondElse,
    CondEnd,
    CondRepeat,
    /// `?` — read a name and splice its body into the builder.
    Defer,
    /// `!begin` — pop a name and begin a definition.
    BeginDef,
    /// `!integer` — pop an integer and compile a push of it.
    CaptureInt,
    /// `!call` — pop a name, compile or run its body.
    CallByName,
    /// `Var integer <name>` — allocate an integer cell.
    VarIntCtor,
    /// `Var object <name>` — allocate an object cell.
    VarObjCtor,
    /// `Window print` — queue the object's bytes and a newline.
    EmitPrintLn,
    /// `Sys Terminal print` — queue the object's bytes.
    EmitPrint,
    EmitClear,
    EmitClearLine,
    EmitFlush,
    /// Pop y then x, queue a cursor move.
    SetCursor,
    /// Take the next staged input event and push its encoding.
    TermWait,
    /// Push the staged terminal width, then its height.
    TermSize,
    /// Pop a path, push the staged file's bytes.
    FsRead,
    /// `Sys panic` — pop an object and fail with its bytes.
    UserPanic,
}

/// The executable value of a word: a primitive, a compiled sequence, a
/// conditional, or a namespace table dispatching on the next token.
pub enum Body {
    Prim(Prim),
    Block(Rc<Vec<Word>>),
    Branch(Rc<CondBody>),
    Named(Rc<Vec<(String, Word)>>),
}

/// A compiled conditional: run `cond_words`, pop the integer top, then run
/// `tru` when it was non-zero and `fals` otherwise; a looping one repeats
/// `cond_words`/`tru` while the popped value is non-zero and runs `fals`
/// once at the end.
pub struct CondBody {
    pub cond_words: Vec<Word>,
    pub tru: Vec<Word>,
    pub fals: Vec<Word>,
    pub looping: bool,
}

/// A dictionary word: a shared body and the immediate flag. Immediate words
/// always run; others are appended to the open builder while compiling.
pub struct Word {
    pub body: Rc<Body>,
    pub immediate: bool,
}

impl Clone for Word {
    fn clone(&self) -> (r: Self)
        ensures
            r == *self,
    {
        Word { body: rc_dup(&self.body), immediate: self.immediate }
    }
}

/// A fallback parser for tokens that are in no dictionary entry.
#[derive(Clone, Copy)]
pub enum Fallback {
    /// Character and numeric literals, pushing onto the integer stack.
    IntLiteral,
    /// String literals, pushing onto the object stack.
    StrLiteral,
}

/// The mapping a sequence of definitions denotes: the latest entry for a
/// name wins.
pub open spec fn entries_map(s: Seq<(String, Word)>) -> Map<Seq<char>, Word>
    decreases s.len(),
{
    if s.len() == 0 {
        Map::empty()
    } else {
        entries_map(s.drop_last()).insert(s.last().0@, s.last().1)
    }
}

/// The dictionary: an ordered list of definitions, latest first in force,
/// and a chain of fallback parsers, newest tried first.
pub struct Dict {
    pub entries: Vec<(String, Word)>,
    pub alts: Vec<Fallback>,
}

/// The word a single fallback parser yields for a token, if any: a
/// relational description, since each success builds a fresh body.
pub open spec fn fallback_yields(f: Fallback, t: Seq<char>, w: Word) -> bool {
    match f {
        Fallback::IntLiteral => match int_literal_value(t) {
            Some(v) => !w.immediate && word_pushes_int(w, v),
            None => false,
        },
        Fallback::StrLiteral => is_string_literal(t) && !w.immediate && word_pushes_obj(
            w,
            encode_utf8(string_literal_contents(t)),
        ),
    }
}

/// Whether a single fallback parser accepts the token at all.
pub open spec fn fallback_accepts(f: Fallback, t: Seq<char>) -> bool {
    match f {
        Fallback::IntLiteral => int_literal_value(t) is Some,
        Fallback::StrLiteral => is_string_literal(t),
    }
}

/// The word the fallback chain yields: the newest (last-added) parser that
/// accepts the token wins.
pub open spec fn alts_yield(alts: Seq<Fallback>, t: Seq<char>, res: Option<Word>) -> bool
    decreases alts.len(),
{
    if alts.len() == 0 {
        res is None
    } else if fallback_accepts(alts.last(), t) {
        res matches Some(w) && fallback_yields(alts.last(), t, w)
    } else {
        alts_yield(alts.drop_last(), t, res)
    }
}

/// What a dictionary lookup yields: the mapping first, then the fallbacks.
pub open spec fn lookup_yields(
    m: Map<Seq<char>, Word>,
    alts: Seq<Fallback>,
    t: Seq<char>,
    res: Option<Word>,
) -> bool {
    if m.dom().contains(t) {
        res == Some(m[t])
    } else {
        alts_yield(alts, t, res)
    }
}

/// A word that pushes the fixed integer `v`.
pub open spec fn word_pushes_int(w: Word, v: int) -> bool {
    &&& match *w.body {
        Body::Prim(p) => match p {
            Prim::PushInt(b) => big_val(*b) == v,
            _ => false,
        },
        _ => false,
    }
}

/// A word that pushes a fixed childless object with the given bytes.
pub open spec fn word_pushes_obj(w: Word, data: Seq<u8>) -> bool {
    &&& match *w.body {
        Body::Prim(p) => match p {
            Prim::PushObj(o) => o@ == (ObjView { data, refs: Seq::empty() }),
            _ => false,
        },
        _ => false,
    }
}

/// A word whose body is the given primitive.
pub open spec fn word_is_prim(w: Word, p: Prim, imm: bool) -> bool {
    &&& w.immediate == imm
    &&& *w.body matches Body::Prim(q) && q == p
}

/// A word whose body runs the given sequence.
pub open spec fn word_is_block(w: Word, ws: Seq<Word>, imm: bool) -> bool {
    &&& w.immediate == imm
    &&& *w.body matches Body::Block(v) && v@ == ws
}

/// A word whose body is a conditional.
pub open spec fn word_is_branch(
    w: Word,
    c: Seq<Word>,
    t: Seq<Word>,
    f: Seq<Word>,
    looping: bool,
) -> bool {
    &&& w.immediate
    &&& match *w.body {
        Body::Branch(cb) => cb.cond_words@ == c && cb.tru@ == t && cb.fals@ == f && cb.looping
            == looping,
        _ => false,
    }
}

/// A word whose body is a namespace with the given table.
pub open spec fn word_is_named(w: Word, tbl: Seq<(String, Word)>) -> bool {
    &&& w.immediate
    &&& *w.body matches Body::Named(v) && v@ == tbl
}

proof fn lemma_entries_map_found(s: Seq<(String, Word)>, i: int)
    requires
        0 <= i < s.len(),
        forall|j: int| i < j < s.len() ==> s[j].0@ != s[i].0@,
    ensures
        entries_map(s).dom().contains(s[i].0@),
        entries_map(s)[s[i].0@] == s[i].1,
    decreases s.len(),
{
    if i == s.len() - 1 {
    } else {
        assert(s.drop_last()[i] == s[i]);
        lemma_entries_map_found(s.drop_last(), i);
    }
}

proof fn lemma_entries_map_absent(s: Seq<(String, Word)>, t: Seq<char>)
    requires
        forall|j: int| 0 <= j < s.len() ==> s[j].0@ != t,
    ensures
        !entries_map(s).dom().contains(t),
    decreases s.len(),
{
    if s.len() > 0 {
        lemma_entries_map_absent(s.drop_last(), t);
    }
}

impl Dict {
    /// An empty dictionary with no fallback parsers.
    pub fn new() -> (r: Dict)
        ensures
            entries_map(r.entries@) == Map::<Seq<char>, Word>::empty(),
            r.alts@ == Seq::<Fallback>::empty(),
    {
        let r = Dict { entries: Vec::new(), alts: Vec::new() };
        assert(r.alts@ =~= Seq::<Fallback>::empty());
        r
    }

    /// Binds `name` to `w`; an earlier binding of the name is shadowed, but
    /// word values handed out before stay what they were.
    pub fn define(&mut self, name: String, w: Word)
        ensures
            entries_map(final(self).entries@) == entries_map(old(self).entries@).insert(name@, w),
            final(self).alts@ == old(self).alts@,
    {
        self.entries.push((name, w));
        assert(self.entries@.drop_last() =~= old(self).entries@);
    }

    /// Adds a fallback parser; it shadows the ones added before it.
    pub fn push_alt(&mut self, f: Fallback)
        ensures
            final(self).alts@ == old(self).alts@.push(f),
            final(self).entries@ == old(self).entries@,
    {
        self.alts.push(f);
    }

    /// Looks a token up: the mapping first, then the fallback parsers,
    /// newest first.
    pub fn get(&self, name: &String) -> (res: Option<Word>)
        ensures
            lookup_yields(entries_map(self.entries@), self.alts@, name@, res),
    {
        match table_get(&self.entries, name) {
            Some(w) => {
                return Some(w);
            },
            None => {},
        }
        let token = chars_of(name.as_str());
        let mut k: usize = self.alts.len();
        assert(self.alts@.take(k as int) =~= self.alts@);
        while k > 0
            invariant
                0 <= k <= self.alts@.len(),
                token@ == name@,
                !entries_map(self.entries@).dom().contains(name@),
                forall|res: Option<Word>|
                    #[trigger] alts_yield(self.alts@, name@, res) == alts_yield(
                        self.alts@.take(k as int),
                        name@,
                        res,
                    ),
            decreases k,
        {
            k = k - 1;
            proof {
                assert(self.alts@.take(k as int + 1).last() == self.alts@[k as int]);
                assert(self.alts@.take(k as int + 1).drop_last() =~= self.alts@.take(k as int));
            }
            match self.alts[k] {
                Fallback::IntLiteral => {
                    match parse_char_token(&token) {
                        Some(c) => {
                            let w = push_int_word(big_from_u64(c as u64));
                            assert(alts_yield(self.alts@.take(k as int + 1), name@, Some(w)));
                            assert(alts_yield(self.alts@, name@, Some(w)));
                            return Some(w);
                        },
                        None => {
                            match parse_num_token(&token) {
                                Some(b) => {
                                    let w = push_int_word(b);
                                    assert(alts_yield(
                                        self.alts@.take(k as int + 1),
                                        name@,
                                        Some(w),
                                    ));
                                    assert(alts_yield(self.alts@, name@, Some(w)));
                                    return Some(w);
                                },
                                None => {},
                            }
                        },
                    }
                },
                Fallback::StrLiteral => {
                    let tn = token.len();
                    if tn >= 2 && token[0] == '"' && token[tn - 1] == '"' {
                        let data = crate::textutil::encode_chars(&token, 1, tn - 1);
                        let o = Object::from_bytes(data);
                        let w = Word {
                            body: Rc::new(Body::Prim(Prim::PushObj(Rc::new(o)))),
                            immediate: false,
                        };
                        assert(alts_yield(self.alts@.take(k as int + 1), name@, Some(w)));
                        assert(alts_yield(self.alts@, name@, Some(w)));
                        return Some(w);
                    }
                },
            }
        }
        assert(self.alts@.take(0) =~= Seq::<Fallback>::empty());
        assert(alts_yield(self.alts@, name@, None::<Word>));
        None
    }
}

/// Redefining a name makes the newest binding the one a lookup yields;
/// bindings of other names are untouched, and a word value handed out
/// before the redefinition is a value, so it stays executable as it was.
pub proof fn lemma_redefinition(m: Map<Seq<char>, Word>, n: Seq<char>, w1: Word, w2: Word)
    ensures
        m.insert(n, w1).insert(n, w2).dom().contains(n),
        m.insert(n, w1).insert(n, w2)[n] == w2,
        forall|k: Seq<char>|
            k != n && m.dom().contains(k) ==> m.insert(n, w1).insert(n, w2)[k] == m[k],
{
}

/// The newest binding of a name in an ordered list of definitions.
pub fn table_get(entries: &Vec<(String, Word)>, name: &String) -> (res: Option<Word>)
    ensures
        match res {
            Some(w) => entries_map(entries@).dom().contains(name@) && w == entries_map(entries@)[name@],
            None => !entries_map(entries@).dom().contains(name@),
        },
{
    let n = entries.len();
    let mut i: usize = n;
    while i > 0
        invariant
            0 <= i <= n == entries@.len(),
            forall|j: int| i <= j < n ==> entries@[j].0@ != name@,
        decreases i,
    {
        i = i - 1;
        if entries[i].0 == *name {
            let w = entries[i].1.clone();
            proof {
                lemma_entries_map_found(entries@, i as int);
            }
            return Some(w);
        }
    }
    proof {
        lemma_entries_map_absent(entries@, name@);
    }
    None
}

/// A non-immediate word that pushes the given integer.
fn push_int_word(b: num::BigInt) -> (w: Word)
    ensures
        word_pushes_int(w, big_val(b)),
        !w.immediate,
{
    Word { body: Rc::new(Body::Prim(Prim::PushInt(Rc::new(b)))), immediate: false }
}

} // verus!
