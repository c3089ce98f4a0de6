use vstd::prelude::*;
use std::rc::Rc;
use crate::object::Object;
use crate::words::Word;
use crate::words::Dict;
use crate::words::Fallback;
use crate::words::entries_map;
use crate::textutil::is_ws;
use crate::textutil::is_ws_byte;
use crate::textutil::string_from_utf8;
use vstd::utf8::valid_utf8;
use vstd::utf8::decode_utf8;

verus! {

/// One byte source of the input stream: a buffer and a read position. An
/// exhausted source stays on the stack, so a host may push more bytes as a
/// new source above it.
pub struct Source {
    pub bytes: Vec<u8>,
    pub pos: usize,
}

/// What remains to be read of a source.
pub open spec fn src_rem(s: Source) -> Seq<u8> {
    if s.pos <= s.bytes@.len() {
        s.bytes@.skip(s.pos as int)
    } else {
        Seq::empty()
    }
}

/// An effect the interpreter queues for the host to perform, in order.
pub enum Effect {
    /// Write these bytes to the terminal.
    Print(Vec<u8>),
    /// Clear the whole screen.
    Clear,
    /// Clear the current line.
    ClearLine,
    /// Move the cursor to the column and row.
    SetCursor(u16, u16),
    /// Flush pending terminal writes.
    Flush,
}

/// The value of a queued effect.
pub ghost enum EffV {
    Print(Seq<u8>),
    Clear,
    ClearLine,
    SetCursor(u16, u16),
    Flush,
}

/// The value of an effect.
pub open spec fn eff_view(e: Effect) -> EffV {
    match e {
        Effect::Print(v) => EffV::Print(v@),
        Effect::Clear => EffV::Clear,
        Effect::ClearLine => EffV::ClearLine,
        Effect::SetCursor(x, y) => EffV::SetCursor(x, y),
        Effect::Flush => EffV::Flush,
    }
}

/// Why a word failed. Every failure aborts the enclosing body and stops the
/// driver; the three host requests additionally wind the machine back to
/// the word that asked, so that the next drive re-runs it.
#[derive(Debug)]
pub enum Failure {
    /// A word's bytes are not valid UTF-8.
    Lex,
    /// The token is in no dictionary entry and no fallback accepts it.
    Unknown(String),
    /// A pop from an empty stack.
    Underflow,
    /// An integer does not fit the required width, or an index is out of
    /// bounds.
    Convert,
    /// A compiler control word met the wrong compile state.
    CompileState,
    /// `Sys panic` with the caller's message bytes.
    User(Vec<u8>),
    /// A word that reads the next token met the end of the input.
    Eoi,
    /// A variable word names a cell that does not exist.
    BadCell,
    /// `Sys Terminal wait` found no staged event. The driver winds the
    /// machine back to the asking word, so the host stages an event and
    /// drives again to resume there.
    NeedEvent,
    /// `Sys Terminal size` and `Window size` found no staged size; wound
    /// back like a missing event.
    NeedSize,
    /// `Sys Fs read` found no staged file of this name; wound back like a
    /// missing event.
    NeedFile(Vec<u8>),
    /// The nesting budget ran out.
    Depth,
}

/// The value of a failure.
pub ghost enum FailV {
    Lex,
    Unknown(Seq<char>),
    Underflow,
    Convert,
    CompileState,
    User(Seq<u8>),
    Eoi,
    BadCell,
    NeedEvent,
    NeedSize,
    NeedFile(Seq<u8>),
    Depth,
}

/// The value of a failure.
pub open spec fn fail_view(f: Failure) -> FailV {
    match f {
        Failure::Lex => FailV::Lex,
        Failure::Unknown(s) => FailV::Unknown(s@),
        Failure::Underflow => FailV::Underflow,
        Failure::Convert => FailV::Convert,
        Failure::CompileState => FailV::CompileState,
        Failure::User(v) => FailV::User(v@),
        Failure::Eoi => FailV::Eoi,
        Failure::BadCell => FailV::BadCell,
        Failure::NeedEvent => FailV::NeedEvent,
        Failure::NeedSize => FailV::NeedSize,
        Failure::NeedFile(v) => FailV::NeedFile(v@),
        Failure::Depth => FailV::Depth,
    }
}

/// The value of a word's outcome.
pub open spec fn res_view(r: Result<(), Failure>) -> Result<(), FailV> {
    match r {
        Ok(u) => Ok(u),
        Err(f) => Err(fail_view(f)),
    }
}

/// The compiler's conditional staging: three buffers and the stage that
/// names the buffer now being filled.
#[derive(Clone, Copy, PartialEq, Eq, Structural)]
pub enum Stage {
    Cond,
    True,
    False,
}

/// An open conditional inside a definition under construction.
pub struct CondBuilder {
    pub cond_words: Vec<Word>,
    pub tru: Vec<Word>,
    pub fals: Vec<Word>,
    pub stage: Stage,
}

/// A definition under construction. An empty name marks the anonymous
/// builder that hosts a top-level conditional.
pub struct Builder {
    pub name: String,
    pub immediate: bool,
    pub words: Vec<Word>,
    pub cond: Option<CondBuilder>,
}

/// The value of an open conditional.
#[verifier::ext_equal]
pub ghost struct CondV {
    pub cond_words: Seq<Word>,
    pub tru: Seq<Word>,
    pub fals: Seq<Word>,
    pub stage: Stage,
}

/// The value of a definition under construction.
#[verifier::ext_equal]
pub ghost struct BuilderV {
    pub name: Seq<char>,
    pub immediate: bool,
    pub words: Seq<Word>,
    pub cond: Option<CondV>,
}

/// The value of an open conditional.
pub open spec fn cond_view(c: CondBuilder) -> CondV {
    CondV { cond_words: c.cond_words@, tru: c.tru@, fals: c.fals@, stage: c.stage }
}

/// The value of a builder.
pub open spec fn builder_view(b: Builder) -> BuilderV {
    BuilderV {
        name: b.name@,
        immediate: b.immediate,
        words: b.words@,
        cond: match b.cond {
            Some(c) => Some(cond_view(c)),
            None => None,
        },
    }
}

/// The staged file snapshot as a mapping; the latest entry for a path wins.
pub open spec fn files_map(s: Seq<(Vec<u8>, Vec<u8>)>) -> Map<Seq<u8>, Seq<u8>>
    decreases s.len(),
{
    if s.len() == 0 {
        Map::empty()
    } else {
        files_map(s.drop_last()).insert(s.last().0@, s.last().1@)
    }
}

/// The whole interpreter state. The two stacks, the dictionary, the
/// compiler slot and the input stream are the shared state of the word
/// set; the cells back the variable words; the queues at the end stage the
/// host's effects and answers.
pub struct Vm {
    pub dict: Dict,
    pub ints: Vec<Rc<num::BigInt>>,
    pub objs: Vec<Rc<Object>>,
    pub comp: Option<Builder>,
    pub sources: Vec<Source>,
    pub int_cells: Vec<Rc<num::BigInt>>,
    pub obj_cells: Vec<Rc<Object>>,
    pub effects: Vec<Effect>,
    pub events: Vec<Rc<num::BigInt>>,
    pub term_size: Option<(u16, u16)>,
    pub files: Vec<(Vec<u8>, Vec<u8>)>,
}

/// The value of the whole interpreter state.
#[verifier::ext_equal]
pub ghost struct VmV {
    pub dict: Map<Seq<char>, Word>,
    pub alts: Seq<Fallback>,
    pub ints: Seq<num::BigInt>,
    pub objs: Seq<Object>,
    pub comp: Option<BuilderV>,
    pub input: Seq<Seq<u8>>,
    pub int_cells: Seq<num::BigInt>,
    pub obj_cells: Seq<Object>,
    pub effects: Seq<EffV>,
    pub events: Seq<num::BigInt>,
    pub term_size: Option<(u16, u16)>,
    pub files: Map<Seq<u8>, Seq<u8>>,
}

/// The value of the interpreter state: stacks and cells read through their
/// handles, the dictionary as a mapping, each input source as its remaining
/// bytes.
pub open spec fn vmv(vm: Vm) -> VmV {
    VmV {
        dict: entries_map(vm.dict.entries@),
        alts: vm.dict.alts@,
        ints: Seq::new(vm.ints@.len(), |i: int| *vm.ints@[i]),
        objs: Seq::new(vm.objs@.len(), |i: int| *vm.objs@[i]),
        comp: match vm.comp {
            Some(b) => Some(builder_view(b)),
            None => None,
        },
        input: Seq::new(vm.sources@.len(), |i: int| src_rem(vm.sources@[i])),
        int_cells: Seq::new(vm.int_cells@.len(), |i: int| *vm.int_cells@[i]),
        obj_cells: Seq::new(vm.obj_cells@.len(), |i: int| *vm.obj_cells@[i]),
        effects: Seq::new(vm.effects@.len(), |i: int| eff_view(vm.effects@[i])),
        events: Seq::new(vm.events@.len(), |i: int| *vm.events@[i]),
        term_size: vm.term_size,
        files: files_map(vm.files@),
    }
}

/// How many whitespace bytes the stream starts with.
pub open spec fn ws_len(b: Seq<u8>) -> nat
    decreases b.len(),
{
    if b.len() == 0 || !is_ws(b[0]) {
        0
    } else {
        1 + ws_len(b.drop_first())
    }
}

/// How many non-whitespace bytes the stream starts with.
pub open spec fn tok_len(b: Seq<u8>) -> nat
    decreases b.len(),
{
    if b.len() == 0 || is_ws(b[0]) {
        0
    } else {
        1 + tok_len(b.drop_first())
    }
}

proof fn lemma_ws_len_bound(b: Seq<u8>)
    ensures
        ws_len(b) <= b.len(),
        tok_len(b) <= b.len(),
    decreases b.len(),
{
    if b.len() > 0 {
        lemma_ws_len_bound(b.drop_first());
    }
}

/// The bytes of the next word in the stream: what stands between the
/// leading whitespace and the next whitespace byte or the end.
pub open spec fn lex_token_bytes(b: Seq<u8>) -> Seq<u8> {
    let w = ws_len(b);
    let t = tok_len(b.skip(w as int));
    b.subrange(w as int, (w + t) as int)
}

/// How many bytes reading the next word consumes: the leading whitespace,
/// the word, and the whitespace byte that ended it, if any.
pub open spec fn lex_consumed(b: Seq<u8>) -> nat {
    let w = ws_len(b);
    let t = tok_len(b.skip(w as int));
    if w + t < b.len() {
        w + t + 1
    } else {
        w + t
    }
}

/// What reading one word does to the state and hands back: nothing on an
/// empty input stream; otherwise the top source advances past the next
/// word, which is decoded as UTF-8 text, none at the end of the stream.
pub open spec fn read_word_rel(a: VmV, b: VmV, r: Result<Option<String>, Failure>) -> bool {
    if a.input.len() == 0 {
        b == a && (r matches Ok(rr) && rr is None)
    } else {
        let rem = a.input.last();
        let tb = lex_token_bytes(rem);
        &&& b == (VmV {
            input: a.input.update(a.input.len() - 1, rem.skip(lex_consumed(rem) as int)),
            ..a
        })
        &&& if tb.len() == 0 {
            r matches Ok(rr) && rr is None
        } else if valid_utf8(tb) {
            r matches Ok(rr) && rr matches Some(s) && s@ == decode_utf8(tb) && s@.len() > 0
        } else {
            r matches Err(f) && fail_view(f) == FailV::Lex
        }
    }
}

/// Decoding a non-empty token gives non-empty text.
proof fn lemma_decode_nonempty(tb: Seq<u8>)
    requires
        valid_utf8(tb),
        tb.len() > 0,
    ensures
        decode_utf8(tb).len() > 0,
{
}

impl Vm {
    /// Pushes further program bytes as a new top source.
    pub fn push_source(&mut self, bytes: Vec<u8>)
        ensures
            vmv(*final(self)) == (VmV { input: vmv(*old(self)).input.push(bytes@), ..vmv(*old(self)) }),
    {
        self.sources.push(Source { bytes, pos: 0 });
        assert(vmv(*self) =~~= (VmV { input: vmv(*old(self)).input.push(self.sources@.last().bytes@), ..vmv(*old(self)) }));
    }

    /// Reads the next word from the top source: skips whitespace, then
    /// takes bytes until whitespace or the end of the source, and decodes
    /// them; none when the stream is exhausted.
    pub fn read_word(&mut self) -> (r: Result<Option<String>, Failure>)
        ensures
            read_word_rel(vmv(*old(self)), vmv(*final(self)), r),
    {
        let k = self.sources.len();
        if k == 0 {
            return Ok(None);
        }
        let mut src = match self.sources.pop() {
            Some(s) => s,
            None => {
                return Ok(None);
            },
        };
        let ghost rem0 = src_rem(src);
        let n = src.bytes.len();
        if src.pos > n {
            // never the case for sources this module builds; restore and
            // treat the source as exhausted
            src.pos = n;
        }
        let ghost pos0 = src.pos as int;
        proof {
            lemma_ws_len_bound(rem0);
        }
        while src.pos < n && is_ws_byte(src.bytes[src.pos])
            invariant
                pos0 <= src.pos as int <= n == src.bytes@.len(),
                rem0 == src.bytes@.skip(pos0),
                pos0 + ws_len(rem0) == src.pos + ws_len(src.bytes@.skip(src.pos as int)),
            decreases n - src.pos,
        {
            proof {
                let cur = src.bytes@.skip(src.pos as int);
                assert(cur[0] == src.bytes@[src.pos as int]);
                assert(cur.drop_first() =~= src.bytes@.skip(src.pos as int + 1));
            }
            src.pos = src.pos + 1;
        }
        proof {
            let cur = src.bytes@.skip(src.pos as int);
            if src.pos < n {
                assert(cur[0] == src.bytes@[src.pos as int]);
            }
            assert(ws_len(cur) == 0);
            assert(ws_len(rem0) == src.pos - pos0);
        }
        let start = src.pos;
        let ghost after_ws = src.bytes@.skip(start as int);
        proof {
            lemma_ws_len_bound(after_ws);
        }
        let mut word: Vec<u8> = Vec::new();
        while src.pos < n && !is_ws_byte(src.bytes[src.pos])
            invariant
                0 <= pos0 <= start <= src.pos as int <= n == src.bytes@.len(),
                rem0 == src.bytes@.skip(pos0),
                ws_len(rem0) == start - pos0,
                after_ws == src.bytes@.skip(start as int),
                word@ == src.bytes@.subrange(start as int, src.pos as int),
                start + tok_len(after_ws) == src.pos + tok_len(src.bytes@.skip(src.pos as int)),
            decreases n - src.pos,
        {
            proof {
                let cur = src.bytes@.skip(src.pos as int);
                assert(cur[0] == src.bytes@[src.pos as int]);
                assert(cur.drop_first() =~= src.bytes@.skip(src.pos as int + 1));
            }
            word.push(src.bytes[src.pos]);
            src.pos = src.pos + 1;
            assert(word@ =~= src.bytes@.subrange(start as int, src.pos as int));
        }
        proof {
            let cur = src.bytes@.skip(src.pos as int);
            if src.pos < n {
                assert(cur[0] == src.bytes@[src.pos as int]);
            }
            assert(tok_len(cur) == 0);
            assert(tok_len(after_ws) == src.pos - start);
            assert(rem0.skip(ws_len(rem0) as int) =~= after_ws);
            assert(word@ =~= lex_token_bytes(rem0));
        }
        let got_word = word.len() > 0;
        let ghost tok_end = src.pos as int;
        if src.pos < n {
            src.pos = src.pos + 1;
        }
        proof {
            assert(rem0.skip(ws_len(rem0) as int) =~= after_ws);
            assert(ws_len(rem0) + tok_len(after_ws) == tok_end - pos0);
            assert(src.pos as int == pos0 + lex_consumed(rem0));
            let c = lex_consumed(rem0) as int;
            assert(0 <= c <= rem0.len());
            assert(rem0.skip(c).len() == src.bytes@.skip(src.pos as int).len());
            assert forall|i: int| 0 <= i < rem0.skip(c).len() implies rem0.skip(c)[i]
                == src.bytes@.skip(src.pos as int)[i] by {
                assert(rem0.skip(c)[i] == rem0[c + i]);
                assert(rem0[c + i] == src.bytes@[pos0 + c + i]);
                assert(src.bytes@.skip(src.pos as int)[i] == src.bytes@[src.pos + i]);
            }
            assert(src.bytes@.skip(src.pos as int) =~= rem0.skip(lex_consumed(rem0) as int));
        }
        self.sources.push(src);
        proof {
            assert(vmv(*self).input =~= vmv(*old(self)).input.update(
                vmv(*old(self)).input.len() - 1,
                rem0.skip(lex_consumed(rem0) as int),
            ));
            assert(vmv(*self) =~~= (VmV {
                input: vmv(*old(self)).input.update(
                    vmv(*old(self)).input.len() - 1,
                    rem0.skip(lex_consumed(rem0) as int),
                ),
                ..vmv(*old(self))
            }));
        }
        if !got_word {
            return Ok(None);
        }
        match string_from_utf8(word) {
            Some(s) => {
                proof {
                    lemma_decode_nonempty(lex_token_bytes(rem0));
                }
                Ok(Some(s))
            },
            None => Err(Failure::Lex),
        }
    }
}

} // verus!
