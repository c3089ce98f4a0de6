use vstd::prelude::*;
use vstd::string::StrSliceExecFns;
use vstd::utf8::valid_utf8;
use vstd::utf8::decode_utf8;

verus! {

/// ASCII whitespace: space, tab, line feed, vertical tab, form feed,
/// carriage return.
pub open spec fn is_ws(b: u8) -> bool {
    b == (' ' as u8) || b == ('\t' as u8) || b == ('\n' as u8) || b == 11u8 || b == 12u8 || b == (
    '\r' as u8)
}

/// Exact test for ASCII whitespace.
pub fn is_ws_byte(b: u8) -> (r: bool)
    ensures
        r == is_ws(b),
{
    b == (' ' as u8) || b == ('\t' as u8) || b == ('\n' as u8) || b == 11u8 || b == 12u8 || b == (
    '\r' as u8)
}

/// The characters of a string, in order.
pub fn chars_of(s: &str) -> (r: Vec<char>)
    ensures
        r@ == s@,
{
    let n = s.unicode_len();
    let mut r: Vec<char> = Vec::new();
    let mut i: usize = 0;
    while i < n
        invariant
            0 <= i <= n == s@.len(),
            r@ == s@.subrange(0, i as int),
        decreases n - i,
    {
        r.push(s.get_char(i));
        i = i + 1;
    }
    assert(r@ =~= s@);
    r
}

/// Relies on String::from_utf8 from std: succeeds exactly on valid UTF-8,
/// and then holds the decoded characters.
#[verifier::external_body]
pub fn string_from_utf8(v: Vec<u8>) -> (r: Option<String>)
    ensures
        r is Some <==> valid_utf8(v@),
        r matches Some(s) ==> s@ == decode_utf8(v@),
{
    String::from_utf8(v).ok()
}

/// Encoding a concatenation of character sequences concatenates their
/// encodings.
pub proof fn lemma_encode_utf8_append(a: Seq<char>, b: Seq<char>)
    ensures
        vstd::utf8::encode_utf8(a + b) == vstd::utf8::encode_utf8(a) + vstd::utf8::encode_utf8(b),
    decreases a.len(),
{
    if a.len() == 0 {
        assert(a + b =~= b);
        assert(vstd::utf8::encode_utf8(a) =~= Seq::<u8>::empty());
        assert(vstd::utf8::encode_utf8(a) + vstd::utf8::encode_utf8(b) =~= vstd::utf8::encode_utf8(
            b,
        ));
    } else {
        assert((a + b)[0] == a[0]);
        assert((a + b).drop_first() =~= a.drop_first() + b);
        lemma_encode_utf8_append(a.drop_first(), b);
        assert(vstd::utf8::encode_utf8(a + b) =~= vstd::utf8::encode_utf8(a)
            + vstd::utf8::encode_utf8(b));
    }
}

/// An ASCII character encodes as its own single byte.
pub proof fn lemma_ascii_encode_scalar(c: char)
    requires
        c as u32 <= 0x7F,
    ensures
        vstd::utf8::encode_scalar(c as u32) == seq![c as u8],
{
    let u = c as u32;
    assert(u & 0x7F == u) by (bit_vector)
        requires
            u <= 0x7F,
    ;
    assert(vstd::utf8::encode_scalar(u) =~= seq![(u & 0x7F) as u8]);
    assert(u as u8 == c as u8);
}

/// The UTF-8 encoding of one Unicode scalar.
pub fn encode_scalar_exec(c: u32) -> (r: Vec<u8>)
    requires
        vstd::utf8::is_scalar(c),
    ensures
        r@ == vstd::utf8::encode_scalar(c),
{
    let mut r: Vec<u8> = Vec::new();
    if c <= 0x7F {
        r.push((c & 0x7F) as u8);
        assert(r@ =~= vstd::utf8::encode_scalar(c));
    } else if c <= 0x7FF {
        r.push(0xC0u8 | (((c >> 6) & 0x1F) as u8));
        r.push(0x80u8 | ((c & 0x3F) as u8));
        assert(r@ =~= vstd::utf8::encode_scalar(c));
    } else if c <= 0xFFFF {
        r.push(0xE0u8 | (((c >> 12) & 0x0F) as u8));
        r.push(0x80u8 | (((c >> 6) & 0x3F) as u8));
        r.push(0x80u8 | ((c & 0x3F) as u8));
        assert(r@ =~= vstd::utf8::encode_scalar(c));
    } else {
        r.push(0xF0u8 | (((c >> 18) & 0x7) as u8));
        r.push(0x80u8 | (((c >> 12) & 0x3F) as u8));
        r.push(0x80u8 | (((c >> 6) & 0x3F) as u8));
        r.push(0x80u8 | ((c & 0x3F) as u8));
        assert(r@ =~= vstd::utf8::encode_scalar(c));
    }
    r
}

/// The UTF-8 encoding of the characters `v[from..to]`.
pub fn encode_chars(v: &Vec<char>, from: usize, to: usize) -> (r: Vec<u8>)
    requires
        from <= to <= v@.len(),
    ensures
        r@ == vstd::utf8::encode_utf8(v@.subrange(from as int, to as int)),
{
    let mut r: Vec<u8> = Vec::new();
    let mut i: usize = from;
    assert(v@.subrange(from as int, from as int) =~= Seq::<char>::empty());
    while i < to
        invariant
            from <= i <= to <= v@.len(),
            r@ == vstd::utf8::encode_utf8(v@.subrange(from as int, i as int)),
        decreases to - i,
    {
        let c = v[i];
        proof {
            vstd::utf8::char_is_scalar(c);
        }
        let enc = encode_scalar_exec(c as u32);
        let ghost before = r@;
        append_bytes(&mut r, &enc);
        proof {
            let pfx = v@.subrange(from as int, i as int);
            assert(v@.subrange(from as int, i as int + 1) =~= pfx + seq![c]);
            lemma_encode_utf8_append(pfx, seq![c]);
            assert(seq![c].drop_first() =~= Seq::<char>::empty());
            assert(vstd::utf8::encode_utf8(Seq::<char>::empty()) =~= Seq::<u8>::empty());
            assert(vstd::utf8::encode_utf8(seq![c]) =~= vstd::utf8::encode_scalar(c as u32));
        }
        i = i + 1;
    }
    assert(r@ =~= vstd::utf8::encode_utf8(v@.subrange(from as int, to as int)));
    r
}

/// Appends the bytes of `src` to `dst`.
pub fn append_bytes(dst: &mut Vec<u8>, src: &Vec<u8>)
    ensures
        final(dst)@ == old(dst)@ + src@,
{
    let mut i: usize = 0;
    while i < src.len()
        invariant
            0 <= i <= src.len(),
            dst@ == old(dst)@ + src@.subrange(0, i as int),
        decreases src.len() - i,
    {
        dst.push(src[i]);
        i = i + 1;
    }
    assert(dst@ =~= old(dst)@ + src@);
}

/// The position of the first occurrence of `sep` in `s` at or after `from`,
/// if any.
pub open spec fn find_first(s: Seq<u8>, sep: Seq<u8>, from: nat) -> Option<nat>
    decreases s.len() - from,
    when sep.len() >= 1
{
    if from + sep.len() > s.len() {
        None
    } else if s.subrange(from as int, from + sep.len() as int) == sep {
        Some(from)
    } else {
        find_first(s, sep, from + 1)
    }
}

/// The pieces of `s` from `start` on, split on each occurrence of `sep`.
pub open spec fn split_from(s: Seq<u8>, sep: Seq<u8>, start: nat) -> Seq<Seq<u8>>
    decreases s.len() - start,
    when sep.len() >= 1 && start <= s.len()
    via split_from_decreases
{
    match find_first(s, sep, start) {
        Option::None => seq![s.subrange(start as int, s.len() as int)],
        Option::Some(p) => seq![s.subrange(start as int, p as int)] + split_from(
            s,
            sep,
            p + sep.len(),
        ),
    }
}

/// The pieces of `s` split on each occurrence of `sep`: one more piece than
/// there are occurrences, and joining the pieces with `sep` gives `s` back.
pub open spec fn split_on(s: Seq<u8>, sep: Seq<u8>) -> Seq<Seq<u8>> {
    split_from(s, sep, 0)
}

/// How many separator occurrences the split consumes from `start` on.
pub open spec fn count_occurrences_from(s: Seq<u8>, sep: Seq<u8>, start: nat) -> nat
    decreases s.len() - start,
    when sep.len() >= 1 && start <= s.len()
    via count_occurrences_decreases
{
    match find_first(s, sep, start) {
        Option::None => 0,
        Option::Some(p) => 1 + count_occurrences_from(s, sep, p + sep.len()),
    }
}

/// The pieces joined back together with `sep` between them.
pub open spec fn join_with(pieces: Seq<Seq<u8>>, sep: Seq<u8>) -> Seq<u8>
    decreases pieces.len(),
{
    if pieces.len() == 0 {
        Seq::empty()
    } else if pieces.len() == 1 {
        pieces[0]
    } else {
        pieces[0] + sep + join_with(pieces.drop_first(), sep)
    }
}

proof fn lemma_find_first_bounds(s: Seq<u8>, sep: Seq<u8>, from: nat)
    requires
        sep.len() >= 1,
    ensures
        find_first(s, sep, from) matches Some(p) ==> from <= p && p + sep.len() <= s.len()
            && s.subrange(p as int, p + sep.len() as int) == sep,
    decreases s.len() - from,
{
    if from + sep.len() > s.len() {
    } else if s.subrange(from as int, from + sep.len() as int) == sep {
    } else {
        lemma_find_first_bounds(s, sep, from + 1);
    }
}

#[via_fn]
proof fn split_from_decreases(s: Seq<u8>, sep: Seq<u8>, start: nat) {
    lemma_find_first_bounds(s, sep, start);
}

#[via_fn]
proof fn count_occurrences_decreases(s: Seq<u8>, sep: Seq<u8>, start: nat) {
    lemma_find_first_bounds(s, sep, start);
}

/// Splitting yields exactly one more piece than there are separator
/// occurrences.
pub proof fn lemma_split_piece_count(s: Seq<u8>, sep: Seq<u8>, start: nat)
    requires
        sep.len() >= 1,
        start <= s.len(),
    ensures
        split_from(s, sep, start).len() == count_occurrences_from(s, sep, start) + 1,
    decreases s.len() - start,
{
    lemma_find_first_bounds(s, sep, start);
    match find_first(s, sep, start) {
        Option::None => {},
        Option::Some(p) => {
            lemma_split_piece_count(s, sep, p + sep.len());
        },
    }
}

/// Joining the split pieces with the separator reconstructs the input.
pub proof fn lemma_split_join(s: Seq<u8>, sep: Seq<u8>, start: nat)
    requires
        sep.len() >= 1,
        start <= s.len(),
    ensures
        join_with(split_from(s, sep, start), sep) == s.subrange(start as int, s.len() as int),
    decreases s.len() - start,
{
    lemma_find_first_bounds(s, sep, start);
    match find_first(s, sep, start) {
        Option::None => {},
        Option::Some(p) => {
            lemma_split_join(s, sep, p + sep.len());
            let pieces = split_from(s, sep, start);
            assert(pieces.drop_first() =~= split_from(s, sep, (p + sep.len()) as nat));
            assert(pieces.len() >= 2) by {
                lemma_split_piece_count(s, sep, (p + sep.len()) as nat);
            }
            assert(join_with(pieces, sep) =~= s.subrange(start as int, s.len() as int));
        },
    }
}

fn match_at(s: &Vec<u8>, sep: &Vec<u8>, at: usize) -> (r: bool)
    requires
        at + sep@.len() <= s@.len(),
    ensures
        r == (s@.subrange(at as int, at + sep@.len()) == sep@),
{
    let n = s.len();
    let mut j: usize = 0;
    while j < sep.len()
        invariant
            0 <= j <= sep@.len(),
            at + sep@.len() <= s@.len(),
            n == s@.len(),
            forall|k: int| 0 <= k < j ==> s@[at + k] == sep@[k],
        decreases sep@.len() - j,
    {
        if s[at + j] != sep[j] {
            assert(s@.subrange(at as int, at + sep@.len())[j as int] != sep@[j as int]);
            return false;
        }
        j = j + 1;
    }
    assert(s@.subrange(at as int, at + sep@.len()) =~= sep@);
    true
}

fn find_first_exec(s: &Vec<u8>, sep: &Vec<u8>, from: usize) -> (r: Option<usize>)
    requires
        sep@.len() >= 1,
        from <= s@.len(),
    ensures
        match r {
            Some(p) => find_first(s@, sep@, from as nat) == Some(p as nat),
            None => find_first(s@, sep@, from as nat) is None,
        },
{
    if sep.len() > s.len() || from > s.len() - sep.len() {
        return None;
    }
    let n = s.len();
    let last = n - sep.len();
    let mut i: usize = from;
    while i <= last
        invariant
            from <= i,
            sep@.len() >= 1,
            n == s@.len(),
            last == s@.len() - sep@.len(),
            i <= last + 1,
            find_first(s@, sep@, from as nat) == find_first(s@, sep@, i as nat),
        decreases last + 1 - i,
    {
        if match_at(s, sep, i) {
            return Some(i);
        }
        i = i + 1;
    }
    None
}

/// The view of a list of byte vectors.
pub open spec fn vecs_view(s: Seq<Vec<u8>>) -> Seq<Seq<u8>> {
    Seq::new(s.len(), |i: int| s[i]@)
}

fn copy_range(s: &Vec<u8>, from: usize, to: usize) -> (r: Vec<u8>)
    requires
        from <= to <= s@.len(),
    ensures
        r@ == s@.subrange(from as int, to as int),
{
    let mut r: Vec<u8> = Vec::new();
    let mut i: usize = from;
    while i < to
        invariant
            from <= i <= to <= s@.len(),
            r@ == s@.subrange(from as int, i as int),
        decreases to - i,
    {
        r.push(s[i]);
        i = i + 1;
        assert(r@ =~= s@.subrange(from as int, i as int));
    }
    r
}

/// Splits `s` on each occurrence of the non-empty separator `sep`.
pub fn split_bytes(s: &Vec<u8>, sep: &Vec<u8>) -> (r: Vec<Vec<u8>>)
    requires
        sep@.len() >= 1,
    ensures
        vecs_view(r@) == split_on(s@, sep@),
{
    let n = s.len();
    let mut out: Vec<Vec<u8>> = Vec::new();
    let mut start: usize = 0;
    loop
        invariant
            sep@.len() >= 1,
            n == s@.len(),
            start <= s@.len(),
            split_on(s@, sep@) == vecs_view(out@) + split_from(s@, sep@, start as nat),
        decreases s@.len() - start,
    {
        proof {
            lemma_find_first_bounds(s@, sep@, start as nat);
        }
        match find_first_exec(s, sep, start) {
            Some(p) => {
                let piece = copy_range(s, start, p);
                out.push(piece);
                proof {
                    assert(vecs_view(out@) =~= vecs_view(out@.drop_last()) + seq![
                        out@.last()@,
                    ]);
                    assert(split_on(s@, sep@) =~= vecs_view(out@) + split_from(
                        s@,
                        sep@,
                        (p + sep@.len()) as nat,
                    ));
                }
                start = p + sep.len();
            },
            None => {
                let piece = copy_range(s, start, s.len());
                out.push(piece);
                proof {
                    assert(vecs_view(out@) =~= vecs_view(out@.drop_last()) + seq![
                        out@.last()@,
                    ]);
                    assert(split_on(s@, sep@) =~= vecs_view(out@));
                }
                return out;
            },
        }
    }
}

} // verus!
