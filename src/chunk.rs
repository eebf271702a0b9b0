//! Splitting text into sentence chunks of bounded length for synthesis.

use vstd::prelude::*;
use vstd::utf8::encode_utf8;
use crate::text::{
    join, lemma_join_push, chars_of, is_white, is_white_exec, slice_chars, string_of, trim, trim_bounds, trim_end, trim_start,
    trimmed, views,
};

verus! {

/// Longest chunk, in bytes, before punctuation is appended.
pub const CHUNK_MAX_CHARS: usize = 400;

pub open spec fn is_stop(c: char) -> bool {
    c == '.' || c == '!' || c == '?'
}

pub open spec fn is_closing(c: char) -> bool {
    c == '.' || c == '!' || c == '?' || c == ',' || c == ';' || c == ':'
}

/// Length of the UTF-8 encoding of `s`, as `str::len` reports it.
pub open spec fn blen(s: Seq<char>) -> nat {
    (encode_utf8(s).len() as usize) as nat
}

/// `s` trimmed, with a comma appended unless it is empty or already ends in
/// punctuation.
pub open spec fn punctuated(s: Seq<char>) -> Seq<char> {
    let t = trimmed(s);
    if t.len() == 0 || is_closing(t.last()) { t } else { t.push(',') }
}

/// The pieces of `s` between sentence stops, as `str::split` gives them.
pub open spec fn split_pieces(s: Seq<char>) -> Seq<Seq<char>>
    decreases s.len(),
{
    if s.len() == 0 {
        seq![Seq::empty()]
    } else if is_stop(s.last()) {
        split_pieces(s.drop_last()).push(Seq::empty())
    } else {
        let p = split_pieces(s.drop_last());
        p.update(p.len() - 1, p.last().push(s.last()))
    }
}

/// The maximal runs of non-white characters of `s`, as `str::split_whitespace`
/// gives them.
pub open spec fn words(s: Seq<char>) -> Seq<Seq<char>>
    decreases s.len(),
{
    if s.len() == 0 {
        Seq::empty()
    } else if is_white(s.last()) {
        words(s.drop_last())
    } else if s.len() >= 2 && !is_white(s[s.len() - 2]) {
        let w = words(s.drop_last());
        w.update(w.len() - 1, w.last().push(s.last()))
    } else {
        words(s.drop_last()).push(seq![s.last()])
    }
}

/// One step of greedy packing: close the current chunk when `w` would make
/// it longer than `max` bytes, else add `w` to it.
pub open spec fn pack_step(st: (Seq<Seq<char>>, Seq<char>), w: Seq<char>, max: nat) -> (Seq<Seq<char>>, Seq<char>) {
    if st.1.len() > 0 && blen(st.1) + 1 + blen(w) > max {
        (st.0.push(punctuated(trimmed(st.1))), w)
    } else {
        (st.0, if st.1.len() > 0 { st.1 + " "@ + w } else { w })
    }
}

/// Closed chunks and the open one after packing `ws`.
pub open spec fn pack(ws: Seq<Seq<char>>, max: nat) -> (Seq<Seq<char>>, Seq<char>)
    decreases ws.len(),
{
    if ws.len() == 0 {
        (Seq::empty(), Seq::empty())
    } else {
        pack_step(pack(ws.drop_last(), max), ws.last(), max)
    }
}

/// The chunks of greedily packed words.
pub open spec fn packed(ws: Seq<Seq<char>>, max: nat) -> Seq<Seq<char>> {
    let st = pack(ws, max);
    if trimmed(st.1).len() > 0 { st.0.push(punctuated(trimmed(st.1))) } else { st.0 }
}

/// The chunks of one sentence piece.
pub open spec fn sentence_chunks(piece: Seq<char>, max: nat) -> Seq<Seq<char>> {
    let s = trimmed(piece);
    if s.len() == 0 {
        Seq::empty()
    } else if blen(s) <= max {
        seq![punctuated(s)]
    } else {
        packed(words(s), max)
    }
}

pub open spec fn all_chunks(pieces: Seq<Seq<char>>, max: nat) -> Seq<Seq<char>>
    decreases pieces.len(),
{
    if pieces.len() == 0 {
        Seq::empty()
    } else {
        all_chunks(pieces.drop_last(), max) + sentence_chunks(pieces.last(), max)
    }
}

/// The chunks of `text`, in order.
pub open spec fn chunks_of(text: Seq<char>, max: nat) -> Seq<Seq<char>> {
    all_chunks(split_pieces(text), max)
}

fn byte_len(s: &Vec<char>) -> (r: usize)
    ensures
        r == blen(s@),
{
    let st = string_of(s.as_slice());
    st.as_str().len()
}

/// Trims `text` and appends a comma unless it is empty or already ends in
/// one of `.!?,;:`.
pub fn ensure_punctuation(text: &str) -> (r: String)
    ensures
        r@ == punctuated(text@),
{
    let t = trim(text);
    let cs = chars_of(t.as_str());
    if cs.len() == 0 {
        return t;
    }
    let c = cs[cs.len() - 1];
    if c == '.' || c == '!' || c == '?' || c == ',' || c == ';' || c == ':' {
        t
    } else {
        let mut v = cs;
        v.push(',');
        string_of(v.as_slice())
    }
}

/// The white-space separated words of `cs`.
fn split_words(cs: &Vec<char>) -> (r: Vec<Vec<char>>)
    ensures
        r@.map_values(|w: Vec<char>| w@) == words(cs@),
{
    let mut done: Vec<Vec<char>> = Vec::new();
    let mut cur: Vec<char> = Vec::new();
    let mut in_word = false;
    let mut i: usize = 0;
    while i < cs.len()
        invariant
            i <= cs.len(),
            in_word == (i > 0 && !is_white(cs@[i - 1])),
            in_word ==> words(cs@.take(i as int)) == done@.map_values(|w: Vec<char>| w@).push(cur@),
            !in_word ==> words(cs@.take(i as int)) == done@.map_values(|w: Vec<char>| w@),
            !in_word ==> cur@.len() == 0,
        decreases cs.len() - i,
    {
        let ghost pre = cs@.take(i as int);
        assert(cs@.take(i + 1).drop_last() =~= pre);
        let c = cs[i];
        if is_white_exec(c) {
            if in_word {
                done.push(cur);
                cur = Vec::new();
                assert(done@.map_values(|w: Vec<char>| w@) =~= words(pre));
            }
            in_word = false;
        } else {
            let ghost old_cur = cur@;
            cur.push(c);
            if in_word {
                assert(cs@.take(i + 1)[i - 1] == cs@[i - 1]);
                assert(words(cs@.take(i + 1)) =~= done@.map_values(|w: Vec<char>| w@).push(cur@));
            } else {
                assert(cur@ =~= seq![c]);
                assert(words(cs@.take(i + 1)) =~= done@.map_values(|w: Vec<char>| w@).push(cur@));
            }
            in_word = true;
        }
        i += 1;
    }
    if in_word {
        done.push(cur);
    }
    assert(cs@.take(i as int) =~= cs@);
    done
}

/// Greedily packs `ws` into chunks of at most `max_len` bytes, each closed at
/// a word boundary.
fn pack_words(ws: &Vec<Vec<char>>, max_len: usize) -> (r: Vec<String>)
    ensures
        views(r@) == packed(ws@.map_values(|w: Vec<char>| w@), max_len as nat),
{
    let ghost wv = ws@.map_values(|w: Vec<char>| w@);
    let mut chunks: Vec<String> = Vec::new();
    let mut cur: Vec<char> = Vec::new();
    let mut i: usize = 0;
    while i < ws.len()
        invariant
            i <= ws.len(),
            wv == ws@.map_values(|w: Vec<char>| w@),
            (views(chunks@), cur@) == pack(wv.take(i as int), max_len as nat),
        decreases ws.len() - i,
    {
        assert(wv.take(i + 1).drop_last() =~= wv.take(i as int));
        let w = &ws[i];
        let cl = byte_len(&cur);
        let wl = byte_len(w);
        let ghost old_chunks = views(chunks@);
        let ghost old_cur = cur@;
        if cur.len() > 0 && (cl >= max_len || wl > max_len - cl - 1) {
            let t = trim(string_of(cur.as_slice()).as_str());
            chunks.push(ensure_punctuation(t.as_str()));
            cur = slice_chars(w, 0, w.len());
            assert(cur@ =~= w@);
            assert(views(chunks@) =~= old_chunks.push(punctuated(trimmed(old_cur))));
        } else {
            if cur.len() > 0 {
                cur.push(' ');
            }
            let mut more = slice_chars(w, 0, w.len());
            cur.append(&mut more);
            assert(cur@ =~= if old_cur.len() > 0 { old_cur + " "@ + w@ } else { w@ }) by {
                reveal_strlit(" ");
            }
        }
        i += 1;
    }
    assert(wv.take(i as int) =~= wv);
    let t = trim(string_of(cur.as_slice()).as_str());
    if chars_of(t.as_str()).len() > 0 {
        let ghost before = views(chunks@);
        chunks.push(ensure_punctuation(t.as_str()));
        assert(views(chunks@) =~= before.push(punctuated(trimmed(cur@))));
    }
    chunks
}

fn chunks_of_piece(piece: &Vec<char>, max_len: usize) -> (r: Vec<String>)
    ensures
        views(r@) == sentence_chunks(piece@, max_len as nat),
{
    let (a, b) = trim_bounds(piece);
    let s = slice_chars(piece, a, b);
    if s.len() == 0 {
        let r: Vec<String> = Vec::new();
        assert(views(r@) =~= Seq::<Seq<char>>::empty());
        r
    } else if byte_len(&s) <= max_len {
        let r = vec![ensure_punctuation(string_of(s.as_slice()).as_str())];
        assert(views(r@) =~= seq![punctuated(s@)]);
        r
    } else {
        let ws = split_words(&s);
        pack_words(&ws, max_len)
    }
}

/// Splits `text` at `.`, `!` and `?` into sentences, drops empty ones, and
/// gives each as one chunk when it fits in `max_len` bytes, else as greedily
/// packed runs of whole words; every chunk gets closing punctuation.
pub fn chunk_text(text: &str, max_len: usize) -> (r: Vec<String>)
    ensures
        views(r@) == chunks_of(text@, max_len as nat),
{
    let cs = chars_of(text);
    let mut out: Vec<String> = Vec::new();
    let ghost mut done: Seq<Seq<char>> = Seq::empty();
    let mut start: usize = 0;
    let mut i: usize = 0;
    assert(cs@.take(0) =~= Seq::<char>::empty());
    assert(cs@.subrange(0, 0) =~= Seq::<char>::empty());
    assert(split_pieces(Seq::<char>::empty()) == seq![Seq::<char>::empty()]);
    while i < cs.len()
        invariant
            start <= i <= cs.len(),
            cs@ == text@,
            split_pieces(cs@.take(i as int)) == done.push(cs@.subrange(start as int, i as int)),
            views(out@) == all_chunks(done, max_len as nat),
        decreases cs.len() - i,
    {
        let ghost pre = cs@.take(i as int);
        assert(cs@.take(i + 1).drop_last() =~= pre);
        if cs[i] == '.' || cs[i] == '!' || cs[i] == '?' {
            let piece = slice_chars(&cs, start, i);
            let mut more = chunks_of_piece(&piece, max_len);
            let ghost before = views(out@);
            let ghost mv = views(more@);
            out.append(&mut more);
            proof {
                assert(views(out@) =~= before + mv);
                let nd = done.push(piece@);
                assert(nd.drop_last() =~= done);
                done = nd;
                assert(cs@.subrange((i + 1) as int, (i + 1) as int) =~= Seq::<char>::empty());
            }
            start = i + 1;
        } else {
            proof {
                let p = done.push(cs@.subrange(start as int, i as int));
                assert(cs@.subrange(start as int, i + 1) =~= cs@.subrange(start as int, i as int).push(cs@[i as int]));
                assert(p.update(p.len() - 1, p.last().push(cs@[i as int]))
                    =~= done.push(cs@.subrange(start as int, i + 1)));
            }
        }
        i += 1;
    }
    assert(cs@.take(i as int) =~= cs@);
    let piece = slice_chars(&cs, start, cs.len());
    let mut more = chunks_of_piece(&piece, max_len);
    let ghost before = views(out@);
    let ghost mv = views(more@);
    out.append(&mut more);
    proof {
        assert(views(out@) =~= before + mv);
        let nd = done.push(piece@);
        assert(nd.drop_last() =~= done);
    }
    out
}

/// Length of the UTF-8 encoding of `s`, unbounded.
pub open spec fn enc_len(s: Seq<char>) -> nat {
    encode_utf8(s).len()
}

proof fn lemma_enc_concat(a: Seq<char>, b: Seq<char>)
    ensures
        encode_utf8(a + b) == encode_utf8(a) + encode_utf8(b),
    decreases a.len(),
{
    if a.len() > 0 {
        assert((a + b).drop_first() =~= a.drop_first() + b);
        assert((a + b)[0] == a[0]);
        lemma_enc_concat(a.drop_first(), b);
        let e = vstd::utf8::encode_scalar(a[0] as u32);
        assert(e + (encode_utf8(a.drop_first()) + encode_utf8(b))
            =~= (e + encode_utf8(a.drop_first())) + encode_utf8(b));
    } else {
        assert(a + b =~= b);
        assert(encode_utf8(a) =~= Seq::<u8>::empty());
        assert(Seq::<u8>::empty() + encode_utf8(b) =~= encode_utf8(b));
    }
}

proof fn lemma_enc_push(a: Seq<char>, c: char)
    ensures
        enc_len(a.push(c)) == enc_len(a) + enc_len(seq![c]),
{
    assert(a.push(c) =~= a + seq![c]);
    lemma_enc_concat(a, seq![c]);
}

proof fn lemma_enc_one_byte(c: char)
    requires
        c == ',' || c == ' ',
    ensures
        enc_len(seq![c]) == 1,
{
    assert(seq![c].drop_first() =~= Seq::<char>::empty());
    assert(encode_utf8(Seq::<char>::empty()) =~= Seq::<u8>::empty());
    assert(seq![c][0] == c);
}

proof fn lemma_trim_start_len(s: Seq<char>)
    ensures
        enc_len(trim_start(s)) <= enc_len(s),
    decreases s.len(),
{
    if s.len() > 0 && is_white(s[0]) {
        lemma_trim_start_len(s.drop_first());
    }
}

proof fn lemma_trim_end_len(s: Seq<char>)
    ensures
        enc_len(trim_end(s)) <= enc_len(s),
    decreases s.len(),
{
    if s.len() > 0 && is_white(s.last()) {
        lemma_trim_end_len(s.drop_last());
        assert(s.drop_last().push(s.last()) =~= s);
        lemma_enc_push(s.drop_last(), s.last());
    }
}

proof fn lemma_trimmed_len(s: Seq<char>)
    ensures
        enc_len(trimmed(s)) <= enc_len(s),
{
    lemma_trim_start_len(s);
    lemma_trim_end_len(trim_start(s));
}

proof fn lemma_punctuated_len(s: Seq<char>)
    ensures
        enc_len(punctuated(s)) <= enc_len(s) + 1,
{
    let t = trimmed(s);
    lemma_trimmed_len(s);
    if !(t.len() == 0 || is_closing(t.last())) {
        lemma_enc_push(t, ',');
        lemma_enc_one_byte(',');
    }
}

proof fn lemma_pack_bound(ws: Seq<Seq<char>>, max: nat)
    requires
        max <= usize::MAX,
        forall|i: int| 0 <= i < ws.len() ==> enc_len(#[trigger] ws[i]) <= max,
    ensures
        forall|k: int| 0 <= k < pack(ws, max).0.len() ==> enc_len(#[trigger] pack(ws, max).0[k]) <= max + 1,
        enc_len(pack(ws, max).1) <= max,
    decreases ws.len(),
{
    if ws.len() > 0 {
        let rest = ws.drop_last();
        assert forall|i: int| 0 <= i < rest.len() implies enc_len(#[trigger] rest[i]) <= max by {
            assert(rest[i] == ws[i]);
        }
        lemma_pack_bound(rest, max);
        let st = pack(rest, max);
        let w = ws.last();
        assert(enc_len(w) <= max);
        assert(blen(st.1) == enc_len(st.1));
        assert(blen(w) == enc_len(w));
        if st.1.len() > 0 && blen(st.1) + 1 + blen(w) > max {
            lemma_trimmed_len(st.1);
            lemma_punctuated_len(trimmed(st.1));
            let nc = st.0.push(punctuated(trimmed(st.1)));
            assert forall|k: int| 0 <= k < nc.len() implies enc_len(#[trigger] nc[k]) <= max + 1 by {
                if k < st.0.len() {
                    assert(nc[k] == st.0[k]);
                }
            }
        } else if st.1.len() > 0 {
            let sp: Seq<char> = seq![' '];
            assert(" "@ == sp) by { reveal_strlit(" "); }
            lemma_enc_concat(st.1, sp);
            lemma_enc_concat(st.1 + sp, w);
            lemma_enc_one_byte(' ');
        }
    }
}

proof fn lemma_sentence_bound(piece: Seq<char>, max: nat)
    requires
        max <= usize::MAX,
        enc_len(piece) <= usize::MAX,
        forall|i: int| 0 <= i < words(trimmed(piece)).len() ==> enc_len(#[trigger] words(trimmed(piece))[i]) <= max,
    ensures
        forall|k: int| 0 <= k < sentence_chunks(piece, max).len()
            ==> enc_len(#[trigger] sentence_chunks(piece, max)[k]) <= max + 1,
{
    let s = trimmed(piece);
    lemma_trimmed_len(piece);
    if s.len() > 0 {
        if blen(s) <= max {
            lemma_punctuated_len(s);
            lemma_trimmed_len(s);
        } else {
            let ws = words(s);
            lemma_pack_bound(ws, max);
            let st = pack(ws, max);
            if trimmed(st.1).len() > 0 {
                lemma_trimmed_len(st.1);
                lemma_punctuated_len(trimmed(st.1));
                let nc = st.0.push(punctuated(trimmed(st.1)));
                assert forall|k: int| 0 <= k < nc.len() implies enc_len(#[trigger] nc[k]) <= max + 1 by {
                    if k < st.0.len() {
                        assert(nc[k] == st.0[k]);
                    }
                }
            }
        }
    }
}

proof fn lemma_pieces_len(s: Seq<char>)
    ensures
        split_pieces(s).len() >= 1,
        forall|k: int| 0 <= k < split_pieces(s).len() ==> enc_len(#[trigger] split_pieces(s)[k]) <= enc_len(s),
    decreases s.len(),
{
    if s.len() > 0 {
        let d = s.drop_last();
        lemma_pieces_len(d);
        assert(d.push(s.last()) =~= s);
        lemma_enc_push(d, s.last());
        let p = split_pieces(d);
        if !is_stop(s.last()) {
            lemma_enc_push(p.last(), s.last());
            let q = p.update(p.len() - 1, p.last().push(s.last()));
            assert forall|k: int| 0 <= k < q.len() implies enc_len(#[trigger] q[k]) <= enc_len(s) by {
                if k < p.len() - 1 {
                    assert(q[k] == p[k]);
                }
            }
        } else {
            let q = p.push(Seq::<char>::empty());
            assert forall|k: int| 0 <= k < q.len() implies enc_len(#[trigger] q[k]) <= enc_len(s) by {
                if k < p.len() {
                    assert(q[k] == p[k]);
                } else {
                    assert(encode_utf8(Seq::<char>::empty()) =~= Seq::<u8>::empty());
                }
            }
        }
    }
}

proof fn lemma_all_chunks_bound(ps: Seq<Seq<char>>, max: nat)
    requires
        max <= usize::MAX,
        forall|k: int| 0 <= k < ps.len() ==> enc_len(#[trigger] ps[k]) <= usize::MAX,
        forall|k: int, i: int| 0 <= k < ps.len() && 0 <= i < words(trimmed(ps[k])).len()
            ==> enc_len(#[trigger] words(trimmed(ps[k]))[i]) <= max,
    ensures
        forall|j: int| 0 <= j < all_chunks(ps, max).len() ==> enc_len(#[trigger] all_chunks(ps, max)[j]) <= max + 1,
    decreases ps.len(),
{
    if ps.len() > 0 {
        let rest = ps.drop_last();
        assert forall|k: int| 0 <= k < rest.len() implies enc_len(#[trigger] rest[k]) <= usize::MAX by {
            assert(rest[k] == ps[k]);
        }
        assert forall|k: int, i: int| 0 <= k < rest.len() && 0 <= i < words(trimmed(rest[k])).len()
            implies enc_len(#[trigger] words(trimmed(rest[k]))[i]) <= max by {
            assert(rest[k] == ps[k]);
        }
        lemma_all_chunks_bound(rest, max);
        let last = ps.last();
        assert forall|i: int| 0 <= i < words(trimmed(last)).len() implies enc_len(#[trigger] words(trimmed(last))[i]) <= max by {
            assert(last == ps[ps.len() - 1]);
        }
        lemma_sentence_bound(last, max);
        let a = all_chunks(rest, max);
        let b = sentence_chunks(last, max);
        assert forall|j: int| 0 <= j < (a + b).len() implies enc_len(#[trigger] (a + b)[j]) <= max + 1 by {
            if j < a.len() {
                assert((a + b)[j] == a[j]);
            } else {
                assert((a + b)[j] == b[j - a.len()]);
            }
        }
    }
}

/// No chunk is longer than `max` bytes plus one appended punctuation mark,
/// provided that no sentence holds a whitespace-separated word longer than
/// `max` bytes (a longer word is kept whole in a chunk of its own).
pub proof fn lemma_chunk_length_bound(text: Seq<char>, max: nat)
    requires
        max <= usize::MAX,
        enc_len(text) <= usize::MAX,
        forall|k: int, i: int| 0 <= k < split_pieces(text).len() && 0 <= i < words(trimmed(split_pieces(text)[k])).len()
            ==> enc_len(#[trigger] words(trimmed(split_pieces(text)[k]))[i]) <= max,
    ensures
        forall|j: int| 0 <= j < chunks_of(text, max).len() ==> blen(#[trigger] chunks_of(text, max)[j]) <= max + 1,
{
    lemma_pieces_len(text);
    lemma_all_chunks_bound(split_pieces(text), max);
    assert forall|j: int| 0 <= j < chunks_of(text, max).len() implies blen(#[trigger] chunks_of(text, max)[j]) <= max + 1 by {
        assert(enc_len(chunks_of(text, max)[j]) <= max + 1);
    }
}

/// The words of consecutive runs, in order.
pub open spec fn concat_runs(runs: Seq<Seq<Seq<char>>>) -> Seq<Seq<char>>
    decreases runs.len(),
{
    if runs.len() == 0 { Seq::empty() } else { concat_runs(runs.drop_last()) + runs.last() }
}

/// Greedy packing that keeps the words of each chunk: the closed runs and
/// the open one.
pub open spec fn pack_runs(ws: Seq<Seq<char>>, max: nat) -> (Seq<Seq<Seq<char>>>, Seq<Seq<char>>)
    decreases ws.len(),
{
    if ws.len() == 0 {
        (Seq::empty(), Seq::empty())
    } else {
        let st = pack_runs(ws.drop_last(), max);
        let w = ws.last();
        if st.1.len() > 0 && blen(join(st.1, " "@)) + 1 + blen(w) > max {
            (st.0.push(st.1), seq![w])
        } else {
            (st.0, st.1.push(w))
        }
    }
}

/// A run of words as one chunk: joined by single spaces, then punctuated.
pub open spec fn run_chunk(run: Seq<Seq<char>>) -> Seq<char> {
    punctuated(trimmed(join(run, " "@)))
}

/// Each run as one chunk.
pub open spec fn run_chunks(runs: Seq<Seq<Seq<char>>>) -> Seq<Seq<char>> {
    runs.map_values(|r: Seq<Seq<char>>| run_chunk(r))
}

pub open spec fn solid_word(w: Seq<char>) -> bool {
    w.len() > 0 && forall|i: int| 0 <= i < w.len() ==> !is_white(#[trigger] w[i])
}

proof fn lemma_join_nonempty(run: Seq<Seq<char>>)
    requires
        run.len() > 0,
        forall|i: int| 0 <= i < run.len() ==> solid_word(#[trigger] run[i]),
    ensures
        join(run, " "@).len() > 0,
        !is_white(join(run, " "@)[0]),
        !is_white(join(run, " "@).last()),
    decreases run.len(),
{
    assert(solid_word(run[0]));
    assert(solid_word(run[run.len() - 1]));
    let l = run.last();
    assert(!is_white(l[l.len() - 1]));
    if run.len() > 1 {
        let d = run.drop_last();
        assert forall|i: int| 0 <= i < d.len() implies solid_word(#[trigger] d[i]) by {
            assert(d[i] == run[i]);
        }
        lemma_join_nonempty(d);
        let j = join(d, " "@);
        assert((j + " "@ + l)[0] == j[0]);
        assert((j + " "@ + l).last() == l.last());
    } else {
        assert(join(run, " "@) == run[0]);
    }
}

proof fn lemma_trimmed_solid_ends(x: Seq<char>)
    requires
        x.len() > 0,
        !is_white(x[0]),
        !is_white(x.last()),
    ensures
        trimmed(x) == x,
{
}

proof fn lemma_pack_runs(ws: Seq<Seq<char>>, max: nat)
    requires
        forall|i: int| 0 <= i < ws.len() ==> solid_word(#[trigger] ws[i]),
    ensures
        pack(ws, max).0 == run_chunks(pack_runs(ws, max).0),
        pack(ws, max).1 == join(pack_runs(ws, max).1, " "@),
        concat_runs(pack_runs(ws, max).0) + pack_runs(ws, max).1 == ws,
        forall|k: int| 0 <= k < pack_runs(ws, max).0.len() ==> (#[trigger] pack_runs(ws, max).0[k]).len() > 0,
        forall|i: int| 0 <= i < pack_runs(ws, max).1.len() ==> solid_word(#[trigger] pack_runs(ws, max).1[i]),
    decreases ws.len(),
{
    if ws.len() == 0 {
        assert(concat_runs(Seq::<Seq<Seq<char>>>::empty()) + Seq::<Seq<char>>::empty() =~= ws);
        assert(run_chunks(Seq::<Seq<Seq<char>>>::empty()) =~= Seq::<Seq<char>>::empty());
        assert(join(Seq::<Seq<char>>::empty(), " "@) == Seq::<char>::empty());
    } else {
        let d = ws.drop_last();
        assert forall|i: int| 0 <= i < d.len() implies solid_word(#[trigger] d[i]) by {
            assert(d[i] == ws[i]);
        }
        lemma_pack_runs(d, max);
        let st = pack_runs(d, max);
        let ps = pack(d, max);
        let w = ws.last();
        assert(solid_word(ws[ws.len() - 1]));
        if st.1.len() > 0 {
            lemma_join_nonempty(st.1);
        } else {
            assert(join(st.1, " "@) == Seq::<char>::empty());
        }
        assert(ps.1.len() > 0 <==> st.1.len() > 0);
        if st.1.len() > 0 && blen(join(st.1, " "@)) + 1 + blen(w) > max {
            let nr = st.0.push(st.1);
            assert(run_chunks(nr) =~= run_chunks(st.0).push(run_chunk(st.1)));
            assert(join(seq![w], " "@) == w);
            assert(nr.drop_last() =~= st.0);
            assert(concat_runs(nr) + seq![w] =~= concat_runs(st.0) + st.1 + seq![w]);
            assert(d.push(w) =~= ws);
            assert(concat_runs(st.0) + st.1 + seq![w] =~= d.push(w));
            assert forall|k: int| 0 <= k < nr.len() implies (#[trigger] nr[k]).len() > 0 by {
                if k < st.0.len() {
                    assert(nr[k] == st.0[k]);
                }
            }
        } else {
            let nc = st.1.push(w);
            if st.1.len() > 0 {
                lemma_join_push(st.1, w, " "@);
            } else {
                assert(nc =~= seq![w]);
                lemma_join_push(st.1, w, " "@);
            }
            assert(concat_runs(st.0) + nc =~= (concat_runs(st.0) + st.1).push(w));
            assert(d.push(w) =~= ws);
            assert forall|i: int| 0 <= i < nc.len() implies solid_word(#[trigger] nc[i]) by {
                if i < st.1.len() {
                    assert(nc[i] == st.1[i]);
                }
            }
        }
    }
}

/// A long sentence is cut only between words: its chunks are consecutive
/// non-empty runs of its whole words, in order, each joined by single
/// spaces and punctuated.
pub proof fn lemma_packing_keeps_words(ws: Seq<Seq<char>>, max: nat)
    requires
        forall|i: int| 0 <= i < ws.len() ==> solid_word(#[trigger] ws[i]),
    ensures
        exists|runs: Seq<Seq<Seq<char>>>| {
            &&& concat_runs(runs) == ws
            &&& forall|k: int| 0 <= k < runs.len() ==> (#[trigger] runs[k]).len() > 0
            &&& packed(ws, max) == run_chunks(runs)
        },
{
    lemma_pack_runs(ws, max);
    let pr = pack_runs(ws, max);
    let st = pack(ws, max);
    let mapped = run_chunks(pr.0);
    if pr.1.len() > 0 {
        lemma_join_nonempty(pr.1);
        lemma_trimmed_solid_ends(join(pr.1, " "@));
        let runs = pr.0.push(pr.1);
        assert(runs.drop_last() =~= pr.0);
        assert(run_chunks(runs) =~= mapped.push(run_chunk(pr.1)));
        assert forall|k: int| 0 <= k < runs.len() implies (#[trigger] runs[k]).len() > 0 by {
            if k < pr.0.len() {
                assert(runs[k] == pr.0[k]);
            }
        }
        assert(packed(ws, max) == run_chunks(runs));
        assert(concat_runs(runs) == concat_runs(pr.0) + pr.1);
        assert(concat_runs(runs) == ws);
    } else {
        assert(join(pr.1, " "@) == Seq::<char>::empty());
        assert(trimmed(Seq::<char>::empty()) == Seq::<char>::empty());
        assert(concat_runs(pr.0) + pr.1 =~= concat_runs(pr.0));
        assert(packed(ws, max) == run_chunks(pr.0));
        assert(concat_runs(pr.0) == ws);
        assert(forall|k: int| 0 <= k < pr.0.len() ==> (#[trigger] pr.0[k]).len() > 0);
    }
}

/// The words that `words` finds are non-empty and hold no white space.
pub proof fn lemma_words_solid(s: Seq<char>)
    ensures
        forall|i: int| 0 <= i < words(s).len() ==> solid_word(#[trigger] words(s)[i]),
    decreases s.len(),
{
    if s.len() > 0 {
        let d = s.drop_last();
        lemma_words_solid(d);
        let w = words(d);
        let c = s.last();
        if !is_white(c) {
            if s.len() >= 2 && !is_white(s[s.len() - 2]) {
                assert(w.len() > 0) by {
                    lemma_words_end(d);
                }
                let nw = w.update(w.len() - 1, w.last().push(c));
                assert forall|i: int| 0 <= i < nw.len() implies solid_word(#[trigger] nw[i]) by {
                    if i < w.len() - 1 {
                        assert(nw[i] == w[i]);
                    } else {
                        assert(solid_word(w[w.len() - 1]));
                        let x = w.last().push(c);
                        assert forall|j: int| 0 <= j < x.len() implies !is_white(#[trigger] x[j]) by {
                            if j < x.len() - 1 {
                                assert(x[j] == w.last()[j]);
                            }
                        }
                    }
                }
            } else {
                let nw = w.push(seq![c]);
                assert forall|i: int| 0 <= i < nw.len() implies solid_word(#[trigger] nw[i]) by {
                    if i < w.len() {
                        assert(nw[i] == w[i]);
                    } else {
                        assert(seq![c][0] == c);
                    }
                }
            }
        }
    }
}

proof fn lemma_words_end(s: Seq<char>)
    requires
        s.len() > 0,
        !is_white(s.last()),
    ensures
        words(s).len() > 0,
    decreases s.len(),
{
    if s.len() >= 2 && !is_white(s[s.len() - 2]) {
        lemma_words_end(s.drop_last());
    }
}

/// A sentence is never cut inside a word: one that fits is a single chunk,
/// and one that does not is cut into consecutive non-empty runs of its
/// whole words, in order.
pub proof fn lemma_sentence_keeps_words(piece: Seq<char>, max: nat)
    ensures
        trimmed(piece).len() > 0 && blen(trimmed(piece)) <= max
            ==> sentence_chunks(piece, max) == seq![punctuated(trimmed(piece))],
        trimmed(piece).len() > 0 && blen(trimmed(piece)) > max ==> exists|runs: Seq<Seq<Seq<char>>>| {
            &&& concat_runs(runs) == words(trimmed(piece))
            &&& forall|k: int| 0 <= k < runs.len() ==> (#[trigger] runs[k]).len() > 0
            &&& sentence_chunks(piece, max) == run_chunks(runs)
        },
{
    lemma_words_solid(trimmed(piece));
    lemma_packing_keeps_words(words(trimmed(piece)), max);
}

/// `r` stands in `c` from position `a`.
pub open spec fn occurs_at(c: Seq<Seq<char>>, r: Seq<Seq<char>>, a: int) -> bool {
    0 <= a && a + r.len() <= c.len() && c.subrange(a, a + r.len()) == r
}

proof fn lemma_run_occurs(runs: Seq<Seq<Seq<char>>>, k: int)
    requires
        0 <= k < runs.len(),
    ensures
        exists|a: int| occurs_at(concat_runs(runs), runs[k], a),
    decreases runs.len(),
{
    let d = runs.drop_last();
    let cd = concat_runs(d);
    let c = concat_runs(runs);
    assert(c == cd + runs.last());
    if k < d.len() {
        lemma_run_occurs(d, k);
        assert(d[k] == runs[k]);
        let a = choose|a: int| occurs_at(cd, d[k], a);
        assert(c.subrange(a, a + runs[k].len()) =~= cd.subrange(a, a + d[k].len()));
        assert(occurs_at(c, runs[k], a));
    } else {
        let a = cd.len() as int;
        assert(c.subrange(a, a + runs[k].len()) =~= runs.last());
        assert(occurs_at(c, runs[k], a));
    }
}

/// Where a chunk comes from: the whole of sentence `p`, or a non-empty run
/// of consecutive whole words of it.
pub open spec fn chunk_of_sentence(c: Seq<char>, p: Seq<char>) -> bool {
    let s = trimmed(p);
    let ws = words(s);
    s.len() > 0 && (c == punctuated(s) || exists|a: int, b: int|
        0 <= a < b <= ws.len() && c == #[trigger] run_chunk(ws.subrange(a, b)))
}

proof fn lemma_sentence_chunk_origin(p: Seq<char>, max: nat)
    ensures
        forall|j: int| 0 <= j < sentence_chunks(p, max).len()
            ==> chunk_of_sentence(#[trigger] sentence_chunks(p, max)[j], p),
{
    let s = trimmed(p);
    lemma_sentence_keeps_words(p, max);
    if s.len() > 0 && blen(s) > max {
        let ws = words(s);
        let runs = choose|runs: Seq<Seq<Seq<char>>>| {
            &&& concat_runs(runs) == ws
            &&& forall|k: int| 0 <= k < runs.len() ==> (#[trigger] runs[k]).len() > 0
            &&& sentence_chunks(p, max) == run_chunks(runs)
        };
        assert forall|j: int| 0 <= j < sentence_chunks(p, max).len()
            implies chunk_of_sentence(#[trigger] sentence_chunks(p, max)[j], p) by {
            assert(sentence_chunks(p, max)[j] == run_chunk(runs[j]));
            assert(runs[j].len() > 0);
            lemma_run_occurs(runs, j);
            let a = choose|a: int| occurs_at(ws, runs[j], a);
            let b = a + runs[j].len();
            assert(run_chunk(ws.subrange(a, b)) == sentence_chunks(p, max)[j]);
        }
    }
}

proof fn lemma_all_chunks_origin(ps: Seq<Seq<char>>, max: nat)
    ensures
        forall|j: int| 0 <= j < all_chunks(ps, max).len() ==> exists|k: int|
            0 <= k < ps.len() && chunk_of_sentence(#[trigger] all_chunks(ps, max)[j], ps[k]),
    decreases ps.len(),
{
    if ps.len() > 0 {
        let d = ps.drop_last();
        lemma_all_chunks_origin(d, max);
        lemma_sentence_chunk_origin(ps.last(), max);
        let a = all_chunks(d, max);
        let b = sentence_chunks(ps.last(), max);
        assert forall|j: int| 0 <= j < (a + b).len() implies exists|k: int|
            0 <= k < ps.len() && chunk_of_sentence(#[trigger] (a + b)[j], ps[k]) by {
            if j < a.len() {
                assert((a + b)[j] == a[j]);
                let k = choose|k: int| 0 <= k < d.len() && chunk_of_sentence(#[trigger] a[j], d[k]);
                assert(d[k] == ps[k]);
            } else {
                assert((a + b)[j] == b[j - a.len()]);
                assert(ps.last() == ps[ps.len() - 1]);
            }
        }
    }
}

/// Chunking never cuts a word: every chunk of `text` is, before its closing
/// punctuation, either a whole sentence or a run of consecutive whole words
/// of one sentence, joined by single spaces.
pub proof fn lemma_chunks_keep_words(text: Seq<char>, max: nat)
    ensures
        forall|j: int| 0 <= j < chunks_of(text, max).len() ==> exists|k: int|
            0 <= k < split_pieces(text).len()
            && chunk_of_sentence(#[trigger] chunks_of(text, max)[j], split_pieces(text)[k]),
{
    lemma_all_chunks_origin(split_pieces(text), max);
}

} // verus!
