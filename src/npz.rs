//! Reader for the numeric-array container: one array per member, a text
//! header (dtype, order, shape) and row-major 32-bit float data. Values are
//! returned as their IEEE-754 bit patterns.

use vstd::prelude::*;
use vstd::utf8::{decode_utf8, encode_utf8, encode_utf8_decode_utf8, encode_utf8_valid_utf8, valid_utf8};
use crate::digits::{parse_usize, parse_usize_spec};
use crate::text::{
    chars_of, split_chars, split_on, sub_string, slice_chars, string_of, trim, trim_bounds, trim_end,
    trimmed, trim_start, trim_start_index,
};

verus! {

/// Why a container could not be read.
#[derive(Clone, Copy, PartialEq, Eq, Debug, Structural)]
pub enum FormatError {
    /// The magic marker is absent or the buffer is shorter than a header.
    BadMagic,
    /// A version-2 buffer ends inside the header-length field.
    HeaderTooShort,
    /// The version is neither 1 nor 2.
    UnsupportedVersion,
    /// The buffer ends inside the header.
    TruncatedHeader,
    /// The header is not valid UTF-8 text.
    HeaderNotText,
    /// The header lacks `descr` or `shape`.
    MissingField,
    /// The element type is not a 32-bit float.
    UnsupportedDtype,
    /// The array is stored column-major.
    FortranOrder,
    /// A dimension of the shape is not a non-negative integer.
    BadShape,
    /// The data section is shorter than the shape asks for.
    DataTooShort,
    /// The archive could not be read.
    BadArchive,
}

/// Where `pat` first occurs in `s` at or after `i`, or -1.
pub open spec fn find_from(s: Seq<char>, pat: Seq<char>, i: int) -> int
    decreases s.len() + 1 - i,
{
    if i < 0 || i + pat.len() > s.len() {
        -1
    } else if s.subrange(i, i + pat.len()) == pat {
        i
    } else {
        find_from(s, pat, i + 1)
    }
}

/// Where `pat` first occurs in `s`, or -1.
pub open spec fn find_sub(s: Seq<char>, pat: Seq<char>) -> int {
    find_from(s, pat, 0)
}

fn find_str(s: &Vec<char>, pat: &Vec<char>) -> (r: Option<usize>)
    ensures
        find_sub(s@, pat@) == match r { Some(i) => i as int, None => -1 },
        r matches Some(i) ==> i + pat.len() <= s.len(),
{
    if pat.len() > s.len() {
        return None;
    }
    let last = s.len() - pat.len();
    let mut i: usize = 0;
    while i <= last
        invariant
            last == s.len() - pat.len(),
            i <= last + 1,
            find_sub(s@, pat@) == find_from(s@, pat@, i as int),
        decreases last + 1 - i,
    {
        let mut j: usize = 0;
        let mut same = true;
        while j < pat.len()
            invariant
                i <= last,
                last == s.len() - pat.len(),
                j <= pat.len(),
                same == (s@.subrange(i as int, i + j) =~= pat@.take(j as int)),
            decreases pat.len() - j,
        {
            let ghost before = s@.subrange(i as int, i + j);
            assert(s@.subrange(i as int, i + j + 1) =~= before.push(s@[i + j]));
            assert(pat@.take(j + 1) =~= pat@.take(j as int).push(pat@[j as int]));
            proof {
                let a = before.push(s@[i + j]);
                let b = pat@.take(j as int).push(pat@[j as int]);
                if a =~= b {
                    assert(a.drop_last() =~= before);
                    assert(b.drop_last() =~= pat@.take(j as int));
                    assert(a.last() == b.last());
                }
            }
            if s[i + j] != pat[j] {
                same = false;
            }
            j += 1;
        }
        assert(pat@.take(j as int) =~= pat@);
        if same {
            return Some(i);
        }
        i += 1;
    }
    None
}

/// The value of `field` in a dictionary-literal header: a parenthesised
/// tuple kept with its parentheses, a quoted string without its quotes, or
/// a bare word up to the next `,` or `}`, trimmed.
pub open spec fn header_field(h: Seq<char>, field: Seq<char>) -> Option<Seq<char>> {
    let ksq = seq!['\''] + field + seq!['\'', ':'];
    let kdq = seq!['"'] + field + seq!['"', ':'];
    let p = find_sub(h, ksq);
    let q = find_sub(h, kdq);
    if p < 0 && q < 0 {
        None
    } else {
        let start = if p >= 0 { p + ksq.len() } else { q + kdq.len() };
        let rest = trim_start(h.skip(start));
        if rest.len() > 0 && rest[0] == '(' {
            let e = find_sub(rest, seq![')']);
            if e < 0 { None } else { Some(rest.take(e + 1)) }
        } else if rest.len() > 0 && (rest[0] == '\'' || rest[0] == '"') {
            let inner = rest.drop_first();
            let e = find_sub(inner, seq![rest[0]]);
            if e < 0 { None } else { Some(inner.take(e)) }
        } else {
            let c = find_sub(rest, seq![',']);
            let b = find_sub(rest, seq!['}']);
            let e = if c < 0 { b } else if b < 0 { c } else if c < b { c } else { b };
            Some(trimmed(if e < 0 { rest } else { rest.take(e) }))
        }
    }
}

fn key_of(field: &Vec<char>, q: char) -> (r: Vec<char>)
    ensures
        r@ == seq![q] + field@ + seq![q, ':'],
{
    let mut k: Vec<char> = vec![q];
    let mut f = slice_chars(field, 0, field.len());
    k.append(&mut f);
    k.push(q);
    k.push(':');
    assert(k@ =~= seq![q] + field@ + seq![q, ':']);
    k
}

/// Looks up `field` in the header text `header`.
pub fn extract_header_field(header: &str, field: &str) -> (r: Option<String>)
    ensures
        match r {
            Some(v) => header_field(header@, field@) == Some(v@),
            None => header_field(header@, field@) is None,
        },
{
    let h = chars_of(header);
    let f = chars_of(field);
    let ksq = key_of(&f, '\'');
    let kdq = key_of(&f, '"');
    let start = match find_str(&h, &ksq) {
        Some(p) => p + ksq.len(),
        None => match find_str(&h, &kdq) {
            Some(q) => q + kdq.len(),
            None => return None,
        },
    };
    let hc = slice_chars(&h, start, h.len());
    assert(hc@ =~= h@.skip(start as int));
    let a = trim_start_index(&hc);
    let rest = slice_chars(&hc, a, hc.len());
    assert(rest@ =~= trim_start(h@.skip(start as int)));
    if rest.len() > 0 && rest[0] == '(' {
        let close: Vec<char> = vec![')'];
        assert(close@ =~= seq![')']);
        match find_str(&rest, &close) {
            Some(e) => {
                let v = sub_string(&rest, 0, e + 1);
                assert(v@ =~= rest@.take(e + 1));
                Some(v)
            },
            None => None,
        }
    } else if rest.len() > 0 && (rest[0] == '\'' || rest[0] == '"') {
        let inner = slice_chars(&rest, 1, rest.len());
        assert(inner@ =~= rest@.drop_first());
        let quote: Vec<char> = vec![rest[0]];
        assert(quote@ =~= seq![rest@[0]]);
        match find_str(&inner, &quote) {
            Some(e) => {
                let v = sub_string(&inner, 0, e);
                assert(v@ =~= inner@.take(e as int));
                Some(v)
            },
            None => None,
        }
    } else {
        let comma: Vec<char> = vec![','];
        let brace: Vec<char> = vec!['}'];
        assert(comma@ =~= seq![',']);
        assert(brace@ =~= seq!['}']);
        let c = find_str(&rest, &comma);
        let b = find_str(&rest, &brace);
        let e: Option<usize> = match c {
            None => b,
            Some(ci) => match b {
                None => Some(ci),
                Some(bi) => Some(if ci < bi { ci } else { bi }),
            },
        };
        let piece = match e {
            Some(k) => {
                let v = sub_string(&rest, 0, k);
                assert(v@ =~= rest@.take(k as int));
                v
            },
            None => string_of(rest.as_slice()),
        };
        Some(trim(piece.as_str()))
    }
}

/// `s` without leading `c`s.
pub open spec fn strip_lead(s: Seq<char>, c: char) -> Seq<char>
    decreases s.len(),
{
    if s.len() > 0 && s[0] == c { strip_lead(s.drop_first(), c) } else { s }
}

/// `s` without trailing `c`s.
pub open spec fn strip_trail(s: Seq<char>, c: char) -> Seq<char>
    decreases s.len(),
{
    if s.len() > 0 && s.last() == c { strip_trail(s.drop_last(), c) } else { s }
}

/// The trimmed, non-empty pieces of a comma-separated list.
pub open spec fn list_tokens(ps: Seq<Seq<char>>) -> Seq<Seq<char>>
    decreases ps.len(),
{
    if ps.len() == 0 {
        Seq::empty()
    } else if trimmed(ps.last()).len() == 0 {
        list_tokens(ps.drop_last())
    } else {
        list_tokens(ps.drop_last()).push(trimmed(ps.last()))
    }
}

/// Each token read as a `usize`; `None` when one does not read.
pub open spec fn parse_all(ts: Seq<Seq<char>>) -> Option<Seq<usize>>
    decreases ts.len(),
{
    if ts.len() == 0 {
        Some(Seq::empty())
    } else {
        match (parse_all(ts.drop_last()), parse_usize_spec(ts.last())) {
            (Some(v), Some(x)) => Some(v.push(x as usize)),
            _ => None,
        }
    }
}

/// The dimensions of a shape tuple such as "(256, 512, )", "(100,)" or "()".
pub open spec fn shape_of(s: Seq<char>) -> Option<Seq<usize>> {
    let inner = strip_trail(strip_lead(s, '('), ')');
    if trimmed(inner).len() == 0 {
        Some(Seq::empty())
    } else {
        parse_all(list_tokens(split_on(inner, ',')))
    }
}

proof fn lemma_strip_lead(s: Seq<char>, c: char, a: int)
    requires
        0 <= a <= s.len(),
        forall|j: int| 0 <= j < a ==> s[j] == c,
        a < s.len() ==> s[a] != c,
    ensures
        strip_lead(s, c) == s.skip(a),
    decreases s.len(),
{
    if a > 0 {
        lemma_strip_lead(s.drop_first(), c, a - 1);
        assert(s.drop_first().skip(a - 1) =~= s.skip(a));
    } else {
        assert(s.skip(0) =~= s);
    }
}

proof fn lemma_strip_trail(s: Seq<char>, c: char, b: int)
    requires
        0 <= b <= s.len(),
        forall|j: int| b <= j < s.len() ==> s[j] == c,
        b > 0 ==> s[b - 1] != c,
    ensures
        strip_trail(s, c) == s.take(b),
    decreases s.len(),
{
    if b < s.len() {
        lemma_strip_trail(s.drop_last(), c, b);
        assert(s.drop_last().take(b) =~= s.take(b));
    } else {
        assert(s.take(b) =~= s);
    }
}

/// `cs` without leading and trailing `c`s.
fn strip_both(cs: &Vec<char>, lead: char, trail: char) -> (r: Vec<char>)
    ensures
        r@ == strip_trail(strip_lead(cs@, lead), trail),
{
    let mut a: usize = 0;
    while a < cs.len() && cs[a] == lead
        invariant
            a <= cs.len(),
            forall|j: int| 0 <= j < a ==> cs@[j] == lead,
        decreases cs.len() - a,
    {
        a += 1;
    }
    proof { lemma_strip_lead(cs@, lead, a as int); }
    let t = slice_chars(cs, a, cs.len());
    let mut b: usize = t.len();
    while b > 0 && t[b - 1] == trail
        invariant
            b <= t.len(),
            forall|j: int| b <= j < t.len() ==> t@[j] == trail,
        decreases b,
    {
        b -= 1;
    }
    proof { lemma_strip_trail(t@, trail, b as int); }
    slice_chars(&t, 0, b)
}

/// Reads a shape tuple such as "(256, 512, )", "(100,)" or "()".
pub fn parse_shape(s: &str) -> (r: Result<Vec<usize>, FormatError>)
    ensures
        match r {
            Ok(v) => shape_of(s@) == Some(v@),
            Err(e) => shape_of(s@) is None && e == FormatError::BadShape,
        },
{
    let cs = chars_of(s);
    let inner = strip_both(&cs, '(', ')');
    let (a, b) = trim_bounds(&inner);
    if a == b {
        return Ok(Vec::new());
    }
    let pieces = split_chars(&inner, ',');
    let ghost pv = pieces@.map_values(|v: Vec<char>| v@);
    let mut dims: Vec<usize> = Vec::new();
    let mut i: usize = 0;
    while i < pieces.len()
        invariant
            i <= pieces.len(),
            pv == pieces@.map_values(|v: Vec<char>| v@),
            pv == split_on(inner@, ','),
            trimmed(inner@).len() != 0,
            inner@ == strip_trail(strip_lead(s@, '('), ')'),
            parse_all(list_tokens(pv.take(i as int))) == Some(dims@),
        decreases pieces.len() - i,
    {
        assert(pv.take(i + 1).drop_last() =~= pv.take(i as int));
        let (pa, pb) = trim_bounds(&pieces[i]);
        if pa < pb {
            let tok = slice_chars(&pieces[i], pa, pb);
            let ghost ts = list_tokens(pv.take(i + 1));
            assert(ts.drop_last() == list_tokens(pv.take(i as int)));
            match parse_usize(&tok) {
                Some(d) => {
                    proof {
                        assert(tok@ == trimmed(pv[i as int]));
                        assert(pv.take(i + 1).last() == pv[i as int]);
                        assert(ts.drop_last() =~= list_tokens(pv.take(i as int)));
                    }
                    dims.push(d);
                },
                None => {
                    proof {
                        assert(tok@ == trimmed(pv[i as int]));
                        assert(pv.take(i + 1).last() == pv[i as int]);
                        assert(ts == list_tokens(pv.take(i as int)).push(tok@));
                        assert(ts.drop_last() =~= list_tokens(pv.take(i as int)));
                        assert(parse_all(ts) is None);
                        lemma_parse_all_none(pv, i + 1);
                        assert(trimmed(inner@).len() != 0);
                    }
                    return Err(FormatError::BadShape);
                },
            }
        }
        i += 1;
    }
    assert(pv.take(i as int) =~= pv);
    assert(trimmed(inner@).len() != 0);
    Ok(dims)
}

proof fn lemma_parse_all_none(pv: Seq<Seq<char>>, k: int)
    requires
        0 < k <= pv.len(),
        parse_all(list_tokens(pv.take(k))) is None,
    ensures
        parse_all(list_tokens(pv)) is None,
    decreases pv.len() - k,
{
    if k < pv.len() {
        assert(pv.take(k + 1).drop_last() =~= pv.take(k));
        let ts = list_tokens(pv.take(k));
        if trimmed(pv.take(k + 1).last()).len() != 0 {
            let x = trimmed(pv.take(k + 1).last());
            assert(ts.push(x).drop_last() =~= ts);
        }
        lemma_parse_all_none(pv, k + 1);
    } else {
        assert(pv.take(k) =~= pv);
    }
}

/// The six-byte magic marker.
pub open spec fn magic() -> Seq<u8> {
    seq![0x93u8, 0x4eu8, 0x55u8, 0x4du8, 0x50u8, 0x59u8]
}

/// Start and end of the text header, or why they cannot be found.
pub open spec fn header_span(d: Seq<u8>) -> Result<(int, int), FormatError> {
    if d.len() < 10 || d.take(6) != magic() {
        Err(FormatError::BadMagic)
    } else if d[6] == 1 {
        let e = 10 + d[8] + 256 * d[9];
        if e > d.len() { Err(FormatError::TruncatedHeader) } else { Ok((10, e)) }
    } else if d[6] == 2 {
        if d.len() < 12 {
            Err(FormatError::HeaderTooShort)
        } else {
            let e = 12 + d[8] + 256 * d[9] + 65536 * d[10] + 16777216 * d[11];
            if e > d.len() { Err(FormatError::TruncatedHeader) } else { Ok((12, e)) }
        }
    } else {
        Err(FormatError::UnsupportedVersion)
    }
}

/// The dtype string: trimmed, then stripped of single and double quotes.
pub open spec fn dtype_of(descr: Seq<char>) -> Seq<char> {
    let t = trimmed(descr);
    let a = strip_trail(strip_lead(t, '\''), '\'');
    strip_trail(strip_lead(a, '"'), '"')
}

pub open spec fn is_f32_dtype(t: Seq<char>) -> bool {
    t == "<f4"@ || t == "=f4"@ || t == "|f4"@ || t == ">f4"@
}

/// Whether `s` is "true" in any letter case.
pub open spec fn is_true_word(s: Seq<char>) -> bool {
    s.len() == 4 && (s[0] == 't' || s[0] == 'T') && (s[1] == 'r' || s[1] == 'R')
        && (s[2] == 'u' || s[2] == 'U') && (s[3] == 'e' || s[3] == 'E')
}

/// Number of elements of an array of shape `shape`.
pub open spec fn elements(shape: Seq<usize>) -> nat
    decreases shape.len(),
{
    if shape.len() == 0 { 1 } else { elements(shape.drop_last()) * (shape.last() as nat) }
}

/// The 32-bit word stored at `off`, in the given byte order.
pub open spec fn word_at(d: Seq<u8>, off: int, big: bool) -> u32 {
    if big {
        (d[off] * 16777216 + d[off + 1] * 65536 + d[off + 2] * 256 + d[off + 3]) as u32
    } else {
        (d[off] + d[off + 1] * 256 + d[off + 2] * 65536 + d[off + 3] * 16777216) as u32
    }
}

/// What a container member holds: its shape and the bit patterns of its
/// `elements(shape)` floats, or why it cannot be read.
pub open spec fn npy_contents(d: Seq<u8>) -> Result<(Seq<usize>, Seq<u32>), FormatError> {
    match header_span(d) {
        Err(e) => Err(e),
        Ok(span) => {
            let hb = d.subrange(span.0, span.1);
            if !valid_utf8(hb) {
                Err(FormatError::HeaderNotText)
            } else {
                let h = decode_utf8(hb);
                match header_field(h, "descr"@) {
                    None => Err(FormatError::MissingField),
                    Some(descr) => {
                        let t = dtype_of(descr);
                        let fortran = match header_field(h, "fortran_order"@) {
                            Some(v) => trimmed(v),
                            None => "False"@,
                        };
                        if !is_f32_dtype(t) {
                            Err(FormatError::UnsupportedDtype)
                        } else if is_true_word(fortran) {
                            Err(FormatError::FortranOrder)
                        } else {
                            match header_field(h, "shape"@) {
                                None => Err(FormatError::MissingField),
                                Some(ss) => match shape_of(trimmed(ss)) {
                                    None => Err(FormatError::BadShape),
                                    Some(shape) => {
                                        let n = elements(shape);
                                        if d.len() - span.1 < n * 4 {
                                            Err(FormatError::DataTooShort)
                                        } else {
                                            Ok((shape, Seq::new(n, |k: int| word_at(d, span.1 + 4 * k, t[0] == '>'))))
                                        }
                                    },
                                },
                            }
                        }
                    },
                }
            }
        },
    }
}

/// Relies on `std::str::from_utf8`: it succeeds exactly on well-formed UTF-8
/// (`valid_utf8`: no overlong forms, no surrogates, nothing above U+10FFFF),
/// and the text is what the bytes encode.
#[verifier::external_body]
fn utf8_text(b: &[u8]) -> (r: Option<String>)
    ensures
        match r {
            Some(s) => valid_utf8(b@) && s@ == decode_utf8(b@),
            None => !valid_utf8(b@),
        },
{
    std::str::from_utf8(b).ok().map(|s| s.to_string())
}

fn copy_bytes(d: &[u8], lo: usize, hi: usize) -> (r: Vec<u8>)
    requires
        lo <= hi <= d.len(),
    ensures
        r@ == d@.subrange(lo as int, hi as int),
{
    let mut out: Vec<u8> = Vec::new();
    let mut i: usize = lo;
    while i < hi
        invariant
            lo <= i <= hi <= d.len(),
            out@ == d@.subrange(lo as int, i as int),
        decreases hi - i,
    {
        out.push(d[i]);
        assert(out@ =~= d@.subrange(lo as int, i + 1));
        i += 1;
    }
    out
}

fn header_span_exec(data: &[u8]) -> (r: Result<(usize, usize), FormatError>)
    ensures
        match r {
            Ok(p) => header_span(data@) == Ok::<(int, int), FormatError>((p.0 as int, p.1 as int)),
            Err(e) => header_span(data@) == Err::<(int, int), FormatError>(e),
        },
{
    if data.len() < 10 || data[0] != 0x93 || data[1] != 0x4e || data[2] != 0x55 || data[3] != 0x4d
        || data[4] != 0x50 || data[5] != 0x59 {
        proof {
            if data.len() >= 10 {
                assert(data@.take(6)[0] == data@[0] && data@.take(6)[1] == data@[1] && data@.take(6)[2] == data@[2]);
                assert(data@.take(6)[3] == data@[3] && data@.take(6)[4] == data@[4] && data@.take(6)[5] == data@[5]);
            }
        }
        return Err(FormatError::BadMagic);
    }
    assert(data@.take(6) =~= magic());
    if data[6] == 1 {
        let e: u64 = 10 + data[8] as u64 + 256 * data[9] as u64;
        if e > data.len() as u64 {
            return Err(FormatError::TruncatedHeader);
        }
        Ok((10, e as usize))
    } else if data[6] == 2 {
        if data.len() < 12 {
            return Err(FormatError::HeaderTooShort);
        }
        let e: u64 = 12 + data[8] as u64 + 256 * data[9] as u64 + 65536 * data[10] as u64
            + 16777216 * data[11] as u64;
        if e > data.len() as u64 {
            return Err(FormatError::TruncatedHeader);
        }
        Ok((12, e as usize))
    } else {
        Err(FormatError::UnsupportedVersion)
    }
}

proof fn lemma_elements_prefix(shape: Seq<usize>, k: int)
    requires
        0 <= k <= shape.len(),
        forall|j: int| 0 <= j < shape.len() ==> shape[j] >= 1,
    ensures
        elements(shape.take(k)) <= elements(shape),
    decreases shape.len(),
{
    if k < shape.len() {
        assert(shape.drop_last().take(k) =~= shape.take(k));
        lemma_elements_prefix(shape.drop_last(), k);
        let p = elements(shape.drop_last());
        assert(p <= p * shape.last()) by (nonlinear_arith)
            requires shape.last() >= 1;
    } else {
        assert(shape.take(k) =~= shape);
    }
}

proof fn lemma_elements_zero(shape: Seq<usize>, j: int)
    requires
        0 <= j < shape.len(),
        shape[j] == 0,
    ensures
        elements(shape) == 0,
    decreases shape.len(),
{
    if j < shape.len() - 1 {
        assert(shape.drop_last()[j] == shape[j]);
        lemma_elements_zero(shape.drop_last(), j);
        let l = shape.last() as nat;
        assert(0 * l == 0) by (nonlinear_arith);
    } else {
        assert(shape.last() == 0);
        let p = elements(shape.drop_last());
        assert(p * 0 == 0) by (nonlinear_arith);
    }
}

/// The element count of `shape` when it is at most `limit`.
fn elements_up_to(shape: &Vec<usize>, limit: usize) -> (r: Option<usize>)
    ensures
        match r {
            Some(n) => n == elements(shape@) && n <= limit,
            None => elements(shape@) > limit,
        },
{
    let mut i: usize = 0;
    while i < shape.len()
        invariant
            i <= shape.len(),
            forall|j: int| 0 <= j < i ==> shape@[j] >= 1,
        decreases shape.len() - i,
    {
        if shape[i] == 0 {
            proof { lemma_elements_zero(shape@, i as int); }
            return Some(0);
        }
        i += 1;
    }
    let mut n: usize = 1;
    let mut k: usize = 0;
    assert(shape@.take(0) =~= Seq::<usize>::empty());
    while k < shape.len()
        invariant
            k <= shape.len(),
            forall|j: int| 0 <= j < shape.len() ==> shape@[j] >= 1,
            n == elements(shape@.take(k as int)),
            n <= limit || k == 0,
        decreases shape.len() - k,
    {
        assert(shape@.take(k + 1).drop_last() =~= shape@.take(k as int));
        let d = shape[k];
        if n > limit / d {
            proof {
                assert(n * d > limit) by (nonlinear_arith)
                    requires n > limit / d, d >= 1;
                lemma_elements_prefix(shape@, k + 1);
            }
            return None;
        }
        assert(n * d <= limit) by (nonlinear_arith)
            requires n <= limit / d, d >= 1;
        n = n * d;
        k += 1;
    }
    assert(shape@.take(k as int) =~= shape@);
    if n > limit {
        return None;
    }
    Some(n)
}

fn word_exec(d: &[u8], off: usize, big: bool) -> (r: u32)
    requires
        off + 4 <= d.len(),
    ensures
        r == word_at(d@, off as int, big),
{
    let b0 = d[off] as u32;
    let b1 = d[off + 1] as u32;
    let b2 = d[off + 2] as u32;
    let b3 = d[off + 3] as u32;
    if big {
        b0 * 16777216 + b1 * 65536 + b2 * 256 + b3
    } else {
        b0 + b1 * 256 + b2 * 65536 + b3 * 16777216
    }
}

fn field(header: &str, name: &str) -> (r: Option<String>)
    ensures
        match r {
            Some(v) => header_field(header@, name@) == Some(v@),
            None => header_field(header@, name@) is None,
        },
{
    extract_header_field(header, name)
}

/// Reads one container member: its shape and the bit patterns of its
/// 32-bit floats, converted from the declared byte order.
pub fn parse_npy(data: &[u8]) -> (r: Result<(Vec<usize>, Vec<u32>), FormatError>)
    ensures
        match r {
            Ok(v) => npy_contents(data@) == Ok::<(Seq<usize>, Seq<u32>), FormatError>((v.0@, v.1@)),
            Err(e) => npy_contents(data@) == Err::<(Seq<usize>, Seq<u32>), FormatError>(e),
        },
{
    let (start, end) = match header_span_exec(data) {
        Ok(p) => p,
        Err(e) => return Err(e),
    };
    let hb = copy_bytes(data, start, end);
    let header = match utf8_text(hb.as_slice()) {
        Some(h) => h,
        None => return Err(FormatError::HeaderNotText),
    };
    let descr = match field(header.as_str(), "descr") {
        Some(v) => v,
        None => return Err(FormatError::MissingField),
    };
    let tc = chars_of(trim(descr.as_str()).as_str());
    let t1 = strip_both(&tc, '\'', '\'');
    let t = strip_both(&t1, '"', '"');
    let fortran = match field(header.as_str(), "fortran_order") {
        Some(v) => chars_of(trim(v.as_str()).as_str()),
        None => chars_of("False"),
    };
    let ts = string_of(t.as_slice());
    let tstr = ts.as_str();
    let f32_ok = crate::text::str_eq(tstr, "<f4") || crate::text::str_eq(tstr, "=f4")
        || crate::text::str_eq(tstr, "|f4") || crate::text::str_eq(tstr, ">f4");
    if !f32_ok {
        return Err(FormatError::UnsupportedDtype);
    }
    proof { reveal_strlit("<f4"); reveal_strlit("=f4"); reveal_strlit("|f4"); reveal_strlit(">f4"); }
    let big = t[0] == '>';
    if fortran.len() == 4 && (fortran[0] == 't' || fortran[0] == 'T') && (fortran[1] == 'r' || fortran[1] == 'R')
        && (fortran[2] == 'u' || fortran[2] == 'U') && (fortran[3] == 'e' || fortran[3] == 'E') {
        return Err(FormatError::FortranOrder);
    }
    let shape_text = match field(header.as_str(), "shape") {
        Some(v) => v,
        None => return Err(FormatError::MissingField),
    };
    let st = trim(shape_text.as_str());
    let shape = match parse_shape(st.as_str()) {
        Ok(s) => s,
        Err(e) => return Err(e),
    };
    let avail = data.len() - end;
    let n = match elements_up_to(&shape, avail / 4) {
        Some(n) => n,
        None => return Err(FormatError::DataTooShort),
    };
    let mut values: Vec<u32> = Vec::new();
    let mut k: usize = 0;
    while k < n
        invariant
            k <= n,
            n <= avail / 4,
            avail == data.len() - end,
            end <= data.len(),
            values@ == Seq::new(k as nat, |j: int| word_at(data@, end + 4 * j, big)),
        decreases n - k,
    {
        values.push(word_exec(data, end + 4 * k, big));
        assert(values@ =~= Seq::new((k + 1) as nat, |j: int| word_at(data@, end + 4 * j, big)));
        k += 1;
    }
    proof {
        assert(hb@ == data@.subrange(start as int, end as int));
    }
    Ok((shape, values))
}

/// A loaded array: its shape and the bit patterns of its floats in
/// row-major order.
pub struct NpyArray {
    pub shape: Vec<usize>,
    pub data: Vec<u32>,
}

/// Rows of an array of shape `shape`: its first dimension, or 0.
pub open spec fn rows_of(shape: Seq<usize>) -> nat {
    if shape.len() > 0 { shape[0] as nat } else { 0 }
}

/// Columns of an array of shape `shape`: its second dimension, or 1.
pub open spec fn cols_of(shape: Seq<usize>) -> nat {
    if shape.len() > 1 { shape[1] as nat } else { 1 }
}

impl NpyArray {
    /// Number of rows (the first dimension).
    pub fn nrows(&self) -> (r: usize)
        ensures
            r == rows_of(self.shape@),
    {
        if self.shape.len() > 0 { self.shape[0] } else { 0 }
    }

    /// Number of columns (the second dimension).
    pub fn ncols(&self) -> (r: usize)
        ensures
            r == cols_of(self.shape@),
    {
        if self.shape.len() > 1 { self.shape[1] } else { 1 }
    }

    /// Row `i`: the `ncols` values from `i * ncols`.
    pub fn row(&self, i: usize) -> (r: Vec<u32>)
        requires
            (i + 1) * cols_of(self.shape@) <= self.data.len(),
        ensures
            r@ == self.data@.subrange(i * cols_of(self.shape@), (i + 1) * cols_of(self.shape@)),
    {
        let c = self.ncols();
        assert(i * c <= (i + 1) * c) by (nonlinear_arith);
        assert((i + 1) * c == i * c + c) by (nonlinear_arith);
        let lo = i * c;
        let hi = lo + c;
        let mut out: Vec<u32> = Vec::new();
        let mut k: usize = lo;
        while k < hi
            invariant
                lo <= k <= hi <= self.data.len(),
                out@ == self.data@.subrange(lo as int, k as int),
            decreases hi - k,
        {
            out.push(self.data[k]);
            assert(out@ =~= self.data@.subrange(lo as int, k + 1));
            k += 1;
        }
        out
    }
}

/// What the zip crate reads from an archive: each member's stored name and
/// bytes, in archive order.
pub uninterp spec fn zip_entries(archive: Seq<u8>) -> Option<Seq<(Seq<char>, Seq<u8>)>>;

pub open spec fn entries_view(v: Seq<(String, Vec<u8>)>) -> Seq<(Seq<char>, Seq<u8>)> {
    v.map_values(|e: (String, Vec<u8>)| (e.0@, e.1@))
}

/// Relies on `zip::ZipArchive::new`, `ZipArchive::by_index`, `ZipFile::name`
/// and `Read::read_to_end`: each member's stored name and bytes, in order;
/// `None` when the archive or a member cannot be read.
#[verifier::external_body]
fn read_archive(bytes: &[u8]) -> (r: Option<Vec<(String, Vec<u8>)>>)
    ensures
        match r {
            Some(v) => zip_entries(bytes@) == Some(entries_view(v@)),
            None => zip_entries(bytes@) is None,
        },
{
    let mut archive = zip::ZipArchive::new(std::io::Cursor::new(bytes)).ok()?;
    let mut out = Vec::new();
    for i in 0..archive.len() {
        let mut entry = archive.by_index(i).ok()?;
        let mut buf = Vec::new();
        std::io::Read::read_to_end(&mut entry, &mut buf).ok()?;
        out.push((entry.name().to_string(), buf));
    }
    Some(out)
}

/// A member name without its trailing ".npy" suffixes.
pub open spec fn array_name(s: Seq<char>) -> Seq<char>
    decreases s.len(),
{
    if s.len() >= 4 && s.skip(s.len() - 4) == ".npy"@ { array_name(s.take(s.len() - 4)) } else { s }
}

/// Named arrays of the members of an archive, in order; the first member
/// that cannot be read decides the error.
pub open spec fn members_contents(es: Seq<(Seq<char>, Seq<u8>)>) -> Result<Seq<(Seq<char>, Seq<usize>, Seq<u32>)>, FormatError>
    decreases es.len(),
{
    if es.len() == 0 {
        Ok(Seq::empty())
    } else {
        match members_contents(es.drop_last()) {
            Err(e) => Err(e),
            Ok(v) => match npy_contents(es.last().1) {
                Err(e) => Err(e),
                Ok(c) => Ok(v.push((array_name(es.last().0), c.0, c.1))),
            },
        }
    }
}

/// What an archive of arrays holds.
pub open spec fn npz_contents(b: Seq<u8>) -> Result<Seq<(Seq<char>, Seq<usize>, Seq<u32>)>, FormatError> {
    match zip_entries(b) {
        None => Err(FormatError::BadArchive),
        Some(es) => members_contents(es),
    }
}

pub open spec fn named_arrays_view(v: Seq<(String, NpyArray)>) -> Seq<(Seq<char>, Seq<usize>, Seq<u32>)> {
    v.map_values(|e: (String, NpyArray)| (e.0@, e.1.shape@, e.1.data@))
}

/// Strips trailing ".npy" suffixes from a member name.
pub fn member_name(name: &str) -> (r: String)
    ensures
        r@ == array_name(name@),
{
    let cs = chars_of(name);
    let mut end: usize = cs.len();
    assert(cs@.take(end as int) =~= cs@);
    while end >= 4 && cs[end - 4] == '.' && cs[end - 3] == 'n' && cs[end - 2] == 'p' && cs[end - 1] == 'y'
        invariant
            end <= cs.len(),
            array_name(cs@.take(end as int)) == array_name(cs@),
        decreases end,
    {
        let ghost t = cs@.take(end as int);
        proof { reveal_strlit(".npy"); }
        assert(t.skip(t.len() - 4) =~= ".npy"@);
        assert(t.take(t.len() - 4) =~= cs@.take(end - 4));
        end -= 4;
    }
    proof {
        let t = cs@.take(end as int);
        reveal_strlit(".npy");
        if t.len() >= 4 {
            assert(t.skip(t.len() - 4)[0] == t[t.len() - 4]);
            assert(t.skip(t.len() - 4)[1] == t[t.len() - 3]);
            assert(t.skip(t.len() - 4)[2] == t[t.len() - 2]);
            assert(t.skip(t.len() - 4)[3] == t[t.len() - 1]);
        }
        assert(cs@.take(cs@.len() as int) =~= cs@);
    }
    sub_string(&cs, 0, end)
}

/// Reads every member of an archive of arrays, in order, each named by its
/// stored name without the ".npy" suffix.
pub fn load_npz_bytes(bytes: &[u8]) -> (r: Result<Vec<(String, NpyArray)>, FormatError>)
    ensures
        match r {
            Ok(v) => npz_contents(bytes@) == Ok::<Seq<(Seq<char>, Seq<usize>, Seq<u32>)>, FormatError>(named_arrays_view(v@)),
            Err(e) => npz_contents(bytes@) == Err::<Seq<(Seq<char>, Seq<usize>, Seq<u32>)>, FormatError>(e),
        },
{
    let entries = match read_archive(bytes) {
        Some(es) => es,
        None => return Err(FormatError::BadArchive),
    };
    let ghost ev = entries_view(entries@);
    let mut out: Vec<(String, NpyArray)> = Vec::new();
    let mut i: usize = 0;
    assert(ev.take(0) =~= Seq::<(Seq<char>, Seq<u8>)>::empty());
    assert(named_arrays_view(out@) =~= Seq::<(Seq<char>, Seq<usize>, Seq<u32>)>::empty());
    while i < entries.len()
        invariant
            i <= entries.len(),
            ev == entries_view(entries@),
            zip_entries(bytes@) == Some(ev),
            ev.len() == entries.len(),
            members_contents(ev.take(i as int)) == Ok::<Seq<(Seq<char>, Seq<usize>, Seq<u32>)>, FormatError>(named_arrays_view(out@)),
        decreases entries.len() - i,
    {
        assert(ev.take(i + 1).drop_last() =~= ev.take(i as int));
        let name = member_name(entries[i].0.as_str());
        proof {
            assert(ev.take(i + 1).last() == ev[i as int]);
            assert(ev[i as int].1 == entries@[i as int].1@);
            assert(ev[i as int].0 == entries@[i as int].0@);
        }
        match parse_npy(entries[i].1.as_slice()) {
            Ok((shape, data)) => {
                let ghost before = named_arrays_view(out@);
                out.push((name, NpyArray { shape, data }));
                assert(named_arrays_view(out@) =~= before.push((array_name(ev[i as int].0), shape@, data@)));
            },
            Err(e) => {
                proof {
                    assert(ev.take(i + 1).last() == ev[i as int]);
                    assert(ev[i as int].1 == entries@[i as int].1@);
                    assert(members_contents(ev.take(i + 1)) == Err::<Seq<(Seq<char>, Seq<usize>, Seq<u32>)>, FormatError>(e));
                    lemma_members_err(ev, (i + 1) as int, e);
                    assert(members_contents(ev) == Err::<Seq<(Seq<char>, Seq<usize>, Seq<u32>)>, FormatError>(e));
                    assert(zip_entries(bytes@) == Some(ev));
                }
                return Err(e);
            },
        }
        i += 1;
    }
    assert(ev.take(i as int) =~= ev);
    Ok(out)
}

proof fn lemma_members_err(es: Seq<(Seq<char>, Seq<u8>)>, k: int, e: FormatError)
    requires
        0 < k <= es.len(),
        members_contents(es.take(k)) == Err::<Seq<(Seq<char>, Seq<usize>, Seq<u32>)>, FormatError>(e),
    ensures
        members_contents(es) == Err::<Seq<(Seq<char>, Seq<usize>, Seq<u32>)>, FormatError>(e),
    decreases es.len() - k,
{
    if k < es.len() {
        assert(es.take(k + 1).drop_last() =~= es.take(k));
        lemma_members_err(es, k + 1, e);
    } else {
        assert(es.take(k) =~= es);
    }
}

/// The four little-endian bytes of `w`.
pub open spec fn le_bytes(w: u32) -> Seq<u8> {
    seq![(w % 256) as u8, ((w / 256) % 256) as u8, ((w / 65536) % 256) as u8, (w / 16777216) as u8]
}

/// The little-endian bytes of each word, in order.
pub open spec fn le_words(vs: Seq<u32>) -> Seq<u8>
    decreases vs.len(),
{
    if vs.len() == 0 { Seq::empty() } else { le_words(vs.drop_last()) + le_bytes(vs.last()) }
}

/// A version-1.0 container: magic, version, the header length in two
/// little-endian bytes, the header text, then the words little-endian.
pub open spec fn npy_v1(h: Seq<char>, vs: Seq<u32>) -> Seq<u8> {
    let hb = encode_utf8(h);
    magic() + seq![1u8, 0u8, (hb.len() % 256) as u8, (hb.len() / 256) as u8] + hb + le_words(vs)
}

proof fn lemma_le_words(vs: Seq<u32>)
    ensures
        le_words(vs).len() == 4 * vs.len(),
        forall|k: int, i: int| 0 <= k < vs.len() && 0 <= i < 4
            ==> le_words(vs)[4 * k + i] == #[trigger] le_bytes(vs[k])[i],
    decreases vs.len(),
{
    if vs.len() > 0 {
        let d = vs.drop_last();
        lemma_le_words(d);
        assert forall|k: int, i: int| 0 <= k < vs.len() && 0 <= i < 4
            implies le_words(vs)[4 * k + i] == #[trigger] le_bytes(vs[k])[i] by {
            if k < d.len() {
                assert(d[k] == vs[k]);
            }
        }
    }
}

proof fn lemma_word_le(w: u32)
    ensures
        le_bytes(w)[0] + le_bytes(w)[1] * 256 + le_bytes(w)[2] * 65536 + le_bytes(w)[3] * 16777216 == w,
{
    let x = w as int;
    let q1 = x / 256;
    let q2 = x / 65536;
    let q3 = x / 16777216;
    assert(x == 256 * q1 + x % 256);
    assert(q1 == 256 * (q1 / 256) + q1 % 256);
    assert(q1 / 256 == q2);
    assert(q2 == 256 * (q2 / 256) + q2 % 256);
    assert(q2 / 256 == q3);
    assert(q3 < 256);
    assert(le_bytes(w)[0] == x % 256);
    assert(le_bytes(w)[1] == q1 % 256);
    assert(le_bytes(w)[2] == q2 % 256);
    assert(le_bytes(w)[3] == q3);
}

/// Writing a version-1.0 container whose header declares little-endian
/// 32-bit floats in row-major order with a given shape, and reading it
/// back, gives that shape and exactly the words written.
pub proof fn lemma_container_round_trip(h: Seq<char>, shape: Seq<usize>, vs: Seq<u32>)
    requires
        encode_utf8(h).len() < 65536,
        header_field(h, "descr"@) == Some("<f4"@),
        header_field(h, "fortran_order"@) == Some("False"@),
        header_field(h, "shape"@) matches Some(ss) && shape_of(trimmed(ss)) == Some(shape),
        vs.len() == elements(shape),
    ensures
        npy_contents(npy_v1(h, vs)) == Ok::<(Seq<usize>, Seq<u32>), FormatError>((shape, vs)),
{
    let hb = encode_utf8(h);
    let l = hb.len() as int;
    let d = npy_v1(h, vs);
    let pre = magic() + seq![1u8, 0u8, (hb.len() % 256) as u8, (hb.len() / 256) as u8];
    assert(pre.len() == 10);
    lemma_le_words(vs);
    assert(d.take(6) =~= magic());
    assert(d[6] == 1u8);
    assert(d[8] == (l % 256) as u8);
    assert(d[9] == (l / 256) as u8);
    assert(d[8] + 256 * d[9] == l);
    assert(header_span(d) == Ok::<(int, int), FormatError>((10, 10 + l)));
    assert(d.subrange(10, 10 + l) =~= hb);
    encode_utf8_valid_utf8(h);
    encode_utf8_decode_utf8(h);
    reveal_strlit("<f4");
    reveal_strlit("False");
    let t = "<f4"@;
    assert(trim_start(t) == t);
    assert(trim_end(t) == t);
    assert(strip_lead(t, '\'') == t);
    assert(strip_trail(t, '\'') == t);
    assert(strip_lead(t, '"') == t);
    assert(strip_trail(t, '"') == t);
    assert(dtype_of(t) == t);
    let f = "False"@;
    assert(trim_start(f) == f);
    assert(trim_end(f) == f);
    assert(!is_true_word(f));
    let data_start = 10 + l;
    assert(d.len() - data_start == 4 * vs.len());
    let got = Seq::new(vs.len(), |k: int| word_at(d, data_start + 4 * k, false));
    assert forall|k: int| 0 <= k < vs.len() implies got[k] == vs[k] by {
        let off = data_start + 4 * k;
        assert forall|i: int| 0 <= i < 4 implies d[off + i] == #[trigger] le_bytes(vs[k])[i] by {
            assert(d[off + i] == le_words(vs)[4 * k + i]);
        }
        lemma_word_le(vs[k]);
        assert(word_at(d, off, false) == vs[k]);
    }
    assert(got =~= vs);
}

} // verus!
