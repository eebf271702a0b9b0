//! Spelling integers and decimal strings as English words.

use vstd::prelude::*;
use crate::digits::{int_or_zero, is_digit, parse_i64};
use crate::text::{
    chars_of, find_char, index_of, join, join_strings, join_strings_reversed, last_index_of,
    rfind_char, slice_chars, str_eq, string_of, views,
};

verus! {

/// Word for `d` in `0..20` (empty for zero).
pub open spec fn ones_word(d: int) -> Seq<char> {
    if d == 1 { "one"@ }
    else if d == 2 { "two"@ }
    else if d == 3 { "three"@ }
    else if d == 4 { "four"@ }
    else if d == 5 { "five"@ }
    else if d == 6 { "six"@ }
    else if d == 7 { "seven"@ }
    else if d == 8 { "eight"@ }
    else if d == 9 { "nine"@ }
    else if d == 10 { "ten"@ }
    else if d == 11 { "eleven"@ }
    else if d == 12 { "twelve"@ }
    else if d == 13 { "thirteen"@ }
    else if d == 14 { "fourteen"@ }
    else if d == 15 { "fifteen"@ }
    else if d == 16 { "sixteen"@ }
    else if d == 17 { "seventeen"@ }
    else if d == 18 { "eighteen"@ }
    else if d == 19 { "nineteen"@ }
    else { Seq::empty() }
}

/// Word for the tens digit `d` in `2..10`.
pub open spec fn tens_word(d: int) -> Seq<char> {
    if d == 2 { "twenty"@ }
    else if d == 3 { "thirty"@ }
    else if d == 4 { "forty"@ }
    else if d == 5 { "fifty"@ }
    else if d == 6 { "sixty"@ }
    else if d == 7 { "seventy"@ }
    else if d == 8 { "eighty"@ }
    else if d == 9 { "ninety"@ }
    else { Seq::empty() }
}

/// Scale word of the `i`-th group of three digits.
pub open spec fn scale_word(i: int) -> Seq<char> {
    if i == 1 { "thousand"@ }
    else if i == 2 { "million"@ }
    else if i == 3 { "billion"@ }
    else if i == 4 { "trillion"@ }
    else { Seq::empty() }
}

/// Words for `n` in `0..1000`; empty for zero.
pub open spec fn three_words(n: int) -> Seq<char> {
    let h = n / 100;
    let r = n % 100;
    let hpart = if h > 0 { ones_word(h) + " hundred"@ } else { Seq::empty() };
    let rpart = if r == 0 {
        Seq::empty()
    } else if r < 20 {
        ones_word(r)
    } else if r % 10 == 0 {
        tens_word(r / 10)
    } else {
        tens_word(r / 10) + "-"@ + ones_word(r % 10)
    };
    if n == 0 {
        Seq::empty()
    } else if h > 0 && r > 0 {
        hpart + " "@ + rpart
    } else {
        hpart + rpart
    }
}

/// Words of the group of three digits `c` at scale position `i`.
pub open spec fn group_words(c: int, i: int) -> Seq<char> {
    if i == 0 { three_words(c) } else { three_words(c) + " "@ + scale_word(i) }
}

/// The non-zero groups of `n`, lowest first, starting at scale position `i`;
/// groups above the trillions are not read.
pub open spec fn group_parts(n: nat, i: nat) -> Seq<Seq<char>>
    decreases 5 - i,
{
    if i >= 5 {
        Seq::empty()
    } else {
        let c = n % 1000;
        let here = if c > 0 { seq![group_words(c as int, i as int)] } else { Seq::empty() };
        if n / 1000 == 0 { here } else { here + group_parts(n / 1000, i + 1) }
    }
}

/// Whether `n` is read as a count of hundreds ("twelve hundred").
pub open spec fn read_as_hundreds(n: nat) -> bool {
    100 <= n <= 9999 && n % 100 == 0 && n % 1000 != 0 && n / 100 < 20
}

/// Words for a non-negative integer.
pub open spec fn nonneg_words(n: nat) -> Seq<char> {
    if n == 0 {
        "zero"@
    } else if read_as_hundreds(n) {
        ones_word((n / 100) as int) + " hundred"@
    } else {
        join(group_parts(n, 0).reverse(), " "@)
    }
}

/// Words for any integer: negatives take the prefix "negative ".
pub open spec fn number_words(n: int) -> Seq<char> {
    if n < 0 { "negative "@ + nonneg_words((-n) as nat) } else { nonneg_words(n as nat) }
}

fn ones_str(d: u64) -> (r: &'static str)
    requires
        d < 20,
    ensures
        r@ == ones_word(d as int),
{
    proof {
        reveal_strlit("");
    }
    if d == 1 { "one" }
    else if d == 2 { "two" }
    else if d == 3 { "three" }
    else if d == 4 { "four" }
    else if d == 5 { "five" }
    else if d == 6 { "six" }
    else if d == 7 { "seven" }
    else if d == 8 { "eight" }
    else if d == 9 { "nine" }
    else if d == 10 { "ten" }
    else if d == 11 { "eleven" }
    else if d == 12 { "twelve" }
    else if d == 13 { "thirteen" }
    else if d == 14 { "fourteen" }
    else if d == 15 { "fifteen" }
    else if d == 16 { "sixteen" }
    else if d == 17 { "seventeen" }
    else if d == 18 { "eighteen" }
    else if d == 19 { "nineteen" }
    else { "" }
}

fn tens_str(d: u64) -> (r: &'static str)
    ensures
        r@ == tens_word(d as int),
{
    proof {
        reveal_strlit("");
    }
    if d == 2 { "twenty" }
    else if d == 3 { "thirty" }
    else if d == 4 { "forty" }
    else if d == 5 { "fifty" }
    else if d == 6 { "sixty" }
    else if d == 7 { "seventy" }
    else if d == 8 { "eighty" }
    else if d == 9 { "ninety" }
    else { "" }
}

fn scale_str(i: usize) -> (r: &'static str)
    ensures
        r@ == scale_word(i as int),
{
    proof {
        reveal_strlit("");
    }
    if i == 1 { "thousand" }
    else if i == 2 { "million" }
    else if i == 3 { "billion" }
    else if i == 4 { "trillion" }
    else { "" }
}

/// Words for `n` below one thousand; empty for zero.
pub fn three_digits_to_words(n: u64) -> (r: String)
    requires
        n < 1000,
    ensures
        r@ == three_words(n as int),
{
    if n == 0 {
        return String::new();
    }
    let hundreds = n / 100;
    let remainder = n % 100;
    let mut out = String::new();
    if hundreds > 0 {
        out.append(ones_str(hundreds));
        out.append(" hundred");
    }
    if remainder > 0 && hundreds > 0 {
        out.append(" ");
    }
    if remainder > 0 {
        if remainder < 20 {
            out.append(ones_str(remainder));
        } else if remainder % 10 == 0 {
            out.append(tens_str(remainder / 10));
        } else {
            out.append(tens_str(remainder / 10));
            out.append("-");
            out.append(ones_str(remainder % 10));
        }
    }
    out
}

proof fn lemma_group_parts_zero(i: nat)
    ensures
        group_parts(0, i) == Seq::<Seq<char>>::empty(),
{
    reveal_with_fuel(group_parts, 2);
}

pub fn nonneg_to_words(n: u64) -> (r: String)
    ensures
        r@ == nonneg_words(n as nat),
{
    if n == 0 {
        return String::from_str("zero");
    }
    if n >= 100 && n <= 9999 && n % 100 == 0 && n % 1000 != 0 {
        let hundreds = n / 100;
        if hundreds < 20 {
            let mut out = String::from_str(ones_str(hundreds));
            out.append(" hundred");
            return out;
        }
    }
    let mut parts: Vec<String> = Vec::new();
    let mut remaining: u64 = n;
    let mut i: usize = 0;
    while i < 5
        invariant
            i <= 5,
            views(parts@) + group_parts(remaining as nat, i as nat) == group_parts(n as nat, 0),
        ensures
            i <= 5,
            remaining == 0 || i == 5,
            views(parts@) + group_parts(remaining as nat, i as nat) == group_parts(n as nat, 0),
        decreases 5 - i,
    {
        let chunk = remaining % 1000;
        let ghost old_parts = parts@;
        if chunk > 0 {
            let mut w = three_digits_to_words(chunk);
            if i > 0 {
                w.append(" ");
                w.append(scale_str(i));
            }
            parts.push(w);
        }
        proof {
            let here = if chunk > 0 { seq![group_words(chunk as int, i as int)] } else { Seq::<Seq<char>>::empty() };
            assert(views(parts@) =~= views(old_parts) + here);
            if remaining / 1000 == 0 {
                lemma_group_parts_zero((i + 1) as nat);
            }
            assert(group_parts(remaining as nat, i as nat) == here + group_parts((remaining / 1000) as nat, (i + 1) as nat));
            assert(views(parts@) + group_parts((remaining / 1000) as nat, (i + 1) as nat)
                =~= views(old_parts) + group_parts(remaining as nat, i as nat));
        }
        remaining = remaining / 1000;
        i += 1;
        if remaining == 0 {
            break;
        }
    }
    proof {
        lemma_group_parts_zero(i as nat);
        assert(group_parts(remaining as nat, i as nat) =~= Seq::<Seq<char>>::empty());
        assert(views(parts@) =~= group_parts(n as nat, 0));
    }
    join_strings_reversed(&parts, " ")
}

/// Spells out `n` in English words ("negative forty-two", "twelve hundred").
pub fn number_to_words(n: i64) -> (r: String)
    ensures
        r@ == number_words(n as int),
{
    if n < 0 {
        let mut out = String::from_str("negative ");
        let magnitude: u64 = if n == i64::MIN { 0x8000_0000_0000_0000 } else { (-n) as u64 };
        let rest = nonneg_to_words(magnitude);
        out.append(rest.as_str());
        out
    } else {
        nonneg_to_words(n as u64)
    }
}

/// Word for a decimal digit; empty for any other character.
pub open spec fn digit_word(c: char) -> Seq<char> {
    if c == '0' { "zero"@ }
    else if c == '1' { "one"@ }
    else if c == '2' { "two"@ }
    else if c == '3' { "three"@ }
    else if c == '4' { "four"@ }
    else if c == '5' { "five"@ }
    else if c == '6' { "six"@ }
    else if c == '7' { "seven"@ }
    else if c == '8' { "eight"@ }
    else if c == '9' { "nine"@ }
    else { Seq::empty() }
}

/// The words of the digits of `s`, other characters skipped.
pub open spec fn digit_words(s: Seq<char>) -> Seq<Seq<char>>
    decreases s.len(),
{
    if s.len() == 0 {
        Seq::empty()
    } else if is_digit(s.last()) {
        digit_words(s.drop_last()).push(digit_word(s.last()))
    } else {
        digit_words(s.drop_last())
    }
}

/// Digits read one by one: "one two three" for "123".
pub open spec fn digits_spoken(s: Seq<char>) -> Seq<char> {
    join(digit_words(s), " "@)
}

/// Words for the integer part of a decimal: "zero" when it is empty.
pub open spec fn int_part_words(p: Seq<char>) -> Seq<char> {
    if p.len() == 0 { "zero"@ } else { number_words(int_or_zero(p)) }
}

/// A decimal string read aloud: the integer part as a number, each character
/// after the point as a digit word, and "negative " for a leading minus.
pub open spec fn decimal_words(s: Seq<char>) -> Seq<char> {
    let neg = s.len() > 0 && s[0] == '-';
    let v = if neg { s.drop_first() } else { s };
    let d = index_of(v, '.');
    let body = if d >= 0 {
        int_part_words(v.take(d)) + " point "@ + join(v.skip(d + 1).map_values(|c: char| digit_word(c)), " "@)
    } else {
        number_words(int_or_zero(v))
    };
    if neg { "negative "@ + body } else { body }
}

fn digit_str(c: char) -> (r: &'static str)
    ensures
        r@ == digit_word(c),
{
    proof {
        reveal_strlit("");
    }
    if c == '0' { "zero" }
    else if c == '1' { "one" }
    else if c == '2' { "two" }
    else if c == '3' { "three" }
    else if c == '4' { "four" }
    else if c == '5' { "five" }
    else if c == '6' { "six" }
    else if c == '7' { "seven" }
    else if c == '8' { "eight" }
    else if c == '9' { "nine" }
    else { "" }
}

/// Reads each digit of `s` as a word, skipping other characters.
pub fn digits_to_words(s: &str) -> (r: String)
    ensures
        r@ == digits_spoken(s@),
{
    let cs = chars_of(s);
    let mut parts: Vec<String> = Vec::new();
    let mut i: usize = 0;
    while i < cs.len()
        invariant
            i <= cs.len(),
            cs@ == s@,
            views(parts@) == digit_words(cs@.take(i as int)),
        decreases cs.len() - i,
    {
        let ghost before = parts@;
        assert(cs@.take(i + 1).drop_last() =~= cs@.take(i as int));
        if cs[i] >= '0' && cs[i] <= '9' {
            parts.push(String::from_str(digit_str(cs[i])));
            assert(views(parts@) =~= views(before).push(digit_word(cs@[i as int])));
        }
        i += 1;
    }
    assert(cs@.take(i as int) =~= cs@);
    join_strings(&parts, " ")
}

/// Reads a decimal string such as "-3.14" as "negative three point one four".
pub fn float_to_words(value: &str) -> (r: String)
    ensures
        r@ == decimal_words(value@),
{
    let all = chars_of(value);
    let negative = all.len() > 0 && all[0] == '-';
    let v = if negative { slice_chars(&all, 1, all.len()) } else { all };
    assert(v@ == if negative { value@.drop_first() } else { value@ });
    let mut body = match find_char(&v, '.') {
        Some(dot) => {
            let int_part = slice_chars(&v, 0, dot);
            let mut out = if int_part.len() == 0 {
                String::from_str("zero")
            } else {
                let n = match parse_i64(&int_part) { Some(n) => n, None => 0 };
                number_to_words(n)
            };
            out.append(" point ");
            let mut parts: Vec<String> = Vec::new();
            let mut i: usize = dot + 1;
            while i < v.len()
                invariant
                    dot < v.len(),
                    dot + 1 <= i <= v.len(),
                    views(parts@) == v@.subrange(dot + 1, i as int).map_values(|c: char| digit_word(c)),
                decreases v.len() - i,
            {
                let ghost before = parts@;
                parts.push(String::from_str(digit_str(v[i])));
                assert(views(parts@) =~= views(before).push(digit_word(v@[i as int])));
                assert(views(parts@) =~= v@.subrange(dot + 1, i + 1).map_values(|c: char| digit_word(c)));
                i += 1;
            }
            assert(v@.subrange(dot + 1, i as int) =~= v@.skip(dot + 1));
            assert(int_part@ =~= v@.take(dot as int));
            let dec = join_strings(&parts, " ");
            out.append(dec.as_str());
            out
        },
        None => {
            let n = match parse_i64(&v) { Some(n) => n, None => 0 };
            number_to_words(n)
        },
    };
    if negative {
        let mut out = String::from_str("negative ");
        out.append(body.as_str());
        out
    } else {
        body
    }
}

/// The ordinal form of a single number word.
pub open spec fn ordinal_word(w: Seq<char>) -> Seq<char> {
    if w == "one"@ { "first"@ }
    else if w == "two"@ { "second"@ }
    else if w == "three"@ { "third"@ }
    else if w == "four"@ { "fourth"@ }
    else if w == "five"@ { "fifth"@ }
    else if w == "six"@ { "sixth"@ }
    else if w == "seven"@ { "seventh"@ }
    else if w == "eight"@ { "eighth"@ }
    else if w == "nine"@ { "ninth"@ }
    else if w == "twelve"@ { "twelfth"@ }
    else if w.len() > 0 && w.last() == 't' { w + "h"@ }
    else if w.len() > 0 && w.last() == 'e' { w.drop_last() + "th"@ }
    else { w + "th"@ }
}

/// `prefix`, `sep` and `last` in a row; `last` alone when `prefix` is empty.
pub open spec fn attach(prefix: Seq<char>, sep: Seq<char>, last: Seq<char>) -> Seq<char> {
    if prefix.len() == 0 { last } else { prefix + sep + last }
}

/// A phrase of number words with its final word made ordinal; the final word
/// follows the last separator, hyphen or space, whichever comes later.
pub open spec fn ordinal_phrase(w: Seq<char>) -> Seq<char> {
    let p = last_index_of(w, '-');
    let q = last_index_of(w, ' ');
    if p > q {
        attach(w.take(p), "-"@, ordinal_word(w.skip(p + 1)))
    } else if q >= 0 {
        attach(w.take(q), " "@, ordinal_word(w.skip(q + 1)))
    } else {
        ordinal_word(w)
    }
}

/// The ordinal of `n` in words ("twenty-first").
pub open spec fn ordinal_words(n: int) -> Seq<char> {
    ordinal_phrase(number_words(n))
}

fn ordinal_of_word(w: &Vec<char>) -> (r: String)
    ensures
        r@ == ordinal_word(w@),
{
    let ws = string_of(w.as_slice());
    let s = ws.as_str();
    if str_eq(s, "one") { String::from_str("first") }
    else if str_eq(s, "two") { String::from_str("second") }
    else if str_eq(s, "three") { String::from_str("third") }
    else if str_eq(s, "four") { String::from_str("fourth") }
    else if str_eq(s, "five") { String::from_str("fifth") }
    else if str_eq(s, "six") { String::from_str("sixth") }
    else if str_eq(s, "seven") { String::from_str("seventh") }
    else if str_eq(s, "eight") { String::from_str("eighth") }
    else if str_eq(s, "nine") { String::from_str("ninth") }
    else if str_eq(s, "twelve") { String::from_str("twelfth") }
    else if w.len() > 0 && w[w.len() - 1] == 't' {
        let mut out = ws;
        out.append("h");
        out
    } else if w.len() > 0 && w[w.len() - 1] == 'e' {
        let mut out = string_of(slice_chars(w, 0, w.len() - 1).as_slice());
        proof { assert(w@.subrange(0, w@.len() - 1) =~= w@.drop_last()); }
        out.append("th");
        out
    } else {
        let mut out = ws;
        out.append("th");
        out
    }
}

fn attach_exec(w: &Vec<char>, pos: usize, sep: &str) -> (r: String)
    requires
        pos < w.len(),
    ensures
        r@ == attach(w@.take(pos as int), sep@, ordinal_word(w@.skip(pos + 1))),
{
    let last = slice_chars(w, pos + 1, w.len());
    assert(last@ =~= w@.skip(pos + 1));
    let last_ord = ordinal_of_word(&last);
    if pos == 0 {
        last_ord
    } else {
        let mut out = string_of(slice_chars(w, 0, pos).as_slice());
        assert(w@.subrange(0, pos as int) =~= w@.take(pos as int));
        out.append(sep);
        out.append(last_ord.as_str());
        out
    }
}

/// The ordinal of `n` in words: 1 gives "first", 21 "twenty-first",
/// 100 "one hundredth", 21005 "twenty-one thousand fifth".
pub fn ordinal_suffix(n: i64) -> (r: String)
    ensures
        r@ == ordinal_words(n as int),
{
    let word = number_to_words(n);
    let w = chars_of(word.as_str());
    let hyphen = rfind_char(&w, '-');
    let space = rfind_char(&w, ' ');
    match (hyphen, space) {
        (Some(p), Some(q)) => {
            if p > q { attach_exec(&w, p, "-") } else { attach_exec(&w, q, " ") }
        },
        (Some(p), None) => attach_exec(&w, p, "-"),
        (None, Some(q)) => attach_exec(&w, q, " "),
        (None, None) => ordinal_of_word(&w),
    }
}

} // verus!
