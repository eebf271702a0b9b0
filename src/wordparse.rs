//! A word-to-number reader for the output of `number_to_words`, and the
//! proof that it recovers every number below one million.

use vstd::prelude::*;
use crate::numwords::{
    group_parts, group_words, number_words, ones_word, read_as_hundreds, tens_word, three_words,
};
use crate::text::join;

verus! {

pub open spec fn is_sep(c: char) -> bool {
    c == ' ' || c == '-'
}

/// The words of `s`, separated by spaces or hyphens.
pub open spec fn spoken_tokens(s: Seq<char>) -> Seq<Seq<char>>
    decreases s.len(),
{
    if s.len() == 0 {
        seq![Seq::empty()]
    } else if is_sep(s.last()) {
        spoken_tokens(s.drop_last()).push(Seq::empty())
    } else {
        let p = spoken_tokens(s.drop_last());
        p.update(p.len() - 1, p.last().push(s.last()))
    }
}

/// Value of a number word other than "hundred" and "thousand"; -1 when
/// the word is not one.
pub open spec fn word_value(w: Seq<char>) -> int {
    if w == "zero"@ { 0 }
    else if w == "one"@ { 1 }
    else if w == "two"@ { 2 }
    else if w == "three"@ { 3 }
    else if w == "four"@ { 4 }
    else if w == "five"@ { 5 }
    else if w == "six"@ { 6 }
    else if w == "seven"@ { 7 }
    else if w == "eight"@ { 8 }
    else if w == "nine"@ { 9 }
    else if w == "ten"@ { 10 }
    else if w == "eleven"@ { 11 }
    else if w == "twelve"@ { 12 }
    else if w == "thirteen"@ { 13 }
    else if w == "fourteen"@ { 14 }
    else if w == "fifteen"@ { 15 }
    else if w == "sixteen"@ { 16 }
    else if w == "seventeen"@ { 17 }
    else if w == "eighteen"@ { 18 }
    else if w == "nineteen"@ { 19 }
    else if w == "twenty"@ { 20 }
    else if w == "thirty"@ { 30 }
    else if w == "forty"@ { 40 }
    else if w == "fifty"@ { 50 }
    else if w == "sixty"@ { 60 }
    else if w == "seventy"@ { 70 }
    else if w == "eighty"@ { 80 }
    else if w == "ninety"@ { 90 }
    else { -1 }
}

/// One word read into the running (total, current) pair: "hundred"
/// multiplies the current group, "thousand" closes it into the total, any
/// other word adds its value to the current group.
pub open spec fn read_word(st: (int, int), w: Seq<char>) -> (int, int) {
    if w == "hundred"@ {
        (st.0, st.1 * 100)
    } else if w == "thousand"@ {
        (st.0 + st.1 * 1000, 0)
    } else {
        (st.0, st.1 + word_value(w))
    }
}

pub open spec fn read_words(st: (int, int), ws: Seq<Seq<char>>) -> (int, int)
    decreases ws.len(),
{
    if ws.len() == 0 { st } else { read_word(read_words(st, ws.drop_last()), ws.last()) }
}

/// The number that spoken words `s` name.
pub open spec fn words_to_number(s: Seq<char>) -> int {
    let st = read_words((0, 0), spoken_tokens(s));
    st.0 + st.1
}

proof fn lemma_tokens_concat(x: Seq<char>, c: char, y: Seq<char>)
    requires
        is_sep(c),
    ensures
        spoken_tokens(x + seq![c] + y) == spoken_tokens(x) + spoken_tokens(y),
    decreases y.len(),
{
    if y.len() == 0 {
        assert(x + seq![c] + y =~= x.push(c));
        assert(x.push(c).drop_last() =~= x);
        assert(spoken_tokens(x).push(Seq::<char>::empty()) =~= spoken_tokens(x) + seq![Seq::<char>::empty()]);
    } else {
        let yd = y.drop_last();
        lemma_tokens_concat(x, c, yd);
        assert((x + seq![c] + y).drop_last() =~= x + seq![c] + yd);
        assert((x + seq![c] + y).last() == y.last());
        let a = spoken_tokens(x);
        let b = spoken_tokens(yd);
        lemma_tokens_nonempty(yd);
        if is_sep(y.last()) {
            assert((a + b).push(Seq::<char>::empty()) =~= a + b.push(Seq::<char>::empty()));
        } else {
            let ab = a + b;
            assert(ab.update(ab.len() - 1, ab.last().push(y.last()))
                =~= a + b.update(b.len() - 1, b.last().push(y.last())));
        }
    }
}

proof fn lemma_tokens_nonempty(s: Seq<char>)
    ensures
        spoken_tokens(s).len() >= 1,
    decreases s.len(),
{
    if s.len() > 0 {
        lemma_tokens_nonempty(s.drop_last());
    }
}

proof fn lemma_tokens_atom(w: Seq<char>)
    requires
        forall|i: int| 0 <= i < w.len() ==> !is_sep(#[trigger] w[i]),
    ensures
        spoken_tokens(w) == seq![w],
    decreases w.len(),
{
    if w.len() == 0 {
        assert(w =~= Seq::<char>::empty());
    } else {
        assert(!is_sep(w[w.len() - 1]));
        let d = w.drop_last();
        assert forall|i: int| 0 <= i < d.len() implies !is_sep(#[trigger] d[i]) by {
            assert(d[i] == w[i]);
        }
        lemma_tokens_atom(d);
        assert(d.push(w.last()) =~= w);
        assert(seq![d].update(0, d.push(w.last())) =~= seq![w]);
    }
}

proof fn lemma_read_concat(st: (int, int), a: Seq<Seq<char>>, b: Seq<Seq<char>>)
    ensures
        read_words(st, a + b) == read_words(read_words(st, a), b),
    decreases b.len(),
{
    if b.len() == 0 {
        assert(a + b =~= a);
    } else {
        lemma_read_concat(st, a, b.drop_last());
        assert((a + b).drop_last() =~= a + b.drop_last());
        assert((a + b).last() == b.last());
    }
}

proof fn lemma_reveal_words()
    ensures
        "zero"@ == seq!['z', 'e', 'r', 'o'],
        "one"@ == seq!['o', 'n', 'e'],
        "two"@ == seq!['t', 'w', 'o'],
        "three"@ == seq!['t', 'h', 'r', 'e', 'e'],
        "four"@ == seq!['f', 'o', 'u', 'r'],
        "five"@ == seq!['f', 'i', 'v', 'e'],
        "six"@ == seq!['s', 'i', 'x'],
        "seven"@ == seq!['s', 'e', 'v', 'e', 'n'],
        "eight"@ == seq!['e', 'i', 'g', 'h', 't'],
        "nine"@ == seq!['n', 'i', 'n', 'e'],
        "ten"@ == seq!['t', 'e', 'n'],
        "eleven"@ == seq!['e', 'l', 'e', 'v', 'e', 'n'],
        "twelve"@ == seq!['t', 'w', 'e', 'l', 'v', 'e'],
        "thirteen"@ == seq!['t', 'h', 'i', 'r', 't', 'e', 'e', 'n'],
        "fourteen"@ == seq!['f', 'o', 'u', 'r', 't', 'e', 'e', 'n'],
        "fifteen"@ == seq!['f', 'i', 'f', 't', 'e', 'e', 'n'],
        "sixteen"@ == seq!['s', 'i', 'x', 't', 'e', 'e', 'n'],
        "seventeen"@ == seq!['s', 'e', 'v', 'e', 'n', 't', 'e', 'e', 'n'],
        "eighteen"@ == seq!['e', 'i', 'g', 'h', 't', 'e', 'e', 'n'],
        "nineteen"@ == seq!['n', 'i', 'n', 'e', 't', 'e', 'e', 'n'],
        "twenty"@ == seq!['t', 'w', 'e', 'n', 't', 'y'],
        "thirty"@ == seq!['t', 'h', 'i', 'r', 't', 'y'],
        "forty"@ == seq!['f', 'o', 'r', 't', 'y'],
        "fifty"@ == seq!['f', 'i', 'f', 't', 'y'],
        "sixty"@ == seq!['s', 'i', 'x', 't', 'y'],
        "seventy"@ == seq!['s', 'e', 'v', 'e', 'n', 't', 'y'],
        "eighty"@ == seq!['e', 'i', 'g', 'h', 't', 'y'],
        "ninety"@ == seq!['n', 'i', 'n', 'e', 't', 'y'],
        "hundred"@ == seq!['h', 'u', 'n', 'd', 'r', 'e', 'd'],
        "thousand"@ == seq!['t', 'h', 'o', 'u', 's', 'a', 'n', 'd'],
        " hundred"@ == seq![' '] + "hundred"@,
        " thousand"@ == seq![' '] + "thousand"@,
        " "@ == seq![' '],
        "-"@ == seq!['-'],
{
    reveal_strlit("zero");
    reveal_strlit("one");
    reveal_strlit("two");
    reveal_strlit("three");
    reveal_strlit("four");
    reveal_strlit("five");
    reveal_strlit("six");
    reveal_strlit("seven");
    reveal_strlit("eight");
    reveal_strlit("nine");
    reveal_strlit("ten");
    reveal_strlit("eleven");
    reveal_strlit("twelve");
    reveal_strlit("thirteen");
    reveal_strlit("fourteen");
    reveal_strlit("fifteen");
    reveal_strlit("sixteen");
    reveal_strlit("seventeen");
    reveal_strlit("eighteen");
    reveal_strlit("nineteen");
    reveal_strlit("twenty");
    reveal_strlit("thirty");
    reveal_strlit("forty");
    reveal_strlit("fifty");
    reveal_strlit("sixty");
    reveal_strlit("seventy");
    reveal_strlit("eighty");
    reveal_strlit("ninety");
    reveal_strlit("hundred");
    reveal_strlit("thousand");
    reveal_strlit(" hundred");
    reveal_strlit(" thousand");
    reveal_strlit(" ");
    reveal_strlit("-");
    assert(" hundred"@ =~= seq![' '] + "hundred"@);
    assert(" thousand"@ =~= seq![' '] + "thousand"@);
}

proof fn lemma_atom_word(w: Seq<char>, v: int)
    requires
        w.len() > 0,
        forall|i: int| 0 <= i < w.len() ==> !is_sep(#[trigger] w[i]),
        w != "hundred"@,
        w != "thousand"@,
        word_value(w) == v,
    ensures
        spoken_tokens(w) == seq![w],
        forall|st: (int, int)| #[trigger] read_word(st, w) == (st.0, st.1 + v),
{
    lemma_tokens_atom(w);
}

proof fn lemma_ones(d: int)
    requires
        1 <= d < 20,
    ensures
        spoken_tokens(ones_word(d)) == seq![ones_word(d)],
        forall|st: (int, int)| #[trigger] read_word(st, ones_word(d)) == (st.0, st.1 + d),
{
    lemma_reveal_words();
    let w = ones_word(d);
    assert(w.len() > 0 && w.len() <= 9);
    assert(forall|i: int| 0 <= i < w.len() ==> !is_sep(#[trigger] w[i]));
    assert(w != "hundred"@ && w != "thousand"@) by {
        if w == "hundred"@ || w == "thousand"@ {
            assert(w[0] == 'h' || w[1] == 'h');
        }
    }
    assert(word_value(w) == d);
    lemma_atom_word(w, d);
}

proof fn lemma_tens(d: int)
    requires
        2 <= d < 10,
    ensures
        spoken_tokens(tens_word(d)) == seq![tens_word(d)],
        forall|st: (int, int)| #[trigger] read_word(st, tens_word(d)) == (st.0, st.1 + 10 * d),
{
    lemma_reveal_words();
    let w = tens_word(d);
    assert(w.len() > 0);
    assert(forall|i: int| 0 <= i < w.len() ==> !is_sep(#[trigger] w[i]));
    assert(w != "hundred"@ && w != "thousand"@) by {
        if w == "hundred"@ || w == "thousand"@ {
            assert(w[0] == 'h' || w[1] == 'h');
        }
    }
    assert(word_value(w) == 10 * d);
    lemma_atom_word(w, 10 * d);
}

proof fn lemma_scale_words()
    ensures
        spoken_tokens("hundred"@) == seq!["hundred"@],
        spoken_tokens("thousand"@) == seq!["thousand"@],
        spoken_tokens("zero"@) == seq!["zero"@],
        forall|st: (int, int)| #[trigger] read_word(st, "zero"@) == (st.0, st.1),
{
    lemma_reveal_words();
    lemma_tokens_atom("hundred"@);
    lemma_tokens_atom("thousand"@);
    lemma_tokens_atom("zero"@);
    assert("zero"@ != "hundred"@ && "zero"@ != "thousand"@) by {
        assert("zero"@[0] == 'z');
    }
}

proof fn lemma_reveal_seps()
    ensures
        " hundred"@ == seq![' '] + "hundred"@,
        " "@ == seq![' '],
        "-"@ == seq!['-'],
{
    reveal_strlit(" hundred");
    reveal_strlit("hundred");
    reveal_strlit(" ");
    reveal_strlit("-");
    assert(" hundred"@ =~= seq![' '] + "hundred"@);
}

pub open spec fn hundreds_part(h: int) -> Seq<char> {
    ones_word(h) + " hundred"@
}

pub open spec fn hundreds_tokens(h: int) -> Seq<Seq<char>> {
    seq![ones_word(h), "hundred"@]
}

pub open spec fn rest_part(r: int) -> Seq<char> {
    if r < 20 {
        ones_word(r)
    } else if r % 10 == 0 {
        tens_word(r / 10)
    } else {
        tens_word(r / 10) + "-"@ + ones_word(r % 10)
    }
}

pub open spec fn rest_tokens(r: int) -> Seq<Seq<char>> {
    if r < 20 {
        seq![ones_word(r)]
    } else if r % 10 == 0 {
        seq![tens_word(r / 10)]
    } else {
        seq![tens_word(r / 10), ones_word(r % 10)]
    }
}

proof fn lemma_hundreds(h: int, t: int)
    requires
        1 <= h < 20,
    ensures
        spoken_tokens(hundreds_part(h)) == hundreds_tokens(h),
        read_words((t, 0), hundreds_tokens(h)) == (t, h * 100),
{
    lemma_reveal_seps();
    lemma_scale_words();
    lemma_ones(h);
    lemma_tokens_concat(ones_word(h), ' ', "hundred"@);
    assert(ones_word(h) + " hundred"@ =~= ones_word(h) + seq![' '] + "hundred"@);
    assert(seq![ones_word(h)] + seq!["hundred"@] =~= hundreds_tokens(h));
    assert(hundreds_tokens(h).drop_last() =~= seq![ones_word(h)]);
    assert(seq![ones_word(h)].drop_last() =~= Seq::<Seq<char>>::empty());
    assert(read_words((t, 0int), Seq::<Seq<char>>::empty()) == (t, 0int));
    assert(read_word((t, 0int), ones_word(h)) == (t, h));
    assert(read_words((t, 0int), seq![ones_word(h)]) == (t, h));
    assert(read_words((t, 0int), hundreds_tokens(h)) == read_word((t, h), "hundred"@));
}

proof fn lemma_rest(r: int, st: (int, int))
    requires
        1 <= r < 100,
    ensures
        spoken_tokens(rest_part(r)) == rest_tokens(r),
        read_words(st, rest_tokens(r)) == (st.0, st.1 + r),
{
    lemma_reveal_seps();
    assert(read_words(st, Seq::<Seq<char>>::empty()) == st);
    if r < 20 {
        lemma_ones(r);
        assert(rest_tokens(r).drop_last() =~= Seq::<Seq<char>>::empty());
        assert(read_words(st, rest_tokens(r)) == read_word(st, ones_word(r)));
    } else if r % 10 == 0 {
        lemma_tens(r / 10);
        assert(rest_tokens(r).drop_last() =~= Seq::<Seq<char>>::empty());
        assert(read_words(st, rest_tokens(r)) == read_word(st, tens_word(r / 10)));
        assert(10 * (r / 10) == r);
    } else {
        lemma_tens(r / 10);
        lemma_ones(r % 10);
        lemma_tokens_concat(tens_word(r / 10), '-', ones_word(r % 10));
        assert(tens_word(r / 10) + "-"@ + ones_word(r % 10) =~= tens_word(r / 10) + seq!['-'] + ones_word(r % 10));
        assert(seq![tens_word(r / 10)] + seq![ones_word(r % 10)] =~= rest_tokens(r));
        assert(rest_tokens(r).drop_last() =~= seq![tens_word(r / 10)]);
        assert(seq![tens_word(r / 10)].drop_last() =~= Seq::<Seq<char>>::empty());
        let mid = read_word(st, tens_word(r / 10));
        assert(read_words(st, seq![tens_word(r / 10)]) == mid);
        assert(read_words(st, rest_tokens(r)) == read_word(mid, ones_word(r % 10)));
        assert(10 * (r / 10) + r % 10 == r);
    }
}

/// The words of a group below one thousand.
pub open spec fn three_tokens(c: int) -> Seq<Seq<char>> {
    let h = c / 100;
    let r = c % 100;
    (if h > 0 { hundreds_tokens(h) } else { Seq::empty() }) + (if r > 0 { rest_tokens(r) } else { Seq::empty() })
}

proof fn lemma_three(c: int, t: int)
    requires
        1 <= c < 1000,
    ensures
        spoken_tokens(three_words(c)) == three_tokens(c),
        read_words((t, 0), three_tokens(c)) == (t, c),
{
    let h = c / 100;
    let r = c % 100;
    let hs = if h > 0 { hundreds_tokens(h) } else { Seq::<Seq<char>>::empty() };
    let rs = if r > 0 { rest_tokens(r) } else { Seq::<Seq<char>>::empty() };
    if h > 0 {
        lemma_hundreds(h, t);
    }
    if r > 0 {
        lemma_rest(r, (t, h * 100));
    }
    if h > 0 && r > 0 {
        lemma_reveal_seps();
        lemma_tokens_concat(hundreds_part(h), ' ', rest_part(r));
        assert(three_words(c) =~= hundreds_part(h) + seq![' '] + rest_part(r));
    } else if h > 0 {
        assert(three_words(c) =~= hundreds_part(h));
        assert(hs + rs =~= hs);
    } else {
        assert(three_words(c) =~= rest_part(r));
        assert(hs + rs =~= rs);
    }
    lemma_read_concat((t, 0), hs, rs);
}

proof fn lemma_join_two(a: Seq<char>, b: Seq<char>, sep: Seq<char>)
    ensures
        join(seq![a, b], sep) == a + sep + b,
{
    assert(seq![a, b].drop_last() =~= seq![a]);
    assert(join(seq![a], sep) == a);
}

proof fn lemma_low_group(n: int)
    requires
        1 <= n <= 999,
        !read_as_hundreds(n as nat),
    ensures
        words_to_number(number_words(n)) == n,
{
    reveal_with_fuel(group_parts, 2);
    let gp = group_parts(n as nat, 0);
    assert(gp =~= seq![group_words(n, 0)]);
    assert(gp.reverse() =~= gp);
    lemma_three(n, 0);
}

proof fn lemma_thousands_words(hi: int)
    requires
        1 <= hi <= 999,
    ensures
        spoken_tokens(group_words(hi, 1)) == three_tokens(hi) + seq!["thousand"@],
        read_words((0int, 0int), three_tokens(hi) + seq!["thousand"@]) == (hi * 1000, 0int),
{
    lemma_reveal_seps();
    lemma_scale_words();
    reveal_strlit("thousand");
    let g1 = group_words(hi, 1);
    lemma_three(hi, 0);
    lemma_tokens_concat(three_words(hi), ' ', "thousand"@);
    assert(g1 =~= three_words(hi) + seq![' '] + "thousand"@);
    let hts = three_tokens(hi) + seq!["thousand"@];
    lemma_read_concat((0, 0), three_tokens(hi), seq!["thousand"@]);
    assert(seq!["thousand"@].drop_last() =~= Seq::<Seq<char>>::empty());
    assert(read_words((0int, hi), Seq::<Seq<char>>::empty()) == (0int, hi));
    assert(seq!["thousand"@].last() == "thousand"@);
    assert("thousand"@ != "hundred"@) by {
        reveal_strlit("hundred");
        assert("thousand"@.len() == 8);
    }
    assert(read_words((0int, hi), seq!["thousand"@]) == read_word((0int, hi), "thousand"@));
}

proof fn lemma_round_trip_groups(n: int)
    requires
        1000 <= n <= 999_999,
        !read_as_hundreds(n as nat),
    ensures
        words_to_number(number_words(n)) == n,
{
    let m = n as nat;
    let lo = n % 1000;
    let hi = n / 1000;
    reveal_with_fuel(group_parts, 3);
    let gp = group_parts(m, 0);
    let g1 = group_words(hi, 1);
    lemma_thousands_words(hi);
    let hts = three_tokens(hi) + seq!["thousand"@];
    if lo == 0 {
        assert(gp =~= seq![g1]);
        assert(gp.reverse() =~= gp);
    } else {
        lemma_reveal_seps();
        assert(gp =~= seq![group_words(lo, 0), g1]);
        assert(gp.reverse() =~= seq![g1, three_words(lo)]);
        lemma_join_two(g1, three_words(lo), " "@);
        lemma_three(lo, hi * 1000);
        lemma_tokens_concat(g1, ' ', three_words(lo));
        assert(g1 + " "@ + three_words(lo) =~= g1 + seq![' '] + three_words(lo));
        lemma_read_concat((0, 0), hts, three_tokens(lo));
    }
}

/// Reading back the words that `number_to_words` gives for any `n` from 0
/// to 999,999 yields `n`.
pub proof fn lemma_number_words_round_trip(n: int)
    requires
        0 <= n <= 999_999,
    ensures
        words_to_number(number_words(n)) == n,
{
    if n == 0 {
        lemma_scale_words();
        assert(seq!["zero"@].drop_last() =~= Seq::<Seq<char>>::empty());
        assert(read_words((0int, 0int), Seq::<Seq<char>>::empty()) == (0int, 0int));
        assert(read_words((0int, 0int), seq!["zero"@]) == read_word((0int, 0int), "zero"@));
    } else if read_as_hundreds(n as nat) {
        lemma_hundreds(n / 100, 0);
        assert(number_words(n) == hundreds_part(n / 100));
        assert((n / 100) * 100 == n);
    } else if n < 1000 {
        lemma_low_group(n);
    } else {
        lemma_round_trip_groups(n);
    }
}

} // verus!
