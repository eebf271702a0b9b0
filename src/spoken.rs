//! Spoken forms of the constructs that the normaliser rewrites: amounts,
//! currency, times, fractions, decades, addresses and the like.

use vstd::prelude::*;
use crate::digits::{int_or_zero, parse_i64, parse_i64_spec};
use crate::numwords::{
    decimal_words, digits_spoken, digits_to_words, float_to_words, nonneg_to_words,
    nonneg_words, number_to_words, number_words, ordinal_suffix, ordinal_words,
};
use crate::text::{chars_of, find_char, index_of, join, join_strings, lower_of, str_eq, string_of, to_lower, views};

verus! {

/// `s` without its commas.
pub open spec fn drop_commas(s: Seq<char>) -> Seq<char>
    decreases s.len(),
{
    if s.len() == 0 {
        s
    } else if s.last() == ',' {
        drop_commas(s.drop_last())
    } else {
        drop_commas(s.drop_last()).push(s.last())
    }
}

pub open spec fn has_dot(s: Seq<char>) -> bool {
    index_of(s, '.') >= 0
}

/// An amount read aloud: digit by digit after a point, else as an integer.
pub open spec fn amount_spoken(raw: Seq<char>) -> Seq<char> {
    if has_dot(raw) { decimal_words(raw) } else { number_words(int_or_zero(raw)) }
}

pub open spec fn currency_name(sym: Seq<char>) -> Seq<char> {
    if sym == "$"@ { "dollar"@ }
    else if sym == "€"@ { "euro"@ }
    else if sym == "£"@ { "pound"@ }
    else if sym == "¥"@ { "yen"@ }
    else if sym == "₹"@ { "rupee"@ }
    else if sym == "₩"@ { "won"@ }
    else if sym == "₿"@ { "bitcoin"@ }
    else { Seq::empty() }
}

pub open spec fn scale_name(s: Seq<char>) -> Seq<char> {
    if s == "K"@ { "thousand"@ }
    else if s == "M"@ { "million"@ }
    else if s == "B"@ { "billion"@ }
    else if s == "T"@ { "trillion"@ }
    else { Seq::empty() }
}

/// Full name of a lower-case unit abbreviation; empty when unknown.
pub open spec fn unit_name(u: Seq<char>) -> Seq<char> {
    if u == "km"@ { "kilometers"@ }
    else if u == "kg"@ { "kilograms"@ }
    else if u == "mg"@ { "milligrams"@ }
    else if u == "ml"@ { "milliliters"@ }
    else if u == "gb"@ { "gigabytes"@ }
    else if u == "mb"@ { "megabytes"@ }
    else if u == "kb"@ { "kilobytes"@ }
    else if u == "tb"@ { "terabytes"@ }
    else if u == "hz"@ { "hertz"@ }
    else if u == "khz"@ { "kilohertz"@ }
    else if u == "mhz"@ { "megahertz"@ }
    else if u == "ghz"@ { "gigahertz"@ }
    else if u == "mph"@ { "miles per hour"@ }
    else if u == "kph"@ { "kilometers per hour"@ }
    else if u == "ms"@ { "milliseconds"@ }
    else if u == "ns"@ { "nanoseconds"@ }
    else if u == "µs"@ { "microseconds"@ }
    else if u == "°c"@ || u == "c°"@ { "degrees Celsius"@ }
    else if u == "°f"@ || u == "f°"@ { "degrees Fahrenheit"@ }
    else { Seq::empty() }
}

pub fn currency_symbol_name(sym: &str) -> (r: &'static str)
    ensures
        r@ == currency_name(sym@),
{
    proof { reveal_strlit(""); }
    if str_eq(sym, "$") { "dollar" }
    else if str_eq(sym, "€") { "euro" }
    else if str_eq(sym, "£") { "pound" }
    else if str_eq(sym, "¥") { "yen" }
    else if str_eq(sym, "₹") { "rupee" }
    else if str_eq(sym, "₩") { "won" }
    else if str_eq(sym, "₿") { "bitcoin" }
    else { "" }
}

pub fn scale_suffix_word(s: &str) -> (r: &'static str)
    ensures
        r@ == scale_name(s@),
{
    proof { reveal_strlit(""); }
    if str_eq(s, "K") { "thousand" }
    else if str_eq(s, "M") { "million" }
    else if str_eq(s, "B") { "billion" }
    else if str_eq(s, "T") { "trillion" }
    else { "" }
}

/// Full name of a unit abbreviation, in any case; empty when unknown.
pub fn unit_expansion(unit: &str) -> (r: &'static str)
    ensures
        r@ == unit_name(lower_of(unit@)),
{
    proof { reveal_strlit(""); }
    let l = to_lower(unit);
    let u = l.as_str();
    if str_eq(u, "km") { "kilometers" }
    else if str_eq(u, "kg") { "kilograms" }
    else if str_eq(u, "mg") { "milligrams" }
    else if str_eq(u, "ml") { "milliliters" }
    else if str_eq(u, "gb") { "gigabytes" }
    else if str_eq(u, "mb") { "megabytes" }
    else if str_eq(u, "kb") { "kilobytes" }
    else if str_eq(u, "tb") { "terabytes" }
    else if str_eq(u, "hz") { "hertz" }
    else if str_eq(u, "khz") { "kilohertz" }
    else if str_eq(u, "mhz") { "megahertz" }
    else if str_eq(u, "ghz") { "gigahertz" }
    else if str_eq(u, "mph") { "miles per hour" }
    else if str_eq(u, "kph") { "kilometers per hour" }
    else if str_eq(u, "ms") { "milliseconds" }
    else if str_eq(u, "ns") { "nanoseconds" }
    else if str_eq(u, "µs") { "microseconds" }
    else if str_eq(u, "°c") || str_eq(u, "c°") { "degrees Celsius" }
    else if str_eq(u, "°f") || str_eq(u, "f°") { "degrees Fahrenheit" }
    else { "" }
}

/// Removes the commas of `s`.
pub fn strip_commas(s: &str) -> (r: String)
    ensures
        r@ == drop_commas(s@),
{
    let cs = chars_of(s);
    let mut out: Vec<char> = Vec::new();
    let mut i: usize = 0;
    while i < cs.len()
        invariant
            i <= cs.len(),
            cs@ == s@,
            out@ == drop_commas(cs@.take(i as int)),
        decreases cs.len() - i,
    {
        assert(cs@.take(i + 1).drop_last() =~= cs@.take(i as int));
        if cs[i] != ',' {
            out.push(cs[i]);
        }
        i += 1;
    }
    assert(cs@.take(i as int) =~= cs@);
    string_of(out.as_slice())
}

/// `s.parse::<i64>().unwrap_or(0)`.
pub fn int_value_or_zero(s: &str) -> (r: i64)
    ensures
        r as int == int_or_zero(s@),
{
    match parse_i64(&chars_of(s)) {
        Some(v) => v,
        None => 0,
    }
}

/// Whether `s` holds a decimal point.
pub fn contains_dot(s: &str) -> (r: bool)
    ensures
        r == has_dot(s@),
{
    let cs = chars_of(s);
    find_char(&cs, '.').is_some()
}

/// An amount read aloud: as a decimal when it holds a point, else as an integer.
pub fn amount_to_words(raw: &str) -> (r: String)
    ensures
        r@ == amount_spoken(raw@),
{
    if contains_dot(raw) {
        float_to_words(raw)
    } else {
        number_to_words(int_value_or_zero(raw))
    }
}

/// A percentage: "fifty percent".
pub open spec fn percent_spoken(amount: Seq<char>) -> Seq<char> {
    amount_spoken(drop_commas(amount)) + " percent"@
}

pub fn percent_words(amount: &str) -> (r: String)
    ensures
        r@ == percent_spoken(amount@),
{
    let raw = strip_commas(amount);
    let mut w = amount_to_words(raw.as_str());
    w.append(" percent");
    w
}

/// Two cent digits: the first two after the point, padded with zeros.
pub open spec fn cent_digits(d: Seq<char>) -> Seq<char> {
    if d.len() >= 2 { d.take(2) } else if d.len() == 1 { d.push('0') } else { "00"@ }
}

/// Whether `s` holds only the digit zero.
pub open spec fn all_zeros(s: Seq<char>) -> bool {
    forall|i: int| 0 <= i < s.len() ==> #[trigger] s[i] == '0'
}

/// `"s"` unless `n` is one.
pub open spec fn plural_s(n: int) -> Seq<char> {
    if n == 1 { Seq::empty() } else { "s"@ }
}

/// A currency amount: "four dollars and ninety-nine cents", "one dollar" for
/// "1.00", "two billion dollars"; the unit is plural unless the amount is
/// exactly one.
pub open spec fn currency_spoken(symbol: Seq<char>, amount: Seq<char>, scale: Seq<char>) -> Seq<char> {
    let raw = drop_commas(amount);
    let unit = currency_name(symbol);
    if scale.len() > 0 {
        amount_spoken(raw) + " "@ + scale_name(scale) + " "@ + unit + "s"@
    } else if has_dot(raw) {
        let dot = index_of(raw, '.');
        let int_words = number_words(int_or_zero(raw.take(dot)));
        let cents = int_or_zero(cent_digits(raw.skip(dot + 1)));
        let one = int_or_zero(raw.take(dot)) == 1 && all_zeros(raw.skip(dot + 1));
        let main = if unit.len() == 0 {
            int_words
        } else {
            int_words + " "@ + unit + if one { Seq::empty() } else { "s"@ }
        };
        if cents > 0 {
            main + " and "@ + number_words(cents) + " cent"@ + plural_s(cents)
        } else {
            main
        }
    } else {
        let val = int_or_zero(raw);
        let words = number_words(val);
        if unit.len() == 0 { words } else { words + " "@ + unit + plural_s(val) }
    }
}

pub fn currency_words(symbol: &str, amount: &str, scale: &str) -> (r: String)
    ensures
        r@ == currency_spoken(symbol@, amount@, scale@),
{
    proof { reveal_strlit(""); reveal_strlit("s"); reveal_strlit("00"); }
    let raw = strip_commas(amount);
    let unit = currency_symbol_name(symbol);
    let sc = chars_of(scale);
    if sc.len() > 0 {
        let mut out = amount_to_words(raw.as_str());
        out.append(" ");
        out.append(scale_suffix_word(scale));
        out.append(" ");
        out.append(unit);
        out.append("s");
        return out;
    }
    let rc = chars_of(raw.as_str());
    match find_char(&rc, '.') {
        Some(dot) => {
            let int_part = crate::text::sub_string(&rc, 0, dot);
            assert(int_part@ =~= raw@.take(dot as int));
            let int_val = int_value_or_zero(int_part.as_str());
            let int_words = number_to_words(int_val);
            let mut zeros = true;
            let mut k: usize = dot + 1;
            while k < rc.len()
                invariant
                    dot < rc.len(),
                    dot + 1 <= k <= rc.len(),
                    zeros == all_zeros(rc@.subrange(dot + 1, k as int)),
                decreases rc.len() - k,
            {
                let ghost old_s = rc@.subrange(dot + 1, k as int);
                let ghost new_s = rc@.subrange(dot + 1, k + 1);
                assert(new_s =~= old_s.push(rc@[k as int]));
                proof {
                    assert(new_s[new_s.len() - 1] == rc@[k as int]);
                    if !all_zeros(old_s) {
                        let i = choose|i: int| 0 <= i < old_s.len() && old_s[i] != '0';
                        assert(new_s[i] == old_s[i]);
                    }
                }
                if rc[k] != '0' {
                    zeros = false;
                }
                k += 1;
            }
            assert(rc@.subrange(dot + 1, k as int) =~= raw@.skip(dot + 1));
            let one = int_val == 1 && zeros;
            let dec_len = rc.len() - dot - 1;
            let mut two: Vec<char> = Vec::new();
            if dec_len >= 2 {
                two.push(rc[dot + 1]);
                two.push(rc[dot + 2]);
            } else if dec_len == 1 {
                two.push(rc[dot + 1]);
                two.push('0');
            } else {
                two.push('0');
                two.push('0');
            }
            assert(two@ =~= cent_digits(raw@.skip(dot + 1)));
            let two_s = string_of(two.as_slice());
            let cents = int_value_or_zero(two_s.as_str());
            let mut out = int_words;
            if chars_of(unit).len() > 0 {
                out.append(" ");
                out.append(unit);
                if !one {
                    out.append("s");
                }
            }
            if cents > 0 {
                out.append(" and ");
                let cw = number_to_words(cents);
                out.append(cw.as_str());
                out.append(" cent");
                if cents != 1 {
                    out.append("s");
                }
            }
            out
        },
        None => {
            let val = int_value_or_zero(raw.as_str());
            let mut out = number_to_words(val);
            if chars_of(unit).len() > 0 {
                out.append(" ");
                out.append(unit);
                if val != 1 {
                    out.append("s");
                }
            }
            out
        },
    }
}

/// A clock time: "ten thirty pm", "nine oh five", "fourteen hundred".
pub open spec fn time_spoken(hour: Seq<char>, minutes: Seq<char>, meridiem: Option<Seq<char>>) -> Seq<char> {
    let h = number_words(int_or_zero(hour));
    let m = int_or_zero(minutes);
    let suffix = match meridiem {
        Some(x) => " "@ + lower_of(x),
        None => Seq::empty(),
    };
    if m == 0 {
        if meridiem is Some { h + suffix } else { h + " hundred"@ }
    } else if m < 10 {
        h + " oh "@ + number_words(m) + suffix
    } else {
        h + " "@ + number_words(m) + suffix
    }
}

pub fn time_words(hour: &str, minutes: &str, meridiem: &Option<String>) -> (r: String)
    ensures
        r@ == time_spoken(hour@, minutes@, match meridiem { Some(x) => Some(x@), None => None }),
{
    proof { reveal_strlit(""); }
    let mut out = number_to_words(int_value_or_zero(hour));
    let m = int_value_or_zero(minutes);
    let suffix = match meridiem {
        Some(x) => {
            let mut sfx = String::from_str(" ");
            let l = to_lower(x.as_str());
            sfx.append(l.as_str());
            sfx
        },
        None => String::new(),
    };
    if m == 0 {
        if meridiem.is_some() {
            out.append(suffix.as_str());
        } else {
            out.append(" hundred");
        }
    } else {
        if m < 10 {
            out.append(" oh ");
        } else {
            out.append(" ");
        }
        let mw = number_to_words(m);
        out.append(mw.as_str());
        out.append(suffix.as_str());
    }
    out
}

/// A numeric range: "five to ten".
pub open spec fn range_spoken(lo: Seq<char>, hi: Seq<char>) -> Seq<char> {
    number_words(int_or_zero(lo)) + " to "@ + number_words(int_or_zero(hi))
}

pub fn range_words(lo: &str, hi: &str) -> (r: String)
    ensures
        r@ == range_spoken(lo@, hi@),
{
    let mut out = number_to_words(int_value_or_zero(lo));
    out.append(" to ");
    let h = number_to_words(int_value_or_zero(hi));
    out.append(h.as_str());
    out
}

/// An amount with a unit: "five kilometers"; an unknown unit is kept as written.
pub open spec fn unit_spoken(amount: Seq<char>, unit: Seq<char>) -> Seq<char> {
    let name = unit_name(lower_of(unit));
    amount_spoken(amount) + " "@ + if name.len() > 0 { name } else { unit }
}

pub fn unit_words(amount: &str, unit: &str) -> (r: String)
    ensures
        r@ == unit_spoken(amount@, unit@),
{
    let mut out = amount_to_words(amount);
    out.append(" ");
    let name = unit_expansion(unit);
    if chars_of(name).len() > 0 {
        out.append(name);
    } else {
        out.append(unit);
    }
    out
}

/// An amount with a scale letter: "seven billion".
pub open spec fn scale_spoken(amount: Seq<char>, suffix: Seq<char>) -> Seq<char> {
    amount_spoken(amount) + " "@ + scale_name(suffix)
}

pub fn scale_words(amount: &str, suffix: &str) -> (r: String)
    ensures
        r@ == scale_spoken(amount@, suffix@),
{
    let mut out = amount_to_words(amount);
    out.append(" ");
    out.append(scale_suffix_word(suffix));
    out
}

pub open spec fn abs(n: int) -> nat {
    if n < 0 { (-n) as nat } else { n as nat }
}

/// Scientific notation: "one times ten to the negative four".
pub open spec fn scientific_spoken(coeff: Seq<char>, exp: Seq<char>) -> Seq<char> {
    let e = int_or_zero(exp);
    amount_spoken(coeff) + " times ten to the "@ + (if e < 0 { "negative "@ } else { Seq::empty() })
        + nonneg_words(abs(e))
}

pub fn scientific_words(coeff: &str, exp: &str) -> (r: String)
    ensures
        r@ == scientific_spoken(coeff@, exp@),
{
    proof { reveal_strlit(""); }
    let e = int_value_or_zero(exp);
    let mut out = amount_to_words(coeff);
    out.append(" times ten to the ");
    if e < 0 {
        out.append("negative ");
    }
    let mag: u64 = if e == i64::MIN { 0x8000_0000_0000_0000 } else if e < 0 { (-e) as u64 } else { e as u64 };
    let ew = nonneg_to_words(mag);
    out.append(ew.as_str());
    out
}

/// A fraction: "one half", "three quarters", "two fifths"; a zero
/// denominator leaves `whole` as it is.
pub open spec fn fraction_spoken(whole: Seq<char>, num: Seq<char>, den: Seq<char>) -> Seq<char> {
    let n = int_or_zero(num);
    let d = match parse_i64_spec(den) {
        Some(v) => v,
        None => 1,
    };
    let denom = if d == 2 {
        if n == 1 { "half"@ } else { "halves"@ }
    } else if d == 4 {
        if n == 1 { "quarter"@ } else { "quarters"@ }
    } else {
        ordinal_words(d) + if n != 1 { "s"@ } else { Seq::empty() }
    };
    if d == 0 { whole } else { number_words(n) + " "@ + denom }
}

pub fn fraction_words(whole: &str, num: &str, den: &str) -> (r: String)
    ensures
        r@ == fraction_spoken(whole@, num@, den@),
{
    let n = int_value_or_zero(num);
    let d = match parse_i64(&chars_of(den)) {
        Some(v) => v,
        None => 1,
    };
    if d == 0 {
        return String::from_str(whole);
    }
    let mut out = number_to_words(n);
    out.append(" ");
    if d == 2 {
        out.append(if n == 1 { "half" } else { "halves" });
    } else if d == 4 {
        out.append(if n == 1 { "quarter" } else { "quarters" });
    } else {
        let o = ordinal_suffix(d);
        out.append(o.as_str());
        if n != 1 {
            out.append("s");
        }
    }
    proof { reveal_strlit(""); }
    out
}

/// Name of the decade whose tens digit is `d`.
pub open spec fn decade_name(d: int) -> Seq<char> {
    if d == 0 { "hundreds"@ }
    else if d == 1 { "tens"@ }
    else if d == 2 { "twenties"@ }
    else if d == 3 { "thirties"@ }
    else if d == 4 { "forties"@ }
    else if d == 5 { "fifties"@ }
    else if d == 6 { "sixties"@ }
    else if d == 7 { "seventies"@ }
    else if d == 8 { "eighties"@ }
    else if d == 9 { "nineties"@ }
    else { Seq::empty() }
}

/// The decade word of a base (the number before the final "0s").
pub open spec fn decade_of(base: int) -> Seq<char> {
    if base >= 0 {
        decade_name(base % 10)
    } else if (-base) % 10 == 0 {
        "hundreds"@
    } else {
        Seq::empty()
    }
}

/// A decade: "nineteen nineties" for base "199", "eighties" for "8".
pub open spec fn decade_spoken(base: Seq<char>) -> Seq<char> {
    let b = int_or_zero(base);
    if b < 10 { decade_of(b) } else { number_words(b / 10) + " "@ + decade_of(b) }
}

fn decade_str(d: u64) -> (r: &'static str)
    ensures
        r@ == decade_name(d as int),
{
    proof { reveal_strlit(""); }
    if d == 0 { "hundreds" }
    else if d == 1 { "tens" }
    else if d == 2 { "twenties" }
    else if d == 3 { "thirties" }
    else if d == 4 { "forties" }
    else if d == 5 { "fifties" }
    else if d == 6 { "sixties" }
    else if d == 7 { "seventies" }
    else if d == 8 { "eighties" }
    else if d == 9 { "nineties" }
    else { "" }
}

pub fn decade_words(base: &str) -> (r: String)
    ensures
        r@ == decade_spoken(base@),
{
    proof { reveal_strlit(""); }
    let b = int_value_or_zero(base);
    let word: &'static str = if b >= 0 {
        decade_str((b % 10) as u64)
    } else {
        let mag: u64 = if b == i64::MIN { 0x8000_0000_0000_0000 } else { (-b) as u64 };
        if mag % 10 == 0 { "hundreds" } else { "" }
    };
    if b < 10 {
        String::from_str(word)
    } else {
        let mut out = number_to_words(b / 10);
        out.append(" ");
        out.append(word);
        out
    }
}

/// Groups of digits read digit by digit and joined by `sep`.
pub open spec fn groups_spoken(groups: Seq<Seq<char>>, sep: Seq<char>) -> Seq<char> {
    join(groups.map_values(|g: Seq<char>| digits_spoken(g)), sep)
}

pub fn digit_groups_words(groups: &Vec<String>, sep: &str) -> (r: String)
    ensures
        r@ == groups_spoken(views(groups@), sep@),
{
    let mut parts: Vec<String> = Vec::new();
    let mut i: usize = 0;
    while i < groups.len()
        invariant
            i <= groups.len(),
            views(parts@) == views(groups@).take(i as int).map_values(|g: Seq<char>| digits_spoken(g)),
        decreases groups.len() - i,
    {
        let ghost before = parts@;
        parts.push(digits_to_words(groups[i].as_str()));
        assert(views(parts@) =~= views(before).push(digits_spoken(groups@[i as int]@)));
        assert(views(parts@) =~= views(groups@).take(i + 1).map_values(|g: Seq<char>| digits_spoken(g)));
        i += 1;
    }
    assert(views(groups@).take(i as int) =~= views(groups@));
    join_strings(&parts, sep)
}

/// A bare number: commas dropped, decimals digit by digit; a token that does
/// not read as an integer is kept.
pub open spec fn number_token_spoken(tok: Seq<char>) -> Seq<char> {
    let raw = drop_commas(tok);
    if has_dot(raw) {
        decimal_words(raw)
    } else {
        match parse_i64_spec(raw) {
            Some(n) => number_words(n),
            None => tok,
        }
    }
}

pub fn number_token_words(tok: &str) -> (r: String)
    ensures
        r@ == number_token_spoken(tok@),
{
    let raw = strip_commas(tok);
    if contains_dot(raw.as_str()) {
        float_to_words(raw.as_str())
    } else {
        match parse_i64(&chars_of(raw.as_str())) {
            Some(n) => number_to_words(n),
            None => String::from_str(tok),
        }
    }
}

} // verus!
