//! The rewrite rules of the normaliser: each is a pattern and a replacement
//! computed from the match's capture groups.

use vstd::prelude::*;
use crate::numwords::ordinal_words;
use crate::spoken::{
    currency_spoken, currency_words, decade_spoken, decade_words, digit_groups_words,
    fraction_spoken, fraction_words, groups_spoken, int_value_or_zero, number_token_spoken,
    number_token_words, percent_spoken, percent_words, range_spoken, range_words,
    scale_spoken, scale_words, scientific_spoken, scientific_words, time_spoken, time_words,
    unit_spoken, unit_words,
};
use crate::digits::int_or_zero;
use crate::numwords::ordinal_suffix;
use crate::text::views;

verus! {

/// Capture groups of one match, group 0 being the whole match.
pub type Groups = Seq<Option<Seq<char>>>;

/// The matches of a pattern in a text, in order: for each, the text since the
/// previous match and its groups; then the text after the last match.
pub type ScanView = (Seq<(Seq<char>, Groups)>, Seq<char>);

/// What fancy-regex finds for `pattern` in `text` (see `regex_captures`).
pub uninterp spec fn regex_scan(pattern: Seq<char>, text: Seq<char>) -> Option<ScanView>;

pub open spec fn opt_views(g: Seq<Option<String>>) -> Groups {
    g.map_values(|o: Option<String>| match o {
        Some(s) => Some(s@),
        None => None,
    })
}

pub open spec fn hits_view(h: Seq<(String, Vec<Option<String>>)>) -> Seq<(Seq<char>, Groups)> {
    h.map_values(|p: (String, Vec<Option<String>>)| (p.0@, opt_views(p.1@)))
}

pub open spec fn scan_view(r: Option<(Vec<(String, Vec<Option<String>>)>, String)>) -> Option<ScanView> {
    match r {
        Some(x) => Some((hits_view(x.0@), x.1@)),
        None => None,
    }
}

/// Relies on `fancy_regex::Regex::new` and `Regex::captures_iter`: the
/// successive non-overlapping matches of `pattern` in `text`, each with the
/// text before it and its capture groups, then the text after the last
/// match. `None` when the pattern does not compile or matching fails.
#[verifier::external_body]
fn regex_captures(pattern: &str, text: &str) -> (r: Option<(Vec<(String, Vec<Option<String>>)>, String)>)
    ensures
        scan_view(r) == regex_scan(pattern@, text@),
{
    let re = fancy_regex::Regex::new(pattern).ok()?;
    let mut hits = Vec::new();
    let mut last: usize = 0;
    for caps in re.captures_iter(text) {
        let caps = caps.ok()?;
        let whole = caps.get(0)?;
        let groups = caps.iter().map(|g| g.map(|m| m.as_str().to_string())).collect();
        hits.push((text[last..whole.start()].to_string(), groups));
        last = whole.end();
    }
    Some((hits, text[last..].to_string()))
}

/// The rewrite rules.
#[derive(Clone, Copy, PartialEq, Eq, Debug, Structural)]
pub enum Rule {
    HtmlTag,
    Url,
    Email,
    Cant,
    Wont,
    Shant,
    Aint,
    Lets,
    Its,
    NotSuffix,
    AreSuffix,
    HaveSuffix,
    WillSuffix,
    WouldSuffix,
    AmSuffix,
    IpAddress,
    NegLeadingDecimal,
    LeadingDecimal,
    Currency,
    Percent,
    Scientific,
    Time,
    Ordinal,
    Unit,
    Scale,
    Fraction,
    Decade,
    Phone11,
    Phone10,
    Phone7,
    Range,
    ModelName,
    Number,
    Punctuation,
    Spaces,
}

/// The pattern of each rule.
pub open spec fn pattern_of(rule: Rule) -> Seq<char> {
    match rule {
        Rule::HtmlTag => r"<[^>]+>"@,
        Rule::Url => r"https?://\S+|www\.\S+"@,
        Rule::Email => r"(?i)\b[\w.+-]+@[\w-]+\.[a-z]{2,}\b"@,
        Rule::Cant => r"(?i)\bcan't\b"@,
        Rule::Wont => r"(?i)\bwon't\b"@,
        Rule::Shant => r"(?i)\bshan't\b"@,
        Rule::Aint => r"(?i)\bain't\b"@,
        Rule::Lets => r"(?i)\blet's\b"@,
        Rule::Its => r"(?i)\bit's\b"@,
        Rule::NotSuffix => r"(?i)\b(\w+)n't\b"@,
        Rule::AreSuffix => r"(?i)\b(\w+)'re\b"@,
        Rule::HaveSuffix => r"(?i)\b(\w+)'ve\b"@,
        Rule::WillSuffix => r"(?i)\b(\w+)'ll\b"@,
        Rule::WouldSuffix => r"(?i)\b(\w+)'d\b"@,
        Rule::AmSuffix => r"(?i)\b(\w+)'m\b"@,
        Rule::IpAddress => r"\b(\d{1,3})\.(\d{1,3})\.(\d{1,3})\.(\d{1,3})\b"@,
        Rule::NegLeadingDecimal => r"(?<!\d)(-)\.(\d)"@,
        Rule::LeadingDecimal => r"(?<!\d)\.(\d)"@,
        Rule::Currency => r"([$€£¥₹₩₿])\s*([\d,]+(?:\.\d+)?)\s*([KMBT])?(?![a-zA-Z\d])"@,
        Rule::Percent => r"(-?[\d,]+(?:\.\d+)?)\s*%"@,
        Rule::Scientific => r"(?<![a-zA-Z\d])(-?\d+(?:\.\d+)?)[eE]([+-]?\d+)(?![a-zA-Z\d])"@,
        Rule::Time => r"(?i)\b(\d{1,2}):(\d{2})(?::\d{2})?\s*(am|pm)?\b"@,
        Rule::Ordinal => r"(?i)\b(\d+)(st|nd|rd|th)\b"@,
        Rule::Unit => r"(?i)(\d+(?:\.\d+)?)\s*(km|kg|mg|ml|gb|mb|kb|tb|hz|khz|mhz|ghz|mph|kph|°[cCfF]|[cCfF]°|ms|ns|µs)\b"@,
        Rule::Scale => r"(?<![a-zA-Z])(\d+(?:\.\d+)?)\s*([KMBT])(?![a-zA-Z\d])"@,
        Rule::Fraction => r"\b(\d+)\s*/\s*(\d+)\b"@,
        Rule::Decade => r"\b(\d{1,3})0s\b"@,
        Rule::Phone11 => r"(?<!\d-)\b(\d{1,2})-(\d{3})-(\d{3})-(\d{4})\b(?!-\d)"@,
        Rule::Phone10 => r"(?<!\d-)\b(\d{3})-(\d{3})-(\d{4})\b(?!-\d)"@,
        Rule::Phone7 => r"(?<!\d-)\b(\d{3})-(\d{4})\b(?!-\d)"@,
        Rule::Range => r"(?<!\w)(\d+)-(\d+)(?!\w)"@,
        Rule::ModelName => r"\b([a-zA-Z][a-zA-Z0-9]*)-(\d[\d.]*)(?=[^\d.]|$)"@,
        Rule::Number => r"(?<![a-zA-Z])-?[\d,]+(?:\.\d+)?"@,
        Rule::Punctuation => r"[^\w\s]"@,
        Rule::Spaces => r"\s+"@,
    }
}

pub fn pattern(rule: Rule) -> (r: &'static str)
    ensures
        r@ == pattern_of(rule),
{
    match rule {
        Rule::HtmlTag => r"<[^>]+>",
        Rule::Url => r"https?://\S+|www\.\S+",
        Rule::Email => r"(?i)\b[\w.+-]+@[\w-]+\.[a-z]{2,}\b",
        Rule::Cant => r"(?i)\bcan't\b",
        Rule::Wont => r"(?i)\bwon't\b",
        Rule::Shant => r"(?i)\bshan't\b",
        Rule::Aint => r"(?i)\bain't\b",
        Rule::Lets => r"(?i)\blet's\b",
        Rule::Its => r"(?i)\bit's\b",
        Rule::NotSuffix => r"(?i)\b(\w+)n't\b",
        Rule::AreSuffix => r"(?i)\b(\w+)'re\b",
        Rule::HaveSuffix => r"(?i)\b(\w+)'ve\b",
        Rule::WillSuffix => r"(?i)\b(\w+)'ll\b",
        Rule::WouldSuffix => r"(?i)\b(\w+)'d\b",
        Rule::AmSuffix => r"(?i)\b(\w+)'m\b",
        Rule::IpAddress => r"\b(\d{1,3})\.(\d{1,3})\.(\d{1,3})\.(\d{1,3})\b",
        Rule::NegLeadingDecimal => r"(?<!\d)(-)\.(\d)",
        Rule::LeadingDecimal => r"(?<!\d)\.(\d)",
        Rule::Currency => r"([$€£¥₹₩₿])\s*([\d,]+(?:\.\d+)?)\s*([KMBT])?(?![a-zA-Z\d])",
        Rule::Percent => r"(-?[\d,]+(?:\.\d+)?)\s*%",
        Rule::Scientific => r"(?<![a-zA-Z\d])(-?\d+(?:\.\d+)?)[eE]([+-]?\d+)(?![a-zA-Z\d])",
        Rule::Time => r"(?i)\b(\d{1,2}):(\d{2})(?::\d{2})?\s*(am|pm)?\b",
        Rule::Ordinal => r"(?i)\b(\d+)(st|nd|rd|th)\b",
        Rule::Unit => r"(?i)(\d+(?:\.\d+)?)\s*(km|kg|mg|ml|gb|mb|kb|tb|hz|khz|mhz|ghz|mph|kph|°[cCfF]|[cCfF]°|ms|ns|µs)\b",
        Rule::Scale => r"(?<![a-zA-Z])(\d+(?:\.\d+)?)\s*([KMBT])(?![a-zA-Z\d])",
        Rule::Fraction => r"\b(\d+)\s*/\s*(\d+)\b",
        Rule::Decade => r"\b(\d{1,3})0s\b",
        Rule::Phone11 => r"(?<!\d-)\b(\d{1,2})-(\d{3})-(\d{3})-(\d{4})\b(?!-\d)",
        Rule::Phone10 => r"(?<!\d-)\b(\d{3})-(\d{3})-(\d{4})\b(?!-\d)",
        Rule::Phone7 => r"(?<!\d-)\b(\d{3})-(\d{4})\b(?!-\d)",
        Rule::Range => r"(?<!\w)(\d+)-(\d+)(?!\w)",
        Rule::ModelName => r"\b([a-zA-Z][a-zA-Z0-9]*)-(\d[\d.]*)(?=[^\d.]|$)",
        Rule::Number => r"(?<![a-zA-Z])-?[\d,]+(?:\.\d+)?",
        Rule::Punctuation => r"[^\w\s]",
        Rule::Spaces => r"\s+",
    }
}

/// Group `i` of a match; empty when it took no part.
pub open spec fn grp(g: Groups, i: int) -> Seq<char> {
    if 0 <= i < g.len() {
        match g[i] {
            Some(s) => s,
            None => Seq::empty(),
        }
    } else {
        Seq::empty()
    }
}

/// Group `i` of a match where it took part.
pub open spec fn opt_grp(g: Groups, i: int) -> Option<Seq<char>> {
    if 0 <= i < g.len() { g[i] } else { None }
}

/// What a match of `rule` with groups `g` is replaced by.
pub open spec fn replacement_of(rule: Rule, g: Groups) -> Seq<char> {
    match rule {
        Rule::HtmlTag => " "@,
        Rule::Url => Seq::empty(),
        Rule::Email => Seq::empty(),
        Rule::Cant => "cannot"@,
        Rule::Wont => "will not"@,
        Rule::Shant => "shall not"@,
        Rule::Aint => "is not"@,
        Rule::Lets => "let us"@,
        Rule::Its => "it is"@,
        Rule::NotSuffix => grp(g, 1) + " not"@,
        Rule::AreSuffix => grp(g, 1) + " are"@,
        Rule::HaveSuffix => grp(g, 1) + " have"@,
        Rule::WillSuffix => grp(g, 1) + " will"@,
        Rule::WouldSuffix => grp(g, 1) + " would"@,
        Rule::AmSuffix => grp(g, 1) + " am"@,
        Rule::IpAddress => groups_spoken(seq![grp(g, 1), grp(g, 2), grp(g, 3), grp(g, 4)], " dot "@),
        Rule::NegLeadingDecimal => grp(g, 1) + "0."@ + grp(g, 2),
        Rule::LeadingDecimal => "0."@ + grp(g, 1),
        Rule::Currency => currency_spoken(grp(g, 1), grp(g, 2), grp(g, 3)),
        Rule::Percent => percent_spoken(grp(g, 1)),
        Rule::Scientific => scientific_spoken(grp(g, 1), grp(g, 2)),
        Rule::Time => time_spoken(grp(g, 1), grp(g, 2), opt_grp(g, 3)),
        Rule::Ordinal => ordinal_words(int_or_zero(grp(g, 1))),
        Rule::Unit => unit_spoken(grp(g, 1), grp(g, 2)),
        Rule::Scale => scale_spoken(grp(g, 1), grp(g, 2)),
        Rule::Fraction => fraction_spoken(grp(g, 0), grp(g, 1), grp(g, 2)),
        Rule::Decade => decade_spoken(grp(g, 1)),
        Rule::Phone11 => groups_spoken(seq![grp(g, 1), grp(g, 2), grp(g, 3), grp(g, 4)], " "@),
        Rule::Phone10 => groups_spoken(seq![grp(g, 1), grp(g, 2), grp(g, 3)], " "@),
        Rule::Phone7 => groups_spoken(seq![grp(g, 1), grp(g, 2)], " "@),
        Rule::Range => range_spoken(grp(g, 1), grp(g, 2)),
        Rule::ModelName => grp(g, 1) + " "@ + grp(g, 2),
        Rule::Number => number_token_spoken(grp(g, 0)),
        Rule::Punctuation => " "@,
        Rule::Spaces => " "@,
    }
}

fn group_at(g: &Vec<Option<String>>, i: usize) -> (r: String)
    ensures
        r@ == grp(opt_views(g@), i as int),
{
    if i < g.len() {
        match &g[i] {
            Some(s) => s.clone(),
            None => String::new(),
        }
    } else {
        String::new()
    }
}

fn opt_group_at(g: &Vec<Option<String>>, i: usize) -> (r: Option<String>)
    ensures
        match r {
            Some(s) => opt_grp(opt_views(g@), i as int) == Some(s@),
            None => opt_grp(opt_views(g@), i as int) is None,
        },
{
    if i < g.len() {
        match &g[i] {
            Some(s) => Some(s.clone()),
            None => None,
        }
    } else {
        None
    }
}

fn append_group(g: &Vec<Option<String>>, i: usize, tail: &str) -> (r: String)
    ensures
        r@ == grp(opt_views(g@), i as int) + tail@,
{
    let mut out = group_at(g, i);
    out.append(tail);
    out
}

fn digit_groups(g: &Vec<Option<String>>, n: usize, sep: &str) -> (r: String)
    requires
        n <= 4,
    ensures
        r@ == groups_spoken(Seq::new(n as nat, |k: int| grp(opt_views(g@), k + 1)), sep@),
{
    let mut gs: Vec<String> = Vec::new();
    let mut k: usize = 0;
    while k < n
        invariant
            k <= n <= 4,
            views(gs@) == Seq::new(k as nat, |j: int| grp(opt_views(g@), j + 1)),
        decreases n - k,
    {
        let ghost before = gs@;
        gs.push(group_at(g, k + 1));
        assert(views(gs@) =~= views(before).push(grp(opt_views(g@), k + 1)));
        assert(views(gs@) =~= Seq::new((k + 1) as nat, |j: int| grp(opt_views(g@), j + 1)));
        k += 1;
    }
    digit_groups_words(&gs, sep)
}

/// The replacement for one match of `rule`.
pub fn replacement(rule: Rule, g: &Vec<Option<String>>) -> (r: String)
    ensures
        r@ == replacement_of(rule, opt_views(g@)),
{
    proof { reveal_strlit(""); }
    let ghost gv = opt_views(g@);
    match rule {
        Rule::HtmlTag => String::from_str(" "),
        Rule::Url => String::new(),
        Rule::Email => String::new(),
        Rule::Cant => String::from_str("cannot"),
        Rule::Wont => String::from_str("will not"),
        Rule::Shant => String::from_str("shall not"),
        Rule::Aint => String::from_str("is not"),
        Rule::Lets => String::from_str("let us"),
        Rule::Its => String::from_str("it is"),
        Rule::NotSuffix => append_group(g, 1, " not"),
        Rule::AreSuffix => append_group(g, 1, " are"),
        Rule::HaveSuffix => append_group(g, 1, " have"),
        Rule::WillSuffix => append_group(g, 1, " will"),
        Rule::WouldSuffix => append_group(g, 1, " would"),
        Rule::AmSuffix => append_group(g, 1, " am"),
        Rule::IpAddress => {
            let r = digit_groups(g, 4, " dot ");
            assert(Seq::new(4, |k: int| grp(gv, k + 1)) =~= seq![grp(gv, 1), grp(gv, 2), grp(gv, 3), grp(gv, 4)]);
            r
        },
        Rule::NegLeadingDecimal => {
            let mut out = append_group(g, 1, "0.");
            let b = group_at(g, 2);
            out.append(b.as_str());
            out
        },
        Rule::LeadingDecimal => {
            let mut out = String::from_str("0.");
            let b = group_at(g, 1);
            out.append(b.as_str());
            out
        },
        Rule::Currency => {
            let a = group_at(g, 1);
            let b = group_at(g, 2);
            let c = group_at(g, 3);
            currency_words(a.as_str(), b.as_str(), c.as_str())
        },
        Rule::Percent => {
            let a = group_at(g, 1);
            percent_words(a.as_str())
        },
        Rule::Scientific => {
            let a = group_at(g, 1);
            let b = group_at(g, 2);
            scientific_words(a.as_str(), b.as_str())
        },
        Rule::Time => {
            let a = group_at(g, 1);
            let b = group_at(g, 2);
            let c = opt_group_at(g, 3);
            time_words(a.as_str(), b.as_str(), &c)
        },
        Rule::Ordinal => {
            let a = group_at(g, 1);
            ordinal_suffix(int_value_or_zero(a.as_str()))
        },
        Rule::Unit => {
            let a = group_at(g, 1);
            let b = group_at(g, 2);
            unit_words(a.as_str(), b.as_str())
        },
        Rule::Scale => {
            let a = group_at(g, 1);
            let b = group_at(g, 2);
            scale_words(a.as_str(), b.as_str())
        },
        Rule::Fraction => {
            let w = group_at(g, 0);
            let a = group_at(g, 1);
            let b = group_at(g, 2);
            fraction_words(w.as_str(), a.as_str(), b.as_str())
        },
        Rule::Decade => {
            let a = group_at(g, 1);
            decade_words(a.as_str())
        },
        Rule::Phone11 => {
            let r = digit_groups(g, 4, " ");
            assert(Seq::new(4, |k: int| grp(gv, k + 1)) =~= seq![grp(gv, 1), grp(gv, 2), grp(gv, 3), grp(gv, 4)]);
            r
        },
        Rule::Phone10 => {
            let r = digit_groups(g, 3, " ");
            assert(Seq::new(3, |k: int| grp(gv, k + 1)) =~= seq![grp(gv, 1), grp(gv, 2), grp(gv, 3)]);
            r
        },
        Rule::Phone7 => {
            let r = digit_groups(g, 2, " ");
            assert(Seq::new(2, |k: int| grp(gv, k + 1)) =~= seq![grp(gv, 1), grp(gv, 2)]);
            r
        },
        Rule::Range => {
            let a = group_at(g, 1);
            let b = group_at(g, 2);
            range_words(a.as_str(), b.as_str())
        },
        Rule::ModelName => {
            let mut out = append_group(g, 1, " ");
            let b = group_at(g, 2);
            out.append(b.as_str());
            out
        },
        Rule::Number => {
            let a = group_at(g, 0);
            number_token_words(a.as_str())
        },
        Rule::Punctuation => String::from_str(" "),
        Rule::Spaces => String::from_str(" "),
    }
}

/// The text rebuilt from the matches `hits`, each replaced as `rule` says.
pub open spec fn splice(rule: Rule, hits: Seq<(Seq<char>, Groups)>) -> Seq<char>
    decreases hits.len(),
{
    if hits.len() == 0 {
        Seq::empty()
    } else {
        splice(rule, hits.drop_last()) + hits.last().0 + replacement_of(rule, hits.last().1)
    }
}

/// `text` with every match of the rule's pattern replaced; unchanged when the
/// pattern engine reports a failure.
pub open spec fn rewritten(rule: Rule, text: Seq<char>) -> Seq<char> {
    match regex_scan(pattern_of(rule), text) {
        Some(scan) => splice(rule, scan.0) + scan.1,
        None => text,
    }
}

/// Applies one rule to `text`.
pub fn apply_rule(rule: Rule, text: &str) -> (r: String)
    ensures
        r@ == rewritten(rule, text@),
{
    match regex_captures(pattern(rule), text) {
        None => String::from_str(text),
        Some(scan) => {
            let hits = &scan.0;
            let ghost hv = hits_view(hits@);
            let mut out = String::new();
            let mut i: usize = 0;
            while i < hits.len()
                invariant
                    i <= hits.len(),
                    hv == hits_view(hits@),
                    out@ == splice(rule, hv.take(i as int)),
                decreases hits.len() - i,
            {
                out.append(hits[i].0.as_str());
                let rep = replacement(rule, &hits[i].1);
                out.append(rep.as_str());
                assert(hv.take(i + 1).drop_last() =~= hv.take(i as int));
                i += 1;
            }
            assert(hv.take(i as int) =~= hv);
            out.append(scan.1.as_str());
            out
        },
    }
}

} // verus!
