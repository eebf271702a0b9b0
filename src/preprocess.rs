//! The text normaliser: an ordered chain of rewrite passes from raw text to
//! a spoken-word form.

use vstd::prelude::*;
use crate::rules::{apply_rule, rewritten, Rule};
use crate::text::{lower_of, to_lower, trim, trimmed};

verus! {

/// Rules applied one after another, first to last.
pub open spec fn rewritten_all(rules: Seq<Rule>, text: Seq<char>) -> Seq<char>
    decreases rules.len(),
{
    if rules.len() == 0 {
        text
    } else {
        rewritten(rules.last(), rewritten_all(rules.drop_last(), text))
    }
}

/// The contraction rules, in the order they apply.
pub open spec fn contraction_rules() -> Seq<Rule> {
    seq![
        Rule::Cant, Rule::Wont, Rule::Shant, Rule::Aint, Rule::Lets, Rule::Its,
        Rule::NotSuffix, Rule::AreSuffix, Rule::HaveSuffix, Rule::WillSuffix,
        Rule::WouldSuffix, Rule::AmSuffix,
    ]
}

/// The phone-number rules, longest first.
pub open spec fn phone_rules() -> Seq<Rule> {
    seq![Rule::Phone11, Rule::Phone10, Rule::Phone7]
}

/// The leading-decimal rules: "-.5" first, then ".5".
pub open spec fn leading_decimal_rules() -> Seq<Rule> {
    seq![Rule::NegLeadingDecimal, Rule::LeadingDecimal]
}

fn apply_rules(rules: &Vec<Rule>, text: &str) -> (r: String)
    ensures
        r@ == rewritten_all(rules@, text@),
{
    let mut out = String::from_str(text);
    let mut i: usize = 0;
    while i < rules.len()
        invariant
            i <= rules.len(),
            out@ == rewritten_all(rules@.take(i as int), text@),
        decreases rules.len() - i,
    {
        out = apply_rule(rules[i], out.as_str());
        assert(rules@.take(i + 1).drop_last() =~= rules@.take(i as int));
        i += 1;
    }
    assert(rules@.take(i as int) =~= rules@);
    out
}

pub fn expand_ordinals(text: &str) -> (r: String)
    ensures
        r@ == rewritten(Rule::Ordinal, text@),
{
    apply_rule(Rule::Ordinal, text)
}

pub fn expand_percentages(text: &str) -> (r: String)
    ensures
        r@ == rewritten(Rule::Percent, text@),
{
    apply_rule(Rule::Percent, text)
}

pub fn expand_currency(text: &str) -> (r: String)
    ensures
        r@ == rewritten(Rule::Currency, text@),
{
    apply_rule(Rule::Currency, text)
}

pub fn expand_time(text: &str) -> (r: String)
    ensures
        r@ == rewritten(Rule::Time, text@),
{
    apply_rule(Rule::Time, text)
}

pub fn expand_ranges(text: &str) -> (r: String)
    ensures
        r@ == rewritten(Rule::Range, text@),
{
    apply_rule(Rule::Range, text)
}

pub fn expand_model_names(text: &str) -> (r: String)
    ensures
        r@ == rewritten(Rule::ModelName, text@),
{
    apply_rule(Rule::ModelName, text)
}

pub fn expand_units(text: &str) -> (r: String)
    ensures
        r@ == rewritten(Rule::Unit, text@),
{
    apply_rule(Rule::Unit, text)
}

pub fn expand_scale_suffixes(text: &str) -> (r: String)
    ensures
        r@ == rewritten(Rule::Scale, text@),
{
    apply_rule(Rule::Scale, text)
}

pub fn expand_scientific_notation(text: &str) -> (r: String)
    ensures
        r@ == rewritten(Rule::Scientific, text@),
{
    apply_rule(Rule::Scientific, text)
}

pub fn expand_fractions(text: &str) -> (r: String)
    ensures
        r@ == rewritten(Rule::Fraction, text@),
{
    apply_rule(Rule::Fraction, text)
}

pub fn expand_decades(text: &str) -> (r: String)
    ensures
        r@ == rewritten(Rule::Decade, text@),
{
    apply_rule(Rule::Decade, text)
}

pub fn expand_ip_addresses(text: &str) -> (r: String)
    ensures
        r@ == rewritten(Rule::IpAddress, text@),
{
    apply_rule(Rule::IpAddress, text)
}

/// Phone numbers of eleven, ten and seven digits, in that order.
pub fn expand_phone_numbers(text: &str) -> (r: String)
    ensures
        r@ == rewritten_all(phone_rules(), text@),
{
    let rules = vec![Rule::Phone11, Rule::Phone10, Rule::Phone7];
    assert(rules@ =~= phone_rules());
    apply_rules(&rules, text)
}

/// ".5" becomes "0.5" and "-.5" becomes "-0.5".
pub fn normalize_leading_decimals(text: &str) -> (r: String)
    ensures
        r@ == rewritten_all(leading_decimal_rules(), text@),
{
    let rules = vec![Rule::NegLeadingDecimal, Rule::LeadingDecimal];
    assert(rules@ =~= leading_decimal_rules());
    apply_rules(&rules, text)
}

pub fn replace_numbers(text: &str) -> (r: String)
    ensures
        r@ == rewritten(Rule::Number, text@),
{
    apply_rule(Rule::Number, text)
}

pub fn expand_contractions(text: &str) -> (r: String)
    ensures
        r@ == rewritten_all(contraction_rules(), text@),
{
    let rules = vec![
        Rule::Cant, Rule::Wont, Rule::Shant, Rule::Aint, Rule::Lets, Rule::Its,
        Rule::NotSuffix, Rule::AreSuffix, Rule::HaveSuffix, Rule::WillSuffix,
        Rule::WouldSuffix, Rule::AmSuffix,
    ];
    assert(rules@ =~= contraction_rules());
    apply_rules(&rules, text)
}

pub fn remove_urls(text: &str) -> (r: String)
    ensures
        r@ == rewritten(Rule::Url, text@),
{
    apply_rule(Rule::Url, text)
}

pub fn remove_emails(text: &str) -> (r: String)
    ensures
        r@ == rewritten(Rule::Email, text@),
{
    apply_rule(Rule::Email, text)
}

pub fn remove_html_tags(text: &str) -> (r: String)
    ensures
        r@ == rewritten(Rule::HtmlTag, text@),
{
    apply_rule(Rule::HtmlTag, text)
}

pub fn remove_punctuation(text: &str) -> (r: String)
    ensures
        r@ == rewritten(Rule::Punctuation, text@),
{
    apply_rule(Rule::Punctuation, text)
}

/// Trims both ends, then turns each run of white space into one space.
pub fn remove_extra_whitespace(text: &str) -> (r: String)
    ensures
        r@ == rewritten(Rule::Spaces, trimmed(text@)),
{
    let t = trim(text);
    apply_rule(Rule::Spaces, t.as_str())
}

/// Which passes of the normaliser run.
#[derive(Clone, Copy, Debug)]
pub struct PreprocessorConfig {
    pub lowercase: bool,
    pub replace_numbers: bool,
    pub expand_contractions: bool,
    pub expand_model_names: bool,
    pub expand_ordinals: bool,
    pub expand_percentages: bool,
    pub expand_currency: bool,
    pub expand_time: bool,
    pub expand_ranges: bool,
    pub expand_units: bool,
    pub expand_scale_suffixes: bool,
    pub expand_scientific_notation: bool,
    pub expand_fractions: bool,
    pub expand_decades: bool,
    pub expand_phone_numbers: bool,
    pub expand_ip_addresses: bool,
    pub normalize_leading_decimals: bool,
    pub remove_urls: bool,
    pub remove_emails: bool,
    pub remove_html: bool,
    pub remove_punctuation: bool,
    pub remove_extra_whitespace: bool,
}

/// Every pass on.
pub open spec fn all_on(c: PreprocessorConfig) -> bool {
    c.lowercase && c.replace_numbers && c.expand_contractions && c.expand_model_names
        && c.expand_ordinals && c.expand_percentages && c.expand_currency && c.expand_time
        && c.expand_ranges && c.expand_units && c.expand_scale_suffixes
        && c.expand_scientific_notation && c.expand_fractions && c.expand_decades
        && c.expand_phone_numbers && c.expand_ip_addresses && c.normalize_leading_decimals
        && c.remove_urls && c.remove_emails && c.remove_html && c.remove_punctuation
        && c.remove_extra_whitespace
}

impl Default for PreprocessorConfig {
    fn default() -> (r: Self)
        ensures
            all_on(r),
    {
        PreprocessorConfig {
            lowercase: true,
            replace_numbers: true,
            expand_contractions: true,
            expand_model_names: true,
            expand_ordinals: true,
            expand_percentages: true,
            expand_currency: true,
            expand_time: true,
            expand_ranges: true,
            expand_units: true,
            expand_scale_suffixes: true,
            expand_scientific_notation: true,
            expand_fractions: true,
            expand_decades: true,
            expand_phone_numbers: true,
            expand_ip_addresses: true,
            normalize_leading_decimals: true,
            remove_urls: true,
            remove_emails: true,
            remove_html: true,
            remove_punctuation: true,
            remove_extra_whitespace: true,
        }
    }
}

/// `f` of `t` when `on`, else `t`.
pub open spec fn when(on: bool, f: Seq<char>, t: Seq<char>) -> Seq<char> {
    if on { f } else { t }
}

/// The first passes: markup, links, contractions, addresses, decimals,
/// currency, percentages, scientific notation and clock times.
pub open spec fn early_passes(c: PreprocessorConfig, t0: Seq<char>) -> Seq<char> {
    let t1 = when(c.remove_html, rewritten(Rule::HtmlTag, t0), t0);
    let t2 = when(c.remove_urls, rewritten(Rule::Url, t1), t1);
    let t3 = when(c.remove_emails, rewritten(Rule::Email, t2), t2);
    let t4 = when(c.expand_contractions, rewritten_all(contraction_rules(), t3), t3);
    let t5 = when(c.expand_ip_addresses, rewritten(Rule::IpAddress, t4), t4);
    let t6 = when(c.normalize_leading_decimals, rewritten_all(leading_decimal_rules(), t5), t5);
    let t7 = when(c.expand_currency, rewritten(Rule::Currency, t6), t6);
    let t8 = when(c.expand_percentages, rewritten(Rule::Percent, t7), t7);
    let t9 = when(c.expand_scientific_notation, rewritten(Rule::Scientific, t8), t8);
    when(c.expand_time, rewritten(Rule::Time, t9), t9)
}

/// The later passes: ordinals, units, scales, fractions, decades, phone
/// numbers, ranges, model names, numbers, punctuation, case and spacing.
pub open spec fn late_passes(c: PreprocessorConfig, t0: Seq<char>) -> Seq<char> {
    let t1 = when(c.expand_ordinals, rewritten(Rule::Ordinal, t0), t0);
    let t2 = when(c.expand_units, rewritten(Rule::Unit, t1), t1);
    let t3 = when(c.expand_scale_suffixes, rewritten(Rule::Scale, t2), t2);
    let t4 = when(c.expand_fractions, rewritten(Rule::Fraction, t3), t3);
    let t5 = when(c.expand_decades, rewritten(Rule::Decade, t4), t4);
    let t6 = when(c.expand_phone_numbers, rewritten_all(phone_rules(), t5), t5);
    let t7 = when(c.expand_ranges, rewritten(Rule::Range, t6), t6);
    let t8 = when(c.expand_model_names, rewritten(Rule::ModelName, t7), t7);
    let t9 = when(c.replace_numbers, rewritten(Rule::Number, t8), t8);
    let t10 = when(c.remove_punctuation, rewritten(Rule::Punctuation, t9), t9);
    let t11 = when(c.lowercase, lower_of(t10), t10);
    when(c.remove_extra_whitespace, rewritten(Rule::Spaces, trimmed(t11)), t11)
}

/// The normaliser's output for `text` under `c`.
pub open spec fn normalized(c: PreprocessorConfig, text: Seq<char>) -> Seq<char> {
    late_passes(c, early_passes(c, text))
}

/// The text normaliser.
pub struct TextPreprocessor {
    pub config: PreprocessorConfig,
}

impl Default for TextPreprocessor {
    fn default() -> (r: Self)
        ensures
            all_on(r.config),
    {
        TextPreprocessor { config: PreprocessorConfig::default() }
    }
}

impl TextPreprocessor {
    /// A normaliser with every pass on.
    pub fn new() -> (r: Self)
        ensures
            all_on(r.config),
    {
        TextPreprocessor::default()
    }

    pub fn with_config(config: PreprocessorConfig) -> (r: Self)
        ensures
            r.config == config,
    {
        TextPreprocessor { config }
    }

    fn early(&self, text: &str) -> (r: String)
        ensures
            r@ == early_passes(self.config, text@),
    {
        let cfg = &self.config;
        let mut t = String::from_str(text);
        if cfg.remove_html {
            t = remove_html_tags(t.as_str());
        }
        if cfg.remove_urls {
            t = remove_urls(t.as_str());
        }
        if cfg.remove_emails {
            t = remove_emails(t.as_str());
        }
        if cfg.expand_contractions {
            t = expand_contractions(t.as_str());
        }
        if cfg.expand_ip_addresses {
            t = expand_ip_addresses(t.as_str());
        }
        if cfg.normalize_leading_decimals {
            t = normalize_leading_decimals(t.as_str());
        }
        if cfg.expand_currency {
            t = expand_currency(t.as_str());
        }
        if cfg.expand_percentages {
            t = expand_percentages(t.as_str());
        }
        if cfg.expand_scientific_notation {
            t = expand_scientific_notation(t.as_str());
        }
        if cfg.expand_time {
            t = expand_time(t.as_str());
        }
        t
    }

    fn late(&self, text: &str) -> (r: String)
        ensures
            r@ == late_passes(self.config, text@),
    {
        let cfg = &self.config;
        let mut t = String::from_str(text);
        if cfg.expand_ordinals {
            t = expand_ordinals(t.as_str());
        }
        if cfg.expand_units {
            t = expand_units(t.as_str());
        }
        if cfg.expand_scale_suffixes {
            t = expand_scale_suffixes(t.as_str());
        }
        if cfg.expand_fractions {
            t = expand_fractions(t.as_str());
        }
        if cfg.expand_decades {
            t = expand_decades(t.as_str());
        }
        if cfg.expand_phone_numbers {
            t = expand_phone_numbers(t.as_str());
        }
        if cfg.expand_ranges {
            t = expand_ranges(t.as_str());
        }
        if cfg.expand_model_names {
            t = expand_model_names(t.as_str());
        }
        if cfg.replace_numbers {
            t = replace_numbers(t.as_str());
        }
        if cfg.remove_punctuation {
            t = remove_punctuation(t.as_str());
        }
        if cfg.lowercase {
            t = to_lower(t.as_str());
        }
        if cfg.remove_extra_whitespace {
            t = remove_extra_whitespace(t.as_str());
        }
        t
    }

    /// Runs the enabled passes over `text`, in their fixed order.
    pub fn process(&self, text: &str) -> (r: String)
        ensures
            r@ == normalized(self.config, text@),
    {
        let t = self.early(text);
        self.late(t.as_str())
    }
}

} // verus!
