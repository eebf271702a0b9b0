use kittentts::numwords::{digits_to_words, float_to_words, number_to_words, ordinal_suffix};
use kittentts::preprocess::{
    expand_contractions, expand_currency, expand_decades, expand_fractions, expand_ip_addresses,
    expand_model_names, expand_ordinals, expand_percentages, expand_phone_numbers, expand_ranges,
    expand_scale_suffixes, expand_scientific_notation, expand_time, expand_units,
    normalize_leading_decimals, remove_emails, remove_extra_whitespace, remove_html_tags,
    remove_punctuation, remove_urls, replace_numbers, PreprocessorConfig, TextPreprocessor,
};
use kittentts::spoken::{currency_words, fraction_words, time_words};

#[test]
fn test_number_to_words() {
    assert_eq!(number_to_words(0), "zero");
    assert_eq!(number_to_words(1), "one");
    assert_eq!(number_to_words(12), "twelve");
    assert_eq!(number_to_words(1200), "twelve hundred");
    assert_eq!(number_to_words(1000), "one thousand");
    assert_eq!(number_to_words(-42), "negative forty-two");
    assert_eq!(number_to_words(1_000_000), "one million");
}

#[test]
fn test_float_to_words() {
    assert_eq!(float_to_words("3.14"), "three point one four");
    assert_eq!(float_to_words("-0.5"), "negative zero point five");
    assert_eq!(float_to_words("1.50"), "one point five zero");
}

#[test]
fn test_ordinals() {
    let pp = TextPreprocessor::new();
    let result = pp.process("She finished 1st, he came 2nd, I was 3rd.");
    assert!(result.contains("first"), "got: {}", result);
    assert!(result.contains("second"), "got: {}", result);
    assert!(result.contains("third"), "got: {}", result);
}

#[test]
fn test_percentages() {
    assert_eq!(TextPreprocessor::new().process("50% off"), "fifty percent off");
}

#[test]
fn test_currency() {
    let out = TextPreprocessor::new().process("$4.99");
    assert!(out.contains("four dollar"), "got: {}", out);
    assert!(out.contains("ninety nine cent"), "got: {}", out);
}

#[test]
fn test_contractions() {
    let out = TextPreprocessor::new().process("I don't know");
    assert!(out.contains("do not"), "got: {}", out);
}

#[test]
fn test_scale_suffixes() {
    let out = TextPreprocessor::new().process("a 7B parameter model");
    assert!(out.contains("seven billion"), "got: {}", out);
}

#[test]
fn test_scientific_notation() {
    let out = TextPreprocessor::new().process("lr 1e-4");
    assert!(out.contains("times ten to the"), "got: {}", out);
}

#[test]
fn test_full_pipeline() {
    let pp = TextPreprocessor::new();
    let out = pp.process("GPT-4 scored 90% in 3.5 seconds at 1e-4 lr.");
    assert!(out.chars().all(|c| c.is_lowercase() || c == ' '), "got: {}", out);
}

#[test]
fn hello_world_loses_its_period() {
    assert_eq!(TextPreprocessor::new().process("Hello world."), "hello world");
}

#[test]
fn number_words_edges() {
    assert_eq!(number_to_words(100), "one hundred");
    assert_eq!(number_to_words(2000), "two thousand");
    assert_eq!(number_to_words(2500), "two thousand five hundred");
    assert_eq!(number_to_words(101), "one hundred one");
    assert_eq!(number_to_words(999_999), "nine hundred ninety-nine thousand nine hundred ninety-nine");
    assert_eq!(number_to_words(1_234_567), "one million two hundred thirty-four thousand five hundred sixty-seven");
    assert_eq!(number_to_words(i64::MIN).starts_with("negative"), true);
}

#[test]
fn ordinal_words_cases() {
    assert_eq!(ordinal_suffix(1), "first");
    assert_eq!(ordinal_suffix(21), "twenty-first");
    assert_eq!(ordinal_suffix(20), "twentyth");
    assert_eq!(ordinal_suffix(12), "twelfth");
    assert_eq!(ordinal_suffix(100), "one hundredth");
    assert_eq!(ordinal_suffix(8), "eighth");
    assert_eq!(ordinal_suffix(21005), "twenty-one thousand fifth");
    assert_eq!(ordinal_suffix(35003), "thirty-five thousand third");
    assert_eq!(ordinal_suffix(1021), "one thousand twenty-first");
}

#[test]
fn digits_read_one_by_one() {
    assert_eq!(digits_to_words("5a07"), "five zero seven");
}

#[test]
fn currency_forms() {
    assert_eq!(currency_words("$", "4.99", ""), "four dollars and ninety-nine cents");
    assert_eq!(currency_words("$", "1", ""), "one dollar");
    assert_eq!(currency_words("€", "1,000", ""), "one thousand euros");
    assert_eq!(currency_words("$", "2", "B"), "two billion dollars");
    assert_eq!(currency_words("$", "3.01", ""), "three dollars and one cent");
    assert_eq!(currency_words("$", "3.5", ""), "three dollars and fifty cents");
    assert_eq!(currency_words("$", "1.00", ""), "one dollar");
    assert_eq!(currency_words("$", "1.50", ""), "one dollars and fifty cents");
    assert_eq!(currency_words("$", "1.001", ""), "one dollars");
    assert_eq!(expand_currency("$1.00"), "one dollar");
    assert_eq!(expand_currency("costs $5 now"), "costs five dollars now");
}

#[test]
fn time_forms() {
    assert_eq!(time_words("3", "00", &None), "three hundred");
    assert_eq!(time_words("3", "00", &Some("PM".to_string())), "three pm");
    assert_eq!(time_words("9", "05", &None), "nine oh five");
    assert_eq!(expand_time("at 10:30 am"), "at ten thirty am");
}

#[test]
fn fraction_forms() {
    assert_eq!(fraction_words("1/2", "1", "2"), "one half");
    assert_eq!(fraction_words("3/4", "3", "4"), "three quarters");
    assert_eq!(fraction_words("2/5", "2", "5"), "two fifths");
    assert_eq!(fraction_words("1/0", "1", "0"), "1/0");
    assert_eq!(expand_fractions("add 1/3 cup"), "add one third cup");
}

#[test]
fn single_passes() {
    assert_eq!(expand_percentages("up 5%"), "up five percent");
    assert_eq!(expand_ordinals("the 22nd"), "the twenty-second");
    assert_eq!(expand_ranges("pages 5-10"), "pages five to ten");
    assert_eq!(expand_model_names("GPT-4 is"), "GPT 4 is");
    assert_eq!(expand_units("5km away"), "five kilometers away");
    assert_eq!(expand_scale_suffixes("7B"), "seven billion");
    assert_eq!(expand_scientific_notation("1e-4"), "one times ten to the negative four");
    assert_eq!(expand_decades("the 1990s"), "the nineteen nineties");
    assert_eq!(expand_decades("the 80s"), "the eighties");
    assert_eq!(expand_ip_addresses("192.168.0.1"), "one nine two dot one six eight dot zero dot one");
    assert_eq!(expand_phone_numbers("call 555-1234"), "call five five five one two three four");
    assert_eq!(normalize_leading_decimals("-.5 and .25"), "-0.5 and 0.25");
    assert_eq!(replace_numbers("1,234 and 2.5"), "one thousand two hundred thirty-four and two point five");
    assert_eq!(expand_contractions("We can't, they're"), "We cannot, they are");
    assert_eq!(remove_urls("see https://x.org now"), "see  now");
    assert_eq!(remove_emails("mail a.b@c.com now"), "mail  now");
    assert_eq!(remove_html_tags("<b>hi</b>"), " hi ");
    assert_eq!(remove_punctuation("a,b!"), "a b ");
    assert_eq!(remove_extra_whitespace("  a \t b  "), "a b");
}

#[test]
fn disabled_pass_is_skipped() {
    let mut cfg = PreprocessorConfig::default();
    cfg.expand_percentages = false;
    cfg.replace_numbers = false;
    cfg.remove_punctuation = false;
    let out = TextPreprocessor::with_config(cfg).process("50%");
    assert_eq!(out, "50%");
}
