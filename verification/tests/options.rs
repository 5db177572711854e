use mmtk::options::{
    parse_bool, parse_plan_selector, parse_usize, valid_option_key, NurseryZeroingOptions, Options,
    PlanSelector, UnsafeOptionsWrapper, DEFAULT_STRESS_FACTOR,
};

#[test]
fn no_env_var() {
    let options = Options::default();
    assert_eq!(options.stress_factor, DEFAULT_STRESS_FACTOR);
}

#[test]
fn test_str_option_default() {
    let options = Options::default();
    assert_eq!(&options.example_string_option as &str, "hello world");
}

#[test]
fn set_valid_stress_factor() {
    let mut options = Options::default();
    assert!(options.set_from_str("stress_factor", "4096"));
    assert_eq!(options.stress_factor, 4096);
}

#[test]
fn set_invalid_stress_factor_value() {
    let mut options = Options::default();
    assert!(!options.set_from_str("stress_factor", "abc"));
    assert_eq!(options.stress_factor, DEFAULT_STRESS_FACTOR);
}

#[test]
fn set_multiple_options() {
    let mut options = Options::default();
    assert!(options.set_from_str("stress_factor", "4096"));
    assert!(options.set_from_str("no_finalizer", "true"));
    assert_eq!(options.stress_factor, 4096);
    assert!(options.no_finalizer);
}

#[test]
fn set_from_camelcase_key() {
    let mut options = Options::default();
    assert!(options.set_from_camelcase_str("stressFactor", "4096"));
    assert_eq!(options.stress_factor, 4096);
    assert!(options.set_from_camelcase_str("noFinalizer", "true"));
    assert!(options.no_finalizer);
}

#[test]
fn wrapper_processes_camelcase_pairs() {
    let mut wrapper = UnsafeOptionsWrapper::new(Options::default());
    assert!(wrapper.process("threads", "8"));
    assert_eq!(wrapper.get().threads, 8);
    assert!(!wrapper.process("threads", "0"));
    assert_eq!(wrapper.get().threads, 8);
}

#[test]
fn unknown_keys_are_rejected_by_the_guard() {
    assert!(valid_option_key("stressFactor"));
    assert!(valid_option_key("stress_factor"));
    assert!(valid_option_key("exampleStringOption"));
    assert!(!valid_option_key("abc"));
    assert!(!valid_option_key(""));
    assert!(!valid_option_key("stress_factor2"));
}

#[test]
fn string_option_requires_its_prefix() {
    let mut options = Options::default();
    assert!(!options.set_from_str("example_string_option", "abc"));
    assert_eq!(&options.example_string_option as &str, "hello world");
    assert!(options.set_from_str("example_string_option", "hello string"));
    assert_eq!(&options.example_string_option as &str, "hello string");
}

#[test]
fn plan_and_zeroing_values_parse_by_variant_name() {
    let mut options = Options::default();
    assert!(options.set_from_str("plan", "MarkSweep"));
    assert_eq!(options.plan, PlanSelector::MarkSweep);
    assert!(!options.set_from_str("plan", "marksweep"));
    assert_eq!(options.plan, PlanSelector::MarkSweep);
    assert!(options.set_from_str("nursery_zeroing", "Adaptive"));
    assert_eq!(options.nursery_zeroing, NurseryZeroingOptions::Adaptive);
    assert_eq!(parse_plan_selector("NoGC"), Some(PlanSelector::NoGC));
    assert_eq!(parse_plan_selector("nogc"), None);
}

#[test]
fn numeric_parsing_matches_the_standard_forms() {
    assert_eq!(parse_usize("0"), Some(0));
    assert_eq!(parse_usize("+42"), Some(42));
    assert_eq!(parse_usize("007"), Some(7));
    assert_eq!(parse_usize(""), None);
    assert_eq!(parse_usize("+"), None);
    assert_eq!(parse_usize("-1"), None);
    assert_eq!(parse_usize("4 2"), None);
    assert_eq!(parse_usize("18446744073709551615"), Some(usize::MAX));
    assert_eq!(parse_usize("18446744073709551616"), None);
    assert_eq!(parse_usize("99999999999999999999999999"), None);
    assert_eq!(parse_bool("true"), Some(true));
    assert_eq!(parse_bool("false"), Some(false));
    assert_eq!(parse_bool("True"), None);
}

#[test]
fn default_thread_count_is_positive() {
    let options = Options::default();
    assert!(options.threads >= 1);
}
