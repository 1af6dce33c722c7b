use yjit::options::{nonprime_sample_rate, parse_option, DumpDisasm, Options};

#[test]
fn defaults_match_the_documented_values() {
    let o = Options::default();
    assert_eq!(o.exec_mem_size, 128 * 1024 * 1024);
    assert_eq!(o.call_threshold, 30);
    assert_eq!(o.cold_threshold, 200_000);
    assert!(!o.greedy_versioning);
    assert!(!o.no_type_prop);
    assert_eq!(o.max_versions, 4);
    assert_eq!(o.num_temp_regs, 5);
    assert!(!o.gen_stats);
    assert!(o.print_stats);
    assert!(!o.gen_trace_exits);
    assert_eq!(o.trace_exits_sample_rate, 0);
    assert!(!o.pause);
    assert!(!o.disable_code_gc);
    assert!(!o.dump_insns);
    assert_eq!(o.dump_disasm, None);
    assert_eq!(o.dump_iseq_disasm, None);
    assert!(!o.verify_ctx);
}

#[test]
fn bare_flag_changes_nothing() {
    let mut o = Options::default();
    assert_eq!(parse_option(&mut o, ""), Some(()));
    assert_eq!(o, Options::default());
}

#[test]
fn exec_mem_size_is_converted_to_bytes() {
    let mut o = Options::default();
    assert_eq!(parse_option(&mut o, "exec-mem-size=256"), Some(()));
    assert_eq!(o.exec_mem_size, 256 * 1024 * 1024);
}

#[test]
fn exec_mem_size_rejects_zero_and_too_large() {
    let mut o = Options::default();
    assert_eq!(parse_option(&mut o, "exec-mem-size=0"), None);
    assert_eq!(parse_option(&mut o, "exec-mem-size=2097153"), None);
    assert_eq!(parse_option(&mut o, "exec-mem-size="), None);
    assert_eq!(parse_option(&mut o, "exec-mem-size=12x"), None);
    assert_eq!(o, Options::default());
}

#[test]
fn call_threshold_accepts_plus_sign() {
    let mut o = Options::default();
    assert_eq!(parse_option(&mut o, "call-threshold=+7"), Some(()));
    assert_eq!(o.call_threshold, 7);
    assert_eq!(parse_option(&mut o, "call-threshold=abc"), None);
    assert_eq!(o.call_threshold, 7);
    assert_eq!(parse_option(&mut o, "call-threshold=++1"), None);
    assert_eq!(parse_option(&mut o, "call-threshold=+"), None);
}

#[test]
fn cold_threshold_and_max_versions_take_numbers() {
    let mut o = Options::default();
    assert_eq!(parse_option(&mut o, "cold-threshold=100"), Some(()));
    assert_eq!(o.cold_threshold, 100);
    assert_eq!(parse_option(&mut o, "max-versions=9"), Some(()));
    assert_eq!(o.max_versions, 9);
}

#[test]
fn huge_number_is_rejected() {
    let mut o = Options::default();
    assert_eq!(parse_option(&mut o, "call-threshold=99999999999999999999999999"), None);
    assert_eq!(o.call_threshold, 30);
}

#[test]
fn unit_options_take_no_value() {
    let mut o = Options::default();
    assert_eq!(parse_option(&mut o, "pause"), Some(()));
    assert!(o.pause);
    assert_eq!(parse_option(&mut o, "pause=x"), None);
    assert_eq!(parse_option(&mut o, "disable-code-gc"), Some(()));
    assert!(o.disable_code_gc);
    assert_eq!(parse_option(&mut o, "greedy-versioning"), Some(()));
    assert!(o.greedy_versioning);
    assert_eq!(parse_option(&mut o, "no-type-prop"), Some(()));
    assert!(o.no_type_prop);
    assert_eq!(parse_option(&mut o, "dump-insns"), Some(()));
    assert!(o.dump_insns);
    assert_eq!(parse_option(&mut o, "verify-ctx"), Some(()));
    assert!(o.verify_ctx);
}

#[test]
fn temp_regs_is_bounded() {
    let mut o = Options::default();
    assert_eq!(parse_option(&mut o, "temp-regs=3"), Some(()));
    assert_eq!(o.num_temp_regs, 3);
    assert_eq!(parse_option(&mut o, "temp-regs=6"), None);
    assert_eq!(o.num_temp_regs, 3);
}

#[test]
fn dump_disasm_picks_stdout_or_directory() {
    let mut o = Options::default();
    assert_eq!(parse_option(&mut o, "dump-disasm"), Some(()));
    assert_eq!(o.dump_disasm, Some(DumpDisasm::Stdout));
    assert_eq!(parse_option(&mut o, "dump-disasm=/var/log"), Some(()));
    assert_eq!(o.dump_disasm, Some(DumpDisasm::File(String::from("/var/log"))));
}

#[test]
fn dump_iseq_disasm_keeps_the_value() {
    let mut o = Options::default();
    assert_eq!(parse_option(&mut o, "dump-iseq-disasm=Foo#bar"), Some(()));
    assert_eq!(o.dump_iseq_disasm, Some(String::from("Foo#bar")));
}

#[test]
fn non_ascii_values_are_kept_whole() {
    let mut o = Options::default();
    assert_eq!(parse_option(&mut o, "dump-iseq-disasm=méth→od"), Some(()));
    assert_eq!(o.dump_iseq_disasm, Some(String::from("méth→od")));
}

#[test]
fn stats_has_a_quiet_form() {
    let mut o = Options::default();
    assert_eq!(parse_option(&mut o, "stats"), Some(()));
    assert!(o.gen_stats);
    assert!(o.print_stats);
    let mut o2 = Options::default();
    assert_eq!(parse_option(&mut o2, "stats=quiet"), Some(()));
    assert!(o2.gen_stats);
    assert!(!o2.print_stats);
    assert_eq!(parse_option(&mut o2, "stats=loud"), None);
}

#[test]
fn trace_exits_sets_three_fields() {
    let mut o = Options::default();
    assert_eq!(parse_option(&mut o, "trace-exits"), Some(()));
    assert!(o.gen_trace_exits);
    assert!(o.gen_stats);
    assert_eq!(o.trace_exits_sample_rate, 0);
    assert_eq!(parse_option(&mut o, "trace-exits=x"), None);
}

#[test]
fn trace_exits_sample_rate_takes_a_number() {
    let mut o = Options::default();
    assert_eq!(parse_option(&mut o, "trace-exits-sample-rate=97"), Some(()));
    assert!(o.gen_trace_exits);
    assert!(o.gen_stats);
    assert_eq!(o.trace_exits_sample_rate, 97);
    assert_eq!(parse_option(&mut o, "trace-exits-sample-rate=x"), None);
    assert_eq!(o.trace_exits_sample_rate, 97);
}

#[test]
fn unknown_names_are_rejected() {
    let mut o = Options::default();
    assert_eq!(parse_option(&mut o, "bogus"), None);
    assert_eq!(parse_option(&mut o, "bogus=1"), None);
    assert_eq!(o, Options::default());
}

#[test]
fn lone_equals_sign_is_the_empty_option() {
    let mut o = Options::default();
    assert_eq!(parse_option(&mut o, "="), Some(()));
    assert_eq!(o, Options::default());
}

#[test]
fn value_keeps_later_equals_signs() {
    let mut o = Options::default();
    assert_eq!(parse_option(&mut o, "dump-iseq-disasm=a=b"), Some(()));
    assert_eq!(o.dump_iseq_disasm, Some(String::from("a=b")));
}

#[test]
fn sample_rate_warning_fires_on_composites_only() {
    assert!(!nonprime_sample_rate(0));
    assert!(!nonprime_sample_rate(1));
    assert!(!nonprime_sample_rate(2));
    assert!(!nonprime_sample_rate(3));
    assert!(nonprime_sample_rate(4));
    assert!(!nonprime_sample_rate(5));
    assert!(nonprime_sample_rate(9));
    assert!(nonprime_sample_rate(91));
    assert!(!nonprime_sample_rate(97));
}
