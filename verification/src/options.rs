//! Command-line options of the JIT subsystem, and the parser that fills them
//! from the text of one `--yjit-*` argument.
//!
//! The parser receives what comes after the third dash: an empty string means
//! the bare flag was passed. Option text is split at the first `=` into a
//! name and a value; names without a value take the empty value. The host
//! converts raw argument bytes to the string handed in here, and prints the
//! messages that some outcomes call for.

use vstd::arithmetic::div_mod::lemma_fundamental_div_mod;
use vstd::prelude::*;
use vstd::string::StrSliceExecFns;

verus! {

/// How many machine registers the code generator may allocate for stack
/// temporaries; the `temp-regs` option is rejected above this bound.
pub const MAX_TEMP_REGS: usize = 5;

/// Where disassembly of compiled units is dumped.
#[derive(Clone, PartialEq, Eq, Debug)]
pub enum DumpDisasm {
    /// Dump to standard output.
    Stdout,
    /// Dump to a per-process log file under the directory given here; the
    /// host derives the file name.
    File(String),
}

/// The abstract value of a `DumpDisasm`, with the directory as a character
/// sequence.
pub enum DumpDisasmV {
    /// Dump to standard output.
    Stdout,
    /// Dump to a log file under this directory.
    File(Seq<char>),
}

impl View for DumpDisasm {
    type V = DumpDisasmV;

    open spec fn view(&self) -> DumpDisasmV {
        match self {
            DumpDisasm::Stdout => DumpDisasmV::Stdout,
            DumpDisasm::File(dir) => DumpDisasmV::File(dir@),
        }
    }
}

// Command-line options
#[derive(Clone, PartialEq, Eq, Debug)]
pub struct Options {
    /// Size of the executable memory block to allocate in bytes. The command
    /// line expresses it in MiB.
    pub exec_mem_size: usize,
    /// Number of method calls after which to start generating code;
    /// 1 means compile on first execution.
    pub call_threshold: usize,
    /// Number of execution requests after which a method is no longer
    /// considered hot.
    pub cold_threshold: usize,
    /// Generate versions greedily until the limit is hit.
    pub greedy_versioning: bool,
    /// Disable the propagation of type information.
    pub no_type_prop: bool,
    /// Maximum number of versions per unit; 1 means always generic versions.
    pub max_versions: usize,
    /// The number of registers allocated for stack temporaries.
    pub num_temp_regs: usize,
    /// Capture statistics.
    pub gen_stats: bool,
    /// Print statistics on exit (when gen_stats is also set).
    pub print_stats: bool,
    /// Trace locations of exits.
    pub gen_trace_exits: bool,
    /// How often to sample exit trace data.
    pub trace_exits_sample_rate: usize,
    /// Start the JIT in a paused state: initialize it, compile nothing.
    pub pause: bool,
    /// Stop generating code when exec_mem_size is reached; run no code GC.
    pub disable_code_gc: bool,
    /// Dump compiled and executed instructions for debugging.
    pub dump_insns: bool,
    /// Dump all compiled instructions of the target code buffers.
    pub dump_disasm: Option<DumpDisasm>,
    /// Print when specific program units are compiled or invalidated.
    pub dump_iseq_disasm: Option<String>,
    /// Verify context objects (debug mode only).
    pub verify_ctx: bool,
}

/// The abstract value of an `Options`, with strings as character sequences.
pub struct OptionsV {
    /// Size of the executable memory block in bytes.
    pub exec_mem_size: usize,
    /// Calls before code generation starts.
    pub call_threshold: usize,
    /// Execution requests after which a method is no longer hot.
    pub cold_threshold: usize,
    /// Greedy versioning.
    pub greedy_versioning: bool,
    /// Type-information propagation disabled.
    pub no_type_prop: bool,
    /// Maximum versions per unit.
    pub max_versions: usize,
    /// Registers for stack temporaries.
    pub num_temp_regs: usize,
    /// Statistics captured.
    pub gen_stats: bool,
    /// Statistics printed on exit.
    pub print_stats: bool,
    /// Exit locations traced.
    pub gen_trace_exits: bool,
    /// Exit-trace sample rate.
    pub trace_exits_sample_rate: usize,
    /// Started paused.
    pub pause: bool,
    /// Code GC disabled.
    pub disable_code_gc: bool,
    /// Instruction dumping.
    pub dump_insns: bool,
    /// Disassembly dumping.
    pub dump_disasm: Option<DumpDisasmV>,
    /// Per-unit disassembly filter.
    pub dump_iseq_disasm: Option<Seq<char>>,
    /// Context verification.
    pub verify_ctx: bool,
}

impl View for Options {
    type V = OptionsV;

    open spec fn view(&self) -> OptionsV {
        OptionsV {
            exec_mem_size: self.exec_mem_size,
            call_threshold: self.call_threshold,
            cold_threshold: self.cold_threshold,
            greedy_versioning: self.greedy_versioning,
            no_type_prop: self.no_type_prop,
            max_versions: self.max_versions,
            num_temp_regs: self.num_temp_regs,
            gen_stats: self.gen_stats,
            print_stats: self.print_stats,
            gen_trace_exits: self.gen_trace_exits,
            trace_exits_sample_rate: self.trace_exits_sample_rate,
            pause: self.pause,
            disable_code_gc: self.disable_code_gc,
            dump_insns: self.dump_insns,
            dump_disasm: match &self.dump_disasm {
                Some(d) => Some(d@),
                None => None,
            },
            dump_iseq_disasm: match &self.dump_iseq_disasm {
                Some(s) => Some(s@),
                None => None,
            },
            verify_ctx: self.verify_ctx,
        }
    }
}

impl Default for Options {
    /// The defaults the subsystem starts with before any option text is
    /// parsed.
    fn default() -> (r: Options)
        ensures
            r.exec_mem_size == 128 * 1024 * 1024,
            r.call_threshold == 30,
            r.cold_threshold == 200000,
            r.greedy_versioning == false,
            r.no_type_prop == false,
            r.max_versions == 4,
            r.num_temp_regs == 5,
            r.gen_stats == false,
            r.print_stats == true,
            r.gen_trace_exits == false,
            r.trace_exits_sample_rate == 0,
            r.pause == false,
            r.disable_code_gc == false,
            r.dump_insns == false,
            r.dump_disasm is None,
            r.dump_iseq_disasm is None,
            r.verify_ctx == false,
    {
        Options {
            exec_mem_size: 128 * 1024 * 1024,
            call_threshold: 30,
            cold_threshold: 200000,
            greedy_versioning: false,
            no_type_prop: false,
            max_versions: 4,
            num_temp_regs: 5,
            gen_stats: false,
            print_stats: true,
            gen_trace_exits: false,
            trace_exits_sample_rate: 0,
            pause: false,
            disable_code_gc: false,
            dump_insns: false,
            dump_disasm: None,
            dump_iseq_disasm: None,
            verify_ctx: false,
        }
    }
}

/// Position `i` is the first `=` of `s`.
pub open spec fn is_first_eq(s: Seq<char>, i: int) -> bool {
    &&& 0 <= i < s.len()
    &&& s[i] == '='
    &&& forall|j: int| 0 <= j < i ==> s[j] != '='
}

/// The name and value parts of one option text: the text up to the first `=`
/// and the text after it, or the whole text and the empty value when it has
/// no `=`.
pub open spec fn split_parts(s: Seq<char>) -> (Seq<char>, Seq<char>) {
    if exists|i: int| is_first_eq(s, i) {
        let i = choose|i: int| is_first_eq(s, i);
        (s.subrange(0, i), s.subrange(i + 1, s.len() as int))
    } else {
        (s, Seq::empty())
    }
}

proof fn lemma_split_at_first_eq(s: Seq<char>, i: int)
    requires
        is_first_eq(s, i),
    ensures
        split_parts(s) == (s.subrange(0, i), s.subrange(i + 1, s.len() as int)),
{
    let j = choose|j: int| is_first_eq(s, j);
    if j < i {
        assert(s[j] != '=');
    }
    if i < j {
        assert(s[i] != '=');
    }
}

/// A decimal digit.
pub open spec fn is_dec_digit(c: char) -> bool {
    48 <= c as u32 <= 57
}

/// All characters of `s` are decimal digits.
pub open spec fn all_digits(s: Seq<char>) -> bool {
    forall|i: int| 0 <= i < s.len() ==> is_dec_digit(#[trigger] s[i])
}

/// The number the digit string `s` denotes in base ten.
pub open spec fn digits_val(s: Seq<char>) -> int
    decreases s.len(),
{
    if s.len() == 0 {
        0
    } else {
        digits_val(s.drop_last()) * 10 + (s.last() as u32 - 48)
    }
}

/// The digits of a number text: one leading `+` sign is accepted.
pub open spec fn digit_part(s: Seq<char>) -> Seq<char> {
    if s.len() > 0 && s[0] == '+' {
        s.subrange(1, s.len() as int)
    } else {
        s
    }
}

/// What parsing `s` as an unsigned size returns: its digits' value when `s`
/// is an optional `+` sign followed by one or more digits and the value fits,
/// nothing otherwise.
pub open spec fn spec_parse_usize(s: Seq<char>) -> Option<usize> {
    let d = digit_part(s);
    if d.len() > 0 && all_digits(d) && digits_val(d) <= usize::MAX {
        Some(digits_val(d) as usize)
    } else {
        None
    }
}

proof fn lemma_all_digits_prefix(s: Seq<char>)
    requires
        all_digits(s),
        s.len() > 0,
    ensures
        all_digits(s.drop_last()),
{
    assert forall|i: int| 0 <= i < s.drop_last().len() implies is_dec_digit(
        #[trigger] s.drop_last()[i],
    ) by {
        assert(s.drop_last()[i] == s[i]);
    }
}

proof fn lemma_digits_val_nonneg(s: Seq<char>)
    requires
        all_digits(s),
    ensures
        digits_val(s) >= 0,
    decreases s.len(),
{
    if s.len() > 0 {
        lemma_all_digits_prefix(s);
        lemma_digits_val_nonneg(s.drop_last());
        assert(is_dec_digit(s[s.len() - 1]));
    }
}

/// A digit string denotes at least what any of its prefixes denotes.
proof fn lemma_digits_val_monotone(s: Seq<char>, j: int)
    requires
        all_digits(s),
        0 <= j <= s.len(),
    ensures
        digits_val(s) >= digits_val(s.take(j)),
    decreases s.len(),
{
    if j == s.len() {
        assert(s.take(j) =~= s);
    } else {
        lemma_all_digits_prefix(s);
        lemma_digits_val_monotone(s.drop_last(), j);
        assert(s.drop_last().take(j) =~= s.take(j));
        lemma_digits_val_nonneg(s.drop_last());
        assert(is_dec_digit(s[s.len() - 1]));
    }
}

/// What parsing one option text does to the options `o`: the new options on
/// success, nothing when the text is rejected. The text is split at its first
/// `=` into a name and a value; an absent value is the empty value.
pub open spec fn spec_parse_option(o: OptionsV, s: Seq<char>) -> Option<OptionsV> {
    spec_apply_option(o, split_parts(s).0, split_parts(s).1)
}

/// What one named option with one value does to the options `o`.
pub open spec fn spec_apply_option(o: OptionsV, name: Seq<char>, val: Seq<char>) -> Option<
    OptionsV,
> {
    if name.len() == 0 && val.len() == 0 {
        Some(o)
    } else if name == "exec-mem-size"@ {
        match spec_parse_usize(val) {
            Some(n) => if n == 0 || n > 2 * 1024 * 1024 {
                None
            } else if n * 1048576 <= usize::MAX {
                Some(OptionsV { exec_mem_size: (n * 1048576) as usize, ..o })
            } else {
                None
            },
            None => None,
        }
    } else if name == "call-threshold"@ {
        match spec_parse_usize(val) {
            Some(n) => Some(OptionsV { call_threshold: n, ..o }),
            None => None,
        }
    } else if name == "cold-threshold"@ {
        match spec_parse_usize(val) {
            Some(n) => Some(OptionsV { cold_threshold: n, ..o }),
            None => None,
        }
    } else if name == "max-versions"@ {
        match spec_parse_usize(val) {
            Some(n) => Some(OptionsV { max_versions: n, ..o }),
            None => None,
        }
    } else if name == "pause"@ {
        if val.len() == 0 {
            Some(OptionsV { pause: true, ..o })
        } else {
            None
        }
    } else if name == "disable-code-gc"@ {
        if val.len() == 0 {
            Some(OptionsV { disable_code_gc: true, ..o })
        } else {
            None
        }
    } else if name == "temp-regs"@ {
        match spec_parse_usize(val) {
            Some(n) => if n <= MAX_TEMP_REGS {
                Some(OptionsV { num_temp_regs: n, ..o })
            } else {
                None
            },
            None => None,
        }
    } else if name == "dump-disasm"@ {
        if val.len() == 0 {
            Some(OptionsV { dump_disasm: Some(DumpDisasmV::Stdout), ..o })
        } else {
            Some(OptionsV { dump_disasm: Some(DumpDisasmV::File(val)), ..o })
        }
    } else if name == "dump-iseq-disasm"@ {
        Some(OptionsV { dump_iseq_disasm: Some(val), ..o })
    } else if name == "greedy-versioning"@ {
        if val.len() == 0 {
            Some(OptionsV { greedy_versioning: true, ..o })
        } else {
            None
        }
    } else if name == "no-type-prop"@ {
        if val.len() == 0 {
            Some(OptionsV { no_type_prop: true, ..o })
        } else {
            None
        }
    } else if name == "stats"@ {
        if val.len() == 0 {
            Some(OptionsV { gen_stats: true, ..o })
        } else if val == "quiet"@ {
            Some(OptionsV { gen_stats: true, print_stats: false, ..o })
        } else {
            None
        }
    } else if name == "trace-exits"@ {
        if val.len() == 0 {
            Some(
                OptionsV {
                    gen_trace_exits: true,
                    gen_stats: true,
                    trace_exits_sample_rate: 0,
                    ..o
                },
            )
        } else {
            None
        }
    } else if name == "trace-exits-sample-rate"@ {
        match spec_parse_usize(val) {
            Some(n) => Some(
                OptionsV { gen_trace_exits: true, gen_stats: true, trace_exits_sample_rate: n, ..o },
            ),
            None => None,
        }
    } else if name == "dump-insns"@ {
        if val.len() == 0 {
            Some(OptionsV { dump_insns: true, ..o })
        } else {
            None
        }
    } else if name == "verify-ctx"@ {
        if val.len() == 0 {
            Some(OptionsV { verify_ctx: true, ..o })
        } else {
            None
        }
    } else {
        None
    }
}

/// Whether the character sequences of two strings are equal.
fn str_eq_chars(a: &str, b: &str) -> (r: bool)
    ensures
        r == (a@ == b@),
{
    let la = a.unicode_len();
    let lb = b.unicode_len();
    if la != lb {
        return false;
    }
    let mut k: usize = 0;
    while k < la
        invariant
            la == a@.len(),
            la == b@.len(),
            k <= la,
            forall|j: int| 0 <= j < k ==> a@[j] == b@[j],
        decreases la - k,
    {
        if a.get_char(k) != b.get_char(k) {
            return false;
        }
        k = k + 1;
    }
    proof {
        assert(a@ =~= b@);
    }
    true
}

/// The position of the first `=` of `s`, if it has one.
fn find_eq_pos(s: &str) -> (r: Option<usize>)
    ensures
        match r {
            Some(i) => is_first_eq(s@, i as int),
            None => forall|j: int| 0 <= j < s@.len() ==> s@[j] != '=',
        },
{
    let n = s.unicode_len();
    let mut i: usize = 0;
    while i < n
        invariant
            n == s@.len(),
            i <= n,
            forall|j: int| 0 <= j < i ==> s@[j] != '=',
        decreases n - i,
    {
        if s.get_char(i) == '=' {
            return Some(i);
        }
        i = i + 1;
    }
    None
}

/// Parses `s` as an unsigned size, as `spec_parse_usize` describes: one
/// optional `+` sign, then decimal digits, rejected when empty, when any
/// character is no digit, or when the value does not fit.
fn parse_usize(s: &str) -> (r: Option<usize>)
    ensures
        r == spec_parse_usize(s@),
{
    let n = s.unicode_len();
    let start: usize = if n > 0 && s.get_char(0) == '+' {
        1
    } else {
        0
    };
    let ghost d = digit_part(s@);
    proof {
        assert(d =~= s@.subrange(start as int, n as int));
    }
    if n == start {
        return None;
    }
    let mut acc: usize = 0;
    let mut k: usize = start;
    while k < n
        invariant
            n == s@.len(),
            start <= k <= n,
            start < n,
            d == digit_part(s@),
            d == s@.subrange(start as int, n as int),
            d.len() == n - start,
            forall|j: int| 0 <= j < k - start ==> is_dec_digit(#[trigger] d[j]),
            acc as int == digits_val(d.take(k - start)),
        decreases n - k,
    {
        let c = s.get_char(k);
        let cv = c as u32;
        proof {
            assert(d[k - start] == s@[k as int]);
        }
        if cv < 48 || cv > 57 {
            proof {
                assert(!is_dec_digit(d[k - start]));
                assert(0 <= k - start < d.len());
                assert(!all_digits(d));
                assert(spec_parse_usize(s@) is None);
            }
            return None;
        }
        let dig = (cv - 48) as usize;
        let ghost j0 = k - start;
        proof {
            assert(d.take(j0 + 1).drop_last() =~= d.take(j0));
            assert(d.take(j0 + 1).last() == d[j0]);
            assert(digits_val(d.take(j0 + 1)) == acc * 10 + dig);
        }
        if acc > (usize::MAX - dig) / 10 {
            proof {
                lemma_fundamental_div_mod((usize::MAX - dig) as int, 10);
                assert(acc * 10 + dig > usize::MAX) by (nonlinear_arith)
                    requires
                        acc as int >= ((usize::MAX - dig) as int) / 10 + 1,
                        (usize::MAX - dig) as int == 10 * (((usize::MAX - dig) as int) / 10) + ((
                        usize::MAX - dig) as int) % 10,
                        ((usize::MAX - dig) as int) % 10 >= 0,
                        dig >= 0,
                ;
                if all_digits(d) {
                    lemma_digits_val_monotone(d, j0 + 1);
                    assert(digits_val(d) > usize::MAX);
                }
                assert(spec_parse_usize(s@) is None);
            }
            return None;
        }
        proof {
            lemma_fundamental_div_mod((usize::MAX - dig) as int, 10);
            assert(acc * 10 + dig <= usize::MAX) by (nonlinear_arith)
                requires
                    acc as int <= ((usize::MAX - dig) as int) / 10,
                    (usize::MAX - dig) as int == 10 * (((usize::MAX - dig) as int) / 10) + ((
                    usize::MAX - dig) as int) % 10,
                    ((usize::MAX - dig) as int) % 10 < 10,
                    dig <= usize::MAX,
            ;
        }
        acc = acc * 10 + dig;
        k = k + 1;
    }
    proof {
        assert(d.take(n - start) =~= d);
        assert(all_digits(d));
    }
    Some(acc)
}

/// Applies one named option with one value to `opts`, as
/// `spec_apply_option` describes, for the names this function does not hand
/// on to `apply_named_rest`.
#[verifier::rlimit(100)]
fn apply_named(opts: &mut Options, name_str: &str, val_str: &str) -> (r: Option<()>)
    ensures
        (match spec_apply_option(old(opts)@, name_str@, val_str@) {
            Some(o2) => r is Some && final(opts)@ == o2,
            None => r is None && *final(opts) == *old(opts),
        }),
{
    let name_len = name_str.unicode_len();
    let val_len = val_str.unicode_len();
    if name_len == 0 && val_len == 0 {
        return Some(());
    }
    if str_eq_chars(name_str, "exec-mem-size") {
        match parse_usize(val_str) {
            Some(n_mib) => {
                if n_mib == 0 || n_mib > 2 * 1024 * 1024 {
                    return None;
                }
                if n_mib > usize::MAX / 1048576 {
                    proof {
                        lemma_fundamental_div_mod(usize::MAX as int, 1048576);
                        assert(n_mib * 1048576 > usize::MAX) by (nonlinear_arith)
                            requires
                                n_mib as int >= (usize::MAX as int) / 1048576 + 1,
                                usize::MAX as int == 1048576 * ((usize::MAX as int) / 1048576) + (
                                usize::MAX as int) % 1048576,
                                (usize::MAX as int) % 1048576 < 1048576,
                        ;
                    }
                    return None;
                }
                proof {
                    lemma_fundamental_div_mod(usize::MAX as int, 1048576);
                    assert(n_mib * 1048576 <= usize::MAX) by (nonlinear_arith)
                        requires
                            n_mib as int <= (usize::MAX as int) / 1048576,
                            usize::MAX as int == 1048576 * ((usize::MAX as int) / 1048576) + (
                            usize::MAX as int) % 1048576,
                            (usize::MAX as int) % 1048576 >= 0,
                    ;
                }
                opts.exec_mem_size = n_mib * 1048576;
            },
            None => {
                return None;
            },
        }
    } else if str_eq_chars(name_str, "call-threshold") {
        match parse_usize(val_str) {
            Some(n2) => {
                opts.call_threshold = n2;
            },
            None => {
                return None;
            },
        }
    } else if str_eq_chars(name_str, "cold-threshold") {
        match parse_usize(val_str) {
            Some(n2) => {
                opts.cold_threshold = n2;
            },
            None => {
                return None;
            },
        }
    } else if str_eq_chars(name_str, "max-versions") {
        match parse_usize(val_str) {
            Some(n2) => {
                opts.max_versions = n2;
            },
            None => {
                return None;
            },
        }
    } else if str_eq_chars(name_str, "pause") {
        if val_len != 0 {
            return None;
        }
        opts.pause = true;
    } else if str_eq_chars(name_str, "disable-code-gc") {
        if val_len != 0 {
            return None;
        }
        opts.disable_code_gc = true;
    } else if str_eq_chars(name_str, "temp-regs") {
        match parse_usize(val_str) {
            Some(n2) => {
                if n2 > MAX_TEMP_REGS {
                    return None;
                }
                opts.num_temp_regs = n2;
            },
            None => {
                return None;
            },
        }
    } else if str_eq_chars(name_str, "dump-disasm") {
        if val_len == 0 {
            opts.dump_disasm = Some(DumpDisasm::Stdout);
        } else {
            opts.dump_disasm = Some(DumpDisasm::File(val_str.to_owned()));
        }
    } else {
        return apply_named_rest(opts, name_str, val_str);
    }
    Some(())
}

/// Applies the named options that `apply_named` does not handle itself.
#[verifier::rlimit(100)]
fn apply_named_rest(opts: &mut Options, name_str: &str, val_str: &str) -> (r: Option<()>)
    requires
        !(name_str@.len() == 0 && val_str@.len() == 0),
        name_str@ != "exec-mem-size"@,
        name_str@ != "call-threshold"@,
        name_str@ != "cold-threshold"@,
        name_str@ != "max-versions"@,
        name_str@ != "pause"@,
        name_str@ != "disable-code-gc"@,
        name_str@ != "temp-regs"@,
        name_str@ != "dump-disasm"@,
    ensures
        (match spec_apply_option(old(opts)@, name_str@, val_str@) {
            Some(o2) => r is Some && final(opts)@ == o2,
            None => r is None && *final(opts) == *old(opts),
        }),
{
    let val_len = val_str.unicode_len();
    if str_eq_chars(name_str, "dump-iseq-disasm") {
        opts.dump_iseq_disasm = Some(val_str.to_owned());
    } else if str_eq_chars(name_str, "greedy-versioning") {
        if val_len != 0 {
            return None;
        }
        opts.greedy_versioning = true;
    } else if str_eq_chars(name_str, "no-type-prop") {
        if val_len != 0 {
            return None;
        }
        opts.no_type_prop = true;
    } else if str_eq_chars(name_str, "stats") {
        if val_len == 0 {
            opts.gen_stats = true;
        } else if str_eq_chars(val_str, "quiet") {
            opts.gen_stats = true;
            opts.print_stats = false;
        } else {
            return None;
        }
    } else if str_eq_chars(name_str, "trace-exits") {
        if val_len != 0 {
            return None;
        }
        opts.gen_trace_exits = true;
        opts.gen_stats = true;
        opts.trace_exits_sample_rate = 0;
    } else if str_eq_chars(name_str, "trace-exits-sample-rate") {
        match parse_usize(val_str) {
            Some(n2) => {
                opts.gen_trace_exits = true;
                opts.gen_stats = true;
                opts.trace_exits_sample_rate = n2;
            },
            None => {
                return None;
            },
        }
    } else if str_eq_chars(name_str, "dump-insns") {
        if val_len != 0 {
            return None;
        }
        opts.dump_insns = true;
    } else if str_eq_chars(name_str, "verify-ctx") {
        if val_len != 0 {
            return None;
        }
        opts.verify_ctx = true;
    } else {
        return None;
    }
    Some(())
}

/// Parses the text of one `--yjit-*` argument (what comes after the third
/// dash; empty when only the bare flag was passed) and updates `opts`, as
/// `spec_parse_option` describes. Returns nothing, and leaves `opts`
/// untouched, when the text is rejected.
pub fn parse_option(opts: &mut Options, opt: &str) -> (r: Option<()>)
    ensures
        (match spec_parse_option(old(opts)@, opt@) {
            Some(o2) => r is Some && final(opts)@ == o2,
            None => r is None && *final(opts) == *old(opts),
        }),
{
    let n = opt.unicode_len();
    let mut name_str: &str = opt;
    let mut val_str: &str = "";
    match find_eq_pos(opt) {
        Some(i) => {
            proof {
                lemma_split_at_first_eq(opt@, i as int);
            }
            name_str = opt.substring_char(0, i);
            val_str = opt.substring_char(i + 1, n);
        },
        None => {
            proof {
                assert forall|i: int| !is_first_eq(opt@, i) by {
                    if 0 <= i < opt@.len() {
                        assert(opt@[i] != '=');
                    }
                }
                reveal_strlit("");
                assert(val_str@ =~= split_parts(opt@).1);
            }
        },
    }
    proof {
        assert(name_str@ == split_parts(opt@).0);
        assert(val_str@ == split_parts(opt@).1);
    }
    apply_named(opts, name_str, val_str)
}

/// A number is prime when it is at least two and no smaller number above one
/// divides it.
pub open spec fn is_prime(n: int) -> bool {
    n >= 2 && forall|d: int| 2 <= d < n ==> #[trigger] (n % d) != 0
}

/// Whether the exit-trace sample rate deserves the host's warning: a rate
/// above one that is not prime makes the sampling less accurate.
pub fn nonprime_sample_rate(rate: usize) -> (r: bool)
    ensures
        r == (rate > 1 && !is_prime(rate as int)),
{
    if rate <= 1 {
        return false;
    }
    let ghost rr = rate as int;
    let mut i: usize = 2;
    while i <= rate / i
        invariant
            2 <= i,
            rate > 1,
            rr == rate as int,
            forall|d: int| 2 <= d < i ==> #[trigger] (rr % d) != 0,
        decreases rate - i,
    {
        if rate % i == 0 {
            proof {
                let ii = i as int;
                lemma_fundamental_div_mod(rr, ii);
                assert(ii * ii <= rr) by (nonlinear_arith)
                    requires
                        ii <= rr / ii,
                        ii >= 2,
                        rr == ii * (rr / ii) + rr % ii,
                        rr % ii >= 0,
                ;
                assert(ii < rr) by (nonlinear_arith)
                    requires
                        ii * ii <= rr,
                        ii >= 2,
                        rr > 1,
                ;
                assert(rr % ii == 0);
            }
            return true;
        }
        proof {
            let ii = i as int;
            lemma_fundamental_div_mod(rr, ii);
            assert(ii * ii <= rr) by (nonlinear_arith)
                requires
                    ii <= rr / ii,
                    ii >= 2,
                    rr == ii * (rr / ii) + rr % ii,
                    rr % ii >= 0,
            ;
            assert(ii < rr) by (nonlinear_arith)
                requires
                    ii * ii <= rr,
                    ii >= 2,
                    rr > 1,
            ;
        }
        i = i + 1;
    }
    proof {
        let ii = i as int;
        lemma_fundamental_div_mod(rr, ii);
        assert(ii * ii > rr) by (nonlinear_arith)
            requires
                ii > rr / ii,
                ii >= 2,
                rr == ii * (rr / ii) + rr % ii,
                rr % ii < ii,
        ;
        assert forall|d: int| 2 <= d < rr implies #[trigger] (rr % d) != 0 by {
            if rr % d == 0 && d >= ii {
                lemma_fundamental_div_mod(rr, d);
                let q = rr / d;
                assert(rr == d * q);
                assert(q >= 2) by (nonlinear_arith)
                    requires
                        rr == d * q,
                        2 <= d < rr,
                ;
                assert(q < ii) by (nonlinear_arith)
                    requires
                        rr == d * q,
                        d >= ii,
                        q >= 2,
                        ii >= 2,
                        ii * ii > rr,
                ;
                assert(rr % q == 0) by (nonlinear_arith)
                    requires
                        rr == d * q,
                        q >= 2,
                ;
                assert(false);
            }
        }
    }
    false
}

} // verus!
