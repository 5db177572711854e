//! Process-wide options: a read-only set of named, typed, validated
//! fields supplied once at process start.
//!
//! An option is set from a key and a textual value: the value is parsed
//! at the key's type and validated, and only a valid value replaces the
//! default.  Keys arrive either already in snake case or in camel case
//! (every ASCII uppercase letter becomes an underscore and its lowercase
//! form).  Asking for a key that names no option is a programming error,
//! not a runtime condition, so the entry points require a known key.

use vstd::prelude::*;
use vstd::arithmetic::div_mod::{lemma_fundamental_div_mod, lemma_mod_bound};
use vstd::string::StringSliceAdditionalSpecFns;

verus! {

/// Default stress-test period in bytes: effectively never.
pub const DEFAULT_STRESS_FACTOR: usize = usize::MAX;

/// The zeroing approach for new object allocations.
#[derive(Copy, Clone, Debug, PartialEq, Eq, Structural)]
pub enum NurseryZeroingOptions {
    Temporal,
    Nontemporal,
    Concurrent,
    Adaptive,
}

/// The plan to create an instance with.
#[derive(Copy, Clone, Debug, PartialEq, Eq, Structural)]
pub enum PlanSelector {
    NoGC,
    SemiSpace,
    GenCopy,
    MarkSweep,
}

/// The process-wide option set.
pub struct Options {
    /// The plan to use.
    pub plan: PlanSelector,
    /// Number of GC threads.
    pub threads: usize,
    /// Scan only the changed part of each stack.
    pub use_short_stack_scans: bool,
    /// Enable a return barrier.
    pub use_return_barrier: bool,
    /// Eagerly finish sweeping at the start of a collection.
    pub eager_complete_sweep: bool,
    /// Ignore collections requested by the user.
    pub ignore_system_g_c: bool,
    /// Upper bound of the nursery size.
    pub max_nursery: usize,
    /// Lower bound of the nursery size.
    pub min_nursery: usize,
    /// Perform a major collection when a user collection is required.
    pub full_heap_system_gc: bool,
    /// Shrink or grow the heap with the working set.
    pub variable_size_heap: bool,
    /// Disable finalization.
    pub no_finalizer: bool,
    /// Disable reference-type processing.
    pub no_reference_types: bool,
    /// The zeroing approach for new object allocations.
    pub nursery_zeroing: NurseryZeroingOptions,
    /// How frequently, in bytes, to force a stress collection.
    pub stress_factor: usize,
    /// How frequently, in bytes, to run analysis.
    pub analysis_factor: usize,
    /// The size of the virtual-machine space.
    pub vm_space_size: usize,
    /// An example string option; must start with "hello".
    pub example_string_option: String,
}

/// Ghost image of an option set: the string option as its character
/// sequence, everything else as itself.
pub struct OptionsData {
    pub plan: PlanSelector,
    pub threads: usize,
    pub use_short_stack_scans: bool,
    pub use_return_barrier: bool,
    pub eager_complete_sweep: bool,
    pub ignore_system_g_c: bool,
    pub max_nursery: usize,
    pub min_nursery: usize,
    pub full_heap_system_gc: bool,
    pub variable_size_heap: bool,
    pub no_finalizer: bool,
    pub no_reference_types: bool,
    pub nursery_zeroing: NurseryZeroingOptions,
    pub stress_factor: usize,
    pub analysis_factor: usize,
    pub vm_space_size: usize,
    pub example_string_option: Seq<char>,
}

impl View for Options {
    type V = OptionsData;

    open spec fn view(&self) -> OptionsData {
        OptionsData {
            plan: self.plan,
            threads: self.threads,
            use_short_stack_scans: self.use_short_stack_scans,
            use_return_barrier: self.use_return_barrier,
            eager_complete_sweep: self.eager_complete_sweep,
            ignore_system_g_c: self.ignore_system_g_c,
            max_nursery: self.max_nursery,
            min_nursery: self.min_nursery,
            full_heap_system_gc: self.full_heap_system_gc,
            variable_size_heap: self.variable_size_heap,
            no_finalizer: self.no_finalizer,
            no_reference_types: self.no_reference_types,
            nursery_zeroing: self.nursery_zeroing,
            stress_factor: self.stress_factor,
            analysis_factor: self.analysis_factor,
            vm_space_size: self.vm_space_size,
            example_string_option: self.example_string_option@,
        }
    }
}

/// Every byte of `s` is an ASCII digit.
pub open spec fn spec_all_digits(s: Seq<u8>) -> bool {
    forall|i: int| 0 <= i < s.len() ==> 48 <= #[trigger] s[i] <= 57
}

/// The number the digit string `s` denotes.
pub open spec fn spec_digits_val(s: Seq<u8>) -> int
    decreases s.len(),
{
    if s.len() == 0 {
        0
    } else {
        spec_digits_val(s.drop_last()) * 10 + (s.last() - 48)
    }
}

/// What `str::parse::<usize>` accepts: an optional leading plus sign,
/// then one or more digits denoting a value that fits the type.
pub open spec fn spec_parse_usize(s: Seq<u8>) -> Option<int> {
    let t = if s.len() > 0 && s[0] == 43 {
        s.drop_first()
    } else {
        s
    };
    if t.len() == 0 || !spec_all_digits(t) || spec_digits_val(t) > usize::MAX {
        None
    } else {
        Some(spec_digits_val(t))
    }
}

/// What `str::parse::<bool>` accepts.
pub open spec fn spec_parse_bool(s: Seq<u8>) -> Option<bool> {
    if s == "true".spec_bytes() {
        Some(true)
    } else if s == "false".spec_bytes() {
        Some(false)
    } else {
        None
    }
}

/// The plan selector a value names.
pub open spec fn spec_parse_plan(s: Seq<u8>) -> Option<PlanSelector> {
    if s == "NoGC".spec_bytes() {
        Some(PlanSelector::NoGC)
    } else if s == "SemiSpace".spec_bytes() {
        Some(PlanSelector::SemiSpace)
    } else if s == "GenCopy".spec_bytes() {
        Some(PlanSelector::GenCopy)
    } else if s == "MarkSweep".spec_bytes() {
        Some(PlanSelector::MarkSweep)
    } else {
        None
    }
}

/// The zeroing option a value names.
pub open spec fn spec_parse_zeroing(s: Seq<u8>) -> Option<NurseryZeroingOptions> {
    if s == "Temporal".spec_bytes() {
        Some(NurseryZeroingOptions::Temporal)
    } else if s == "Nontemporal".spec_bytes() {
        Some(NurseryZeroingOptions::Nontemporal)
    } else if s == "Concurrent".spec_bytes() {
        Some(NurseryZeroingOptions::Concurrent)
    } else if s == "Adaptive".spec_bytes() {
        Some(NurseryZeroingOptions::Adaptive)
    } else {
        None
    }
}

/// The camel-to-snake conversion applied to keys: each ASCII uppercase
/// letter becomes an underscore followed by its lowercase form.
pub open spec fn spec_snake_one(c: u8) -> Seq<u8> {
    if 65 <= c <= 90 {
        seq![95u8, (c + 32) as u8]
    } else {
        seq![c]
    }
}

pub open spec fn spec_snake(s: Seq<u8>) -> Seq<u8>
    decreases s.len(),
{
    if s.len() == 0 {
        Seq::empty()
    } else {
        spec_snake(s.drop_last()) + spec_snake_one(s.last())
    }
}

/// Whether `key` names an option.
pub open spec fn spec_is_option_key(key: Seq<u8>) -> bool {
    ||| key == "plan".spec_bytes()
    ||| key == "threads".spec_bytes()
    ||| key == "use_short_stack_scans".spec_bytes()
    ||| key == "use_return_barrier".spec_bytes()
    ||| key == "eager_complete_sweep".spec_bytes()
    ||| key == "ignore_system_g_c".spec_bytes()
    ||| key == "max_nursery".spec_bytes()
    ||| key == "min_nursery".spec_bytes()
    ||| key == "full_heap_system_gc".spec_bytes()
    ||| key == "variable_size_heap".spec_bytes()
    ||| key == "no_finalizer".spec_bytes()
    ||| key == "no_reference_types".spec_bytes()
    ||| key == "nursery_zeroing".spec_bytes()
    ||| key == "stress_factor".spec_bytes()
    ||| key == "analysis_factor".spec_bytes()
    ||| key == "vm_space_size".spec_bytes()
    ||| key == "example_string_option".spec_bytes()
}

/// Setting one option: parse `val` at the key's type, validate it, and
/// replace the field only when both succeed.  The second component says
/// whether the value was accepted.
pub open spec fn spec_set_option(
    o: OptionsData,
    key: Seq<u8>,
    val: Seq<u8>,
    val_chars: Seq<char>,
) -> (OptionsData, bool) {
    if key == "plan".spec_bytes() {
        match spec_parse_plan(val) {
            Some(v) => (OptionsData { plan: v, ..o }, true),
            None => (o, false),
        }
    } else if key == "threads".spec_bytes() {
        match spec_parse_usize(val) {
            Some(v) => if v > 0 {
                (OptionsData { threads: v as usize, ..o }, true)
            } else {
                (o, false)
            },
            None => (o, false),
        }
    } else if key == "use_short_stack_scans".spec_bytes() {
        match spec_parse_bool(val) {
            Some(v) => (OptionsData { use_short_stack_scans: v, ..o }, true),
            None => (o, false),
        }
    } else if key == "use_return_barrier".spec_bytes() {
        match spec_parse_bool(val) {
            Some(v) => (OptionsData { use_return_barrier: v, ..o }, true),
            None => (o, false),
        }
    } else if key == "eager_complete_sweep".spec_bytes() {
        match spec_parse_bool(val) {
            Some(v) => (OptionsData { eager_complete_sweep: v, ..o }, true),
            None => (o, false),
        }
    } else if key == "ignore_system_g_c".spec_bytes() {
        match spec_parse_bool(val) {
            Some(v) => (OptionsData { ignore_system_g_c: v, ..o }, true),
            None => (o, false),
        }
    } else if key == "max_nursery".spec_bytes() {
        match spec_parse_usize(val) {
            Some(v) => if v > 0 {
                (OptionsData { max_nursery: v as usize, ..o }, true)
            } else {
                (o, false)
            },
            None => (o, false),
        }
    } else if key == "min_nursery".spec_bytes() {
        match spec_parse_usize(val) {
            Some(v) => if v > 0 {
                (OptionsData { min_nursery: v as usize, ..o }, true)
            } else {
                (o, false)
            },
            None => (o, false),
        }
    } else if key == "full_heap_system_gc".spec_bytes() {
        match spec_parse_bool(val) {
            Some(v) => (OptionsData { full_heap_system_gc: v, ..o }, true),
            None => (o, false),
        }
    } else if key == "variable_size_heap".spec_bytes() {
        match spec_parse_bool(val) {
            Some(v) => (OptionsData { variable_size_heap: v, ..o }, true),
            None => (o, false),
        }
    } else if key == "no_finalizer".spec_bytes() {
        match spec_parse_bool(val) {
            Some(v) => (OptionsData { no_finalizer: v, ..o }, true),
            None => (o, false),
        }
    } else if key == "no_reference_types".spec_bytes() {
        match spec_parse_bool(val) {
            Some(v) => (OptionsData { no_reference_types: v, ..o }, true),
            None => (o, false),
        }
    } else if key == "nursery_zeroing".spec_bytes() {
        match spec_parse_zeroing(val) {
            Some(v) => (OptionsData { nursery_zeroing: v, ..o }, true),
            None => (o, false),
        }
    } else if key == "stress_factor".spec_bytes() {
        match spec_parse_usize(val) {
            Some(v) => (OptionsData { stress_factor: v as usize, ..o }, true),
            None => (o, false),
        }
    } else if key == "analysis_factor".spec_bytes() {
        match spec_parse_usize(val) {
            Some(v) => (OptionsData { analysis_factor: v as usize, ..o }, true),
            None => (o, false),
        }
    } else if key == "vm_space_size".spec_bytes() {
        match spec_parse_usize(val) {
            Some(v) => if v > 0 {
                (OptionsData { vm_space_size: v as usize, ..o }, true)
            } else {
                (o, false)
            },
            None => (o, false),
        }
    } else if key == "example_string_option".spec_bytes() {
        if val.len() >= "hello".spec_bytes().len() && val.take(
            "hello".spec_bytes().len() as int,
        ) == "hello".spec_bytes() {
            (OptionsData { example_string_option: val_chars, ..o }, true)
        } else {
            (o, false)
        }
    } else {
        (o, false)
    }
}

/// A validator that accepts every value.
pub fn always_valid<T>(v: &T) -> (r: bool)
    ensures
        r,
{
    true
}

/// Byte-for-byte equality of two byte slices.
fn bytes_eq(a: &[u8], b: &[u8]) -> (r: bool)
    ensures
        r == (a@ == b@),
{
    if a.len() != b.len() {
        return false;
    }
    let n = a.len();
    let mut i: usize = 0;
    while i < n
        invariant
            n == a@.len() == b@.len(),
            i <= n,
            forall|k: int| 0 <= k < i ==> a@[k] == b@[k],
        decreases n - i,
    {
        if a[i] != b[i] {
            return false;
        }
        i = i + 1;
    }
    proof {
        assert(a@ =~= b@);
    }
    true
}

/// Whether `p` is a prefix of `a`.
fn bytes_prefix(a: &[u8], p: &[u8]) -> (r: bool)
    ensures
        r == (a@.len() >= p@.len() && a@.take(p@.len() as int) == p@),
{
    if a.len() < p.len() {
        return false;
    }
    let n = p.len();
    let mut i: usize = 0;
    while i < n
        invariant
            n == p@.len(),
            n <= a@.len(),
            i <= n,
            forall|k: int| 0 <= k < i ==> a@[k] == p@[k],
        decreases n - i,
    {
        if a[i] != p[i] {
            proof {
                assert(a@.take(n as int)[i as int] != p@[i as int]);
            }
            return false;
        }
        i = i + 1;
    }
    proof {
        assert(a@.take(n as int) =~= p@);
    }
    true
}

/// The digit string's value never goes negative.
proof fn lemma_digits_val_nonneg(s: Seq<u8>)
    requires
        spec_all_digits(s),
    ensures
        spec_digits_val(s) >= 0,
    decreases s.len(),
{
    if s.len() > 0 {
        lemma_digits_val_nonneg(s.drop_last());
    }
}

/// A digit string denotes at least as much as any of its prefixes.
proof fn lemma_digits_val_take_le(s: Seq<u8>, k: int)
    requires
        spec_all_digits(s),
        0 <= k <= s.len(),
    ensures
        spec_digits_val(s.take(k)) <= spec_digits_val(s),
    decreases s.len() - k,
{
    if k < s.len() {
        assert(s.take(k + 1).drop_last() =~= s.take(k));
        assert(spec_all_digits(s.take(k + 1)));
        lemma_digits_val_nonneg(s.take(k));
        assert(spec_digits_val(s.take(k + 1)) == spec_digits_val(s.take(k)) * 10 + (s[k] - 48));
        assert(spec_digits_val(s.take(k)) * 10 >= spec_digits_val(s.take(k))) by (nonlinear_arith)
            requires spec_digits_val(s.take(k)) >= 0;
        lemma_digits_val_take_le(s, k + 1);
        assert(s.take(s.len() as int) =~= s);
    } else {
        assert(s.take(s.len() as int) =~= s);
    }
}

/// Parse an unsigned size as `str::parse::<usize>` does: an optional
/// leading plus sign, then decimal digits; fails on anything else and on
/// overflow.
pub fn parse_usize(val: &str) -> (r: Option<usize>)
    ensures
        match r {
            Some(v) => spec_parse_usize(val.spec_bytes()) == Some(v as int),
            None => spec_parse_usize(val.spec_bytes()) is None,
        },
{
    let b = val.as_bytes();
    let n = b.len();
    let start: usize = if n > 0 && b[0] == 43 {
        1
    } else {
        0
    };
    let ghost t = if val.spec_bytes().len() > 0 && val.spec_bytes()[0] == 43 {
        val.spec_bytes().drop_first()
    } else {
        val.spec_bytes()
    };
    if start >= n {
        proof {
            assert(t.len() == 0);
        }
        return None;
    }
    let mut acc: usize = 0;
    let mut j: usize = start;
    proof {
        assert(t =~= b@.subrange(start as int, n as int));
        assert(t.take(0) =~= Seq::<u8>::empty());
    }
    while j < n
        invariant
            start <= j <= n,
            n == b@.len(),
            b@ == val.spec_bytes(),
            t == (if val.spec_bytes().len() > 0 && val.spec_bytes()[0] == 43 {
                val.spec_bytes().drop_first()
            } else {
                val.spec_bytes()
            }),
            t =~= b@.subrange(start as int, n as int),
            t.len() == n - start,
            spec_all_digits(t.take(j - start)),
            acc == spec_digits_val(t.take(j - start)),
        decreases n - j,
    {
        let d = b[j];
        proof {
            assert(t[j - start] == b@[j as int]);
        }
        if d < 48 || d > 57 {
            proof {
                assert(!spec_all_digits(t)) by {
                    if spec_all_digits(t) {
                        assert(48 <= t[j - start] <= 57);
                    }
                }
            }
            return None;
        }
        let dv = (d - 48) as usize;
        let ghost k = j - start;
        proof {
            assert(t.take(k + 1).drop_last() =~= t.take(k));
            assert(spec_digits_val(t.take(k + 1)) == acc * 10 + dv);
            lemma_fundamental_div_mod(usize::MAX as int, 10);
        }
        if acc > usize::MAX / 10 || (acc == usize::MAX / 10 && dv > usize::MAX % 10) {
            proof {
                assert(spec_digits_val(t.take(k + 1)) > usize::MAX) by {
                    if acc > usize::MAX / 10 {
                        assert(acc * 10 >= (usize::MAX as int / 10 + 1) * 10) by (nonlinear_arith)
                            requires acc >= usize::MAX as int / 10 + 1;
                    }
                }
                if spec_all_digits(t) && spec_digits_val(t) <= usize::MAX {
                    lemma_digits_val_take_le(t, k + 1);
                }
            }
            return None;
        }
        proof {
            assert(acc * 10 + dv <= usize::MAX) by {
                if acc < usize::MAX / 10 {
                    assert(acc * 10 <= (usize::MAX as int / 10 - 1) * 10) by (nonlinear_arith)
                        requires acc <= usize::MAX as int / 10 - 1;
                } else {
                    assert(acc == usize::MAX / 10 && dv <= usize::MAX % 10);
                }
            }
        }
        acc = acc * 10 + dv;
        j = j + 1;
    }
    proof {
        assert(t.take(n - start) =~= t);
    }
    Some(acc)
}

/// Parse a boolean as `str::parse::<bool>` does.
pub fn parse_bool(val: &str) -> (r: Option<bool>)
    ensures
        r == spec_parse_bool(val.spec_bytes()),
{
    let b = val.as_bytes();
    if bytes_eq(b, "true".as_bytes()) {
        Some(true)
    } else if bytes_eq(b, "false".as_bytes()) {
        Some(false)
    } else {
        None
    }
}

/// Parse a plan selector from its variant name.
pub fn parse_plan_selector(val: &str) -> (r: Option<PlanSelector>)
    ensures
        r == spec_parse_plan(val.spec_bytes()),
{
    let b = val.as_bytes();
    if bytes_eq(b, "NoGC".as_bytes()) {
        Some(PlanSelector::NoGC)
    } else if bytes_eq(b, "SemiSpace".as_bytes()) {
        Some(PlanSelector::SemiSpace)
    } else if bytes_eq(b, "GenCopy".as_bytes()) {
        Some(PlanSelector::GenCopy)
    } else if bytes_eq(b, "MarkSweep".as_bytes()) {
        Some(PlanSelector::MarkSweep)
    } else {
        None
    }
}

/// Parse a zeroing option from its variant name.
pub fn parse_nursery_zeroing(val: &str) -> (r: Option<NurseryZeroingOptions>)
    ensures
        r == spec_parse_zeroing(val.spec_bytes()),
{
    let b = val.as_bytes();
    if bytes_eq(b, "Temporal".as_bytes()) {
        Some(NurseryZeroingOptions::Temporal)
    } else if bytes_eq(b, "Nontemporal".as_bytes()) {
        Some(NurseryZeroingOptions::Nontemporal)
    } else if bytes_eq(b, "Concurrent".as_bytes()) {
        Some(NurseryZeroingOptions::Concurrent)
    } else if bytes_eq(b, "Adaptive".as_bytes()) {
        Some(NurseryZeroingOptions::Adaptive)
    } else {
        None
    }
}

/// Relies on num_cpus::get: the number of logical CPUs available to this
/// process, documented to always be at least one.
#[verifier::external_body]
fn available_cpus() -> (n: usize)
    ensures
        1 <= n,
{
    num_cpus::get()
}

impl Options {
    /// Set the option named by the snake-case `key` from the textual
    /// `val`: parse at the key's type, validate, and keep the old value
    /// when either fails.  Returns whether the value was accepted.
    #[verifier::rlimit(100)]
    #[verifier::spinoff_prover]
    fn set_from_key_bytes(&mut self, key: &[u8], val: &str) -> (r: bool)
        requires
            spec_is_option_key(key@),
        ensures
            ({
                let st = spec_set_option(old(self)@, key@, val.spec_bytes(), val@);
                final(self)@ == st.0 && r == st.1
            }),
    {
        if bytes_eq(key, "plan".as_bytes()) {
            match parse_plan_selector(val) {
                Some(v) => {
                    self.plan = v;
                    true
                },
                None => false,
            }
        } else if bytes_eq(key, "threads".as_bytes()) {
            match parse_usize(val) {
                Some(v) => if v > 0 {
                    self.threads = v;
                    true
                } else {
                    false
                },
                None => false,
            }
        } else if bytes_eq(key, "use_short_stack_scans".as_bytes()) {
            match parse_bool(val) {
                Some(v) => {
                    self.use_short_stack_scans = v;
                    true
                },
                None => false,
            }
        } else if bytes_eq(key, "use_return_barrier".as_bytes()) {
            match parse_bool(val) {
                Some(v) => {
                    self.use_return_barrier = v;
                    true
                },
                None => false,
            }
        } else if bytes_eq(key, "eager_complete_sweep".as_bytes()) {
            match parse_bool(val) {
                Some(v) => {
                    self.eager_complete_sweep = v;
                    true
                },
                None => false,
            }
        } else if bytes_eq(key, "ignore_system_g_c".as_bytes()) {
            match parse_bool(val) {
                Some(v) => {
                    self.ignore_system_g_c = v;
                    true
                },
                None => false,
            }
        } else if bytes_eq(key, "max_nursery".as_bytes()) {
            match parse_usize(val) {
                Some(v) => if v > 0 {
                    self.max_nursery = v;
                    true
                } else {
                    false
                },
                None => false,
            }
        } else if bytes_eq(key, "min_nursery".as_bytes()) {
            match parse_usize(val) {
                Some(v) => if v > 0 {
                    self.min_nursery = v;
                    true
                } else {
                    false
                },
                None => false,
            }
        } else if bytes_eq(key, "full_heap_system_gc".as_bytes()) {
            match parse_bool(val) {
                Some(v) => {
                    self.full_heap_system_gc = v;
                    true
                },
                None => false,
            }
        } else if bytes_eq(key, "variable_size_heap".as_bytes()) {
            match parse_bool(val) {
                Some(v) => {
                    self.variable_size_heap = v;
                    true
                },
                None => false,
            }
        } else if bytes_eq(key, "no_finalizer".as_bytes()) {
            match parse_bool(val) {
                Some(v) => {
                    self.no_finalizer = v;
                    true
                },
                None => false,
            }
        } else if bytes_eq(key, "no_reference_types".as_bytes()) {
            match parse_bool(val) {
                Some(v) => {
                    self.no_reference_types = v;
                    true
                },
                None => false,
            }
        } else if bytes_eq(key, "nursery_zeroing".as_bytes()) {
            match parse_nursery_zeroing(val) {
                Some(v) => {
                    self.nursery_zeroing = v;
                    true
                },
                None => false,
            }
        } else if bytes_eq(key, "stress_factor".as_bytes()) {
            match parse_usize(val) {
                Some(v) => {
                    self.stress_factor = v;
                    true
                },
                None => false,
            }
        } else if bytes_eq(key, "analysis_factor".as_bytes()) {
            match parse_usize(val) {
                Some(v) => {
                    self.analysis_factor = v;
                    true
                },
                None => false,
            }
        } else if bytes_eq(key, "vm_space_size".as_bytes()) {
            match parse_usize(val) {
                Some(v) => if v > 0 {
                    self.vm_space_size = v;
                    true
                } else {
                    false
                },
                None => false,
            }
        } else {
            proof {
                assert(key@ == "example_string_option".spec_bytes());
            }
            if bytes_prefix(val.as_bytes(), "hello".as_bytes()) {
                self.example_string_option = val.to_owned();
                true
            } else {
                false
            }
        }
    }

    /// Set the option named by the snake-case key `s` from `val`.
    /// Asking for an unknown key is a programming error and excluded.
    pub fn set_from_str(&mut self, s: &str, val: &str) -> (r: bool)
        requires
            spec_is_option_key(s.spec_bytes()),
        ensures
            ({
                let st = spec_set_option(old(self)@, s.spec_bytes(), val.spec_bytes(), val@);
                final(self)@ == st.0 && r == st.1
            }),
    {
        self.set_from_key_bytes(s.as_bytes(), val)
    }

    /// Set the option named by the camel-case key `s` from `val`: the
    /// key is first folded to snake case, turning each ASCII uppercase
    /// letter into an underscore and its lowercase form.
    pub fn set_from_camelcase_str(&mut self, s: &str, val: &str) -> (r: bool)
        requires
            spec_is_option_key(spec_snake(s.spec_bytes())),
        ensures
            ({
                let st = spec_set_option(
                    old(self)@,
                    spec_snake(s.spec_bytes()),
                    val.spec_bytes(),
                    val@,
                );
                final(self)@ == st.0 && r == st.1
            }),
    {
        let b = s.as_bytes();
        let n = b.len();
        let mut sr: Vec<u8> = Vec::new();
        let mut i: usize = 0;
        while i < n
            invariant
                n == b@.len(),
                i <= n,
                sr@ =~= spec_snake(b@.take(i as int)),
            decreases n - i,
        {
            let c = b[i];
            if 65 <= c && c <= 90 {
                sr.push(95);
                sr.push(c + 32);
            } else {
                sr.push(c);
            }
            proof {
                assert(b@.take(i + 1).drop_last() =~= b@.take(i as int));
                assert(b@.take(i + 1).last() == b@[i as int]);
                assert(sr@ =~= spec_snake(b@.take(i + 1)));
            }
            i = i + 1;
        }
        proof {
            assert(b@.take(n as int) =~= b@);
        }
        self.set_from_key_bytes(sr.as_slice(), val)
    }
}

impl Default for Options {
    /// The built-in defaults: no collection plan, one GC thread per
    /// available CPU, 32 MiB nursery bounds, stress and analysis
    /// disabled, and the example string option's well-known value.
    fn default() -> (r: Options)
        ensures
            r.plan == PlanSelector::NoGC,
            r.threads >= 1,
            !r.use_short_stack_scans,
            !r.use_return_barrier,
            !r.eager_complete_sweep,
            !r.ignore_system_g_c,
            r.max_nursery == 33554432,
            r.min_nursery == 33554432,
            !r.full_heap_system_gc,
            r.variable_size_heap,
            !r.no_finalizer,
            !r.no_reference_types,
            r.nursery_zeroing == NurseryZeroingOptions::Temporal,
            r.stress_factor == DEFAULT_STRESS_FACTOR,
            r.analysis_factor == DEFAULT_STRESS_FACTOR,
            r.vm_space_size == 0x7cccccc,
            r.example_string_option@ == "hello world"@,
    {
        Options {
            plan: PlanSelector::NoGC,
            threads: available_cpus(),
            use_short_stack_scans: false,
            use_return_barrier: false,
            eager_complete_sweep: false,
            ignore_system_g_c: false,
            max_nursery: 33554432,
            min_nursery: 33554432,
            full_heap_system_gc: false,
            variable_size_heap: true,
            no_finalizer: false,
            no_reference_types: false,
            nursery_zeroing: NurseryZeroingOptions::Temporal,
            stress_factor: DEFAULT_STRESS_FACTOR,
            analysis_factor: DEFAULT_STRESS_FACTOR,
            vm_space_size: 0x7cccccc,
            example_string_option: "hello world".to_owned(),
        }
    }
}

/// The process-wide option holder: built once at process start, written
/// only during boot through `process`, and read-only afterwards.
pub struct UnsafeOptionsWrapper {
    /// The held option set.
    pub options: Options,
}

impl UnsafeOptionsWrapper {
    /// The held option set, as its ghost image.
    pub open spec fn view(&self) -> OptionsData {
        self.options@
    }

    /// Wrap an option set built during boot.
    pub fn new(o: Options) -> (r: UnsafeOptionsWrapper)
        ensures
            r@ == o@,
    {
        UnsafeOptionsWrapper { options: o }
    }

    /// Process one camel-case key/value pair during boot.  To be used by
    /// one thread before any concurrent access begins.
    pub fn process(&mut self, name: &str, value: &str) -> (r: bool)
        requires
            spec_is_option_key(spec_snake(name.spec_bytes())),
        ensures
            ({
                let st = spec_set_option(
                    old(self)@,
                    spec_snake(name.spec_bytes()),
                    value.spec_bytes(),
                    value@,
                );
                final(self)@ == st.0 && r == st.1
            }),
    {
        self.options.set_from_camelcase_str(name, value)
    }

    /// Read access to the frozen option set.
    pub fn get(&self) -> (r: &Options)
        ensures
            r@ == self@,
    {
        &self.options
    }
}

/// Whether `s`, folded to snake case, names an option — the guard a
/// caller tests before handing an arbitrary key to `process`.
pub fn valid_option_key(s: &str) -> (r: bool)
    ensures
        r == spec_is_option_key(spec_snake(s.spec_bytes())),
{
    let b = s.as_bytes();
    let n = b.len();
    let mut sr: Vec<u8> = Vec::new();
    let mut i: usize = 0;
    while i < n
        invariant
            n == b@.len(),
            i <= n,
            sr@ =~= spec_snake(b@.take(i as int)),
        decreases n - i,
    {
        let c = b[i];
        if 65 <= c && c <= 90 {
            sr.push(95);
            sr.push(c + 32);
        } else {
            sr.push(c);
        }
        proof {
            assert(b@.take(i + 1).drop_last() =~= b@.take(i as int));
            assert(b@.take(i + 1).last() == b@[i as int]);
            assert(sr@ =~= spec_snake(b@.take(i + 1)));
        }
        i = i + 1;
    }
    proof {
        assert(b@.take(n as int) =~= b@);
    }
    let k = sr.as_slice();
    bytes_eq(k, "plan".as_bytes()) || bytes_eq(k, "threads".as_bytes()) || bytes_eq(
        k,
        "use_short_stack_scans".as_bytes(),
    ) || bytes_eq(k, "use_return_barrier".as_bytes()) || bytes_eq(
        k,
        "eager_complete_sweep".as_bytes(),
    ) || bytes_eq(k, "ignore_system_g_c".as_bytes()) || bytes_eq(k, "max_nursery".as_bytes())
        || bytes_eq(k, "min_nursery".as_bytes()) || bytes_eq(k, "full_heap_system_gc".as_bytes())
        || bytes_eq(k, "variable_size_heap".as_bytes()) || bytes_eq(k, "no_finalizer".as_bytes())
        || bytes_eq(k, "no_reference_types".as_bytes()) || bytes_eq(
        k,
        "nursery_zeroing".as_bytes(),
    ) || bytes_eq(k, "stress_factor".as_bytes()) || bytes_eq(k, "analysis_factor".as_bytes())
        || bytes_eq(k, "vm_space_size".as_bytes()) || bytes_eq(
        k,
        "example_string_option".as_bytes(),
    )
}

} // verus!
