//! Configuration of the auto-batching proxy service.
use vstd::prelude::*;

verus! {

/// Configuration settings for the batching proxy service.
#[derive(Debug, Clone)]
pub struct Config {
    /// Maximum time to wait before processing a batch (in milliseconds).
    /// This is a "soft" limit - batches may be processed earlier if size threshold is reached.
    pub soft_max_wait_time_ms: u64,
    /// Maximum number of items to include in a single batch.
    /// This is a "soft" limit - batches may exceed this size to keep requests together.
    pub soft_max_batch_size: usize,
    /// URL of the upstream inference service.
    pub inference_url: String,
}

/// Default wait time, in milliseconds.
pub const DEFAULT_SOFT_MAX_WAIT_TIME_MS: u64 = 100;

/// Default batch size.
pub const DEFAULT_SOFT_MAX_BATCH_SIZE: usize = 32;

/// The URL of the upstream inference service when none is configured.
pub open spec fn default_inference_url() -> Seq<char> {
    "http://aubapr-inference:8080"@
}

/// The default inference URL as a string.
fn default_url() -> (r: String)
    ensures
        r@ == default_inference_url(),
{
    "http://aubapr-inference:8080".to_string()
}

/// Whether `c` is an ASCII decimal digit.
pub open spec fn is_decimal_digit(c: char) -> bool {
    '0' <= c && c <= '9'
}

/// The value of a decimal digit.
pub open spec fn digit_value(c: char) -> int {
    c as int - '0' as int
}

/// The number written by the decimal digits `ds`, most significant first.
pub open spec fn decimal_value(ds: Seq<char>) -> int
    decreases ds.len(),
{
    if ds.len() == 0 {
        0
    } else {
        decimal_value(ds.drop_last()) * 10 + digit_value(ds.last())
    }
}

/// All characters of `ds` are decimal digits.
pub open spec fn all_digits(ds: Seq<char>) -> bool {
    forall|i: int| 0 <= i < ds.len() ==> is_decimal_digit(#[trigger] ds[i])
}

/// The digits of an unsigned number as written: an optional leading `+` is
/// dropped.
pub open spec fn unsigned_digits(s: Seq<char>) -> Seq<char> {
    if s.len() > 0 && s[0] == '+' {
        s.skip(1)
    } else {
        s
    }
}

/// What reading `s` as an unsigned decimal number of at most `max` gives:
/// an optional `+`, then at least one ASCII digit and nothing else, of a
/// value that fits.
pub open spec fn parsed_unsigned(s: Seq<char>, max: nat) -> Option<nat> {
    let ds = unsigned_digits(s);
    if ds.len() > 0 && all_digits(ds) && decimal_value(ds) <= max {
        Some(decimal_value(ds) as nat)
    } else {
        None
    }
}

/// Reading a number written with a leading `+` gives the same as without
/// it (one `+` at most is allowed).
pub proof fn law_parse_plus_sign(ds: Seq<char>, max: nat)
    requires
        ds.len() == 0 || ds[0] != '+',
    ensures
        parsed_unsigned(seq!['+'] + ds, max) == parsed_unsigned(ds, max),
{
    assert((seq!['+'] + ds).skip(1) =~= ds);
}

/// A single character reads as its digit value when it is a decimal digit
/// that fits, and as nothing otherwise; the empty text reads as nothing.
pub proof fn law_parse_one_character(c: char, max: nat)
    requires
        c != '+',
    ensures
        parsed_unsigned(Seq::<char>::empty(), max) is None,
        parsed_unsigned(seq![c], max) == if '0' <= c <= '9' && c as int - '0' as int <= max {
            Some((c as int - '0' as int) as nat)
        } else {
            None
        },
{
    let s = seq![c];
    assert(s.drop_last() =~= Seq::<char>::empty());
    assert(decimal_value(s.drop_last()) == 0);
}

/// Writing one more character after the digits of a number: a decimal
/// digit `d` turns the value `v` into `10 * v + d` while that fits; any
/// other character makes the text unreadable.
pub proof fn law_parse_next_character(s: Seq<char>, c: char, max: nat, v: nat)
    requires
        parsed_unsigned(s, max) == Some(v),
    ensures
        !('0' <= c <= '9') ==> parsed_unsigned(s.push(c), max) is None,
        '0' <= c <= '9' ==> parsed_unsigned(s.push(c), max) == if 10 * v + (c as int - '0' as int)
            <= max {
            Some((10 * v + (c as int - '0' as int)) as nat)
        } else {
            None
        },
{
    let ds = unsigned_digits(s);
    let ds2 = unsigned_digits(s.push(c));
    if s.len() > 0 && s[0] == '+' {
        assert(ds2 =~= ds.push(c));
    } else {
        assert(ds2 =~= ds.push(c));
    }
    assert(ds2.drop_last() =~= ds);
    assert(ds2.last() == c);
    assert(decimal_value(ds2) == decimal_value(ds) * 10 + digit_value(c));
    lemma_decimal_value_nonneg(ds);
    assert(decimal_value(ds) == v);
    if !('0' <= c <= '9') {
        assert(!is_decimal_digit(ds2[ds2.len() - 1]));
    } else {
        assert forall|i: int| 0 <= i < ds2.len() implies is_decimal_digit(#[trigger] ds2[i]) by {
            if i < ds.len() {
                assert(ds2[i] == ds[i]);
            }
        }
    }
}

/// A number written in digits is at least the number written by any of its
/// prefixes.
proof fn lemma_decimal_value_prefix(ds: Seq<char>, j: int)
    requires
        all_digits(ds),
        0 <= j <= ds.len(),
    ensures
        0 <= decimal_value(ds.take(j)) <= decimal_value(ds),
    decreases ds.len() - j,
{
    if j < ds.len() {
        lemma_decimal_value_prefix(ds, j + 1);
        assert(ds.take(j + 1).drop_last() =~= ds.take(j));
        lemma_decimal_value_nonneg(ds.take(j));
    } else {
        assert(ds.take(j) =~= ds);
        lemma_decimal_value_nonneg(ds);
    }
}

/// A number written in digits is not negative.
proof fn lemma_decimal_value_nonneg(ds: Seq<char>)
    requires
        all_digits(ds),
    ensures
        decimal_value(ds) >= 0,
    decreases ds.len(),
{
    if ds.len() > 0 {
        lemma_decimal_value_nonneg(ds.drop_last());
    }
}

/// Read `s` as an unsigned decimal number no greater than `max`, the way
/// `str::parse` reads an unsigned integer type.
pub fn parse_unsigned(s: &str, max: u64) -> (r: Option<u64>)
    ensures
        r is Some <==> parsed_unsigned(s@, max as nat) is Some,
        r matches Some(v) ==> parsed_unsigned(s@, max as nat) == Some(v as nat) && v <= max,
{
    let len = s.unicode_len();
    let start: usize = if len > 0 && s.get_char(0) == '+' {
        1
    } else {
        0
    };
    let ghost ds = unsigned_digits(s@);
    assert(ds =~= s@.skip(start as int));
    if start >= len {
        return None;
    }
    let mut value: u64 = 0;
    let mut i: usize = start;
    while i < len
        invariant
            len == s@.len(),
            start <= i <= len,
            ds == s@.skip(start as int),
            ds == unsigned_digits(s@),
            all_digits(ds.take(i - start)),
            value as int == decimal_value(ds.take(i - start)),
            value <= max,
        decreases len - i,
    {
        let c = s.get_char(i);
        assert(ds[i - start] == c);
        if c < '0' || c > '9' {
            assert(!is_decimal_digit(ds[i - start]));
            assert(!all_digits(ds));
            return None;
        }
        let d = (c as u32 - '0' as u32) as u64;
        proof {
            assert(ds.take(i + 1 - start).drop_last() =~= ds.take(i - start));
            assert(ds.take(i + 1 - start).last() == c);
            assert(all_digits(ds.take(i + 1 - start)));
            assert(decimal_value(ds.take(i + 1 - start)) == value * 10 + d);
        }
        let next = match value.checked_mul(10) {
            Some(v) => v.checked_add(d),
            None => None,
        };
        match next {
            Some(v) if v <= max => {
                value = v;
            },
            _ => {
                proof {
                    if all_digits(ds) {
                        lemma_decimal_value_prefix(ds, i + 1 - start);
                    }
                }
                return None;
            },
        }
        i += 1;
    }
    assert(ds.take(len - start) =~= ds);
    Some(value)
}

impl Config {
    /// Build the configuration from the values of the environment variables
    /// `SOFT_MAX_WAIT_TIME_MS`, `SOFT_MAX_BATCH_SIZE` and `INFERENCE_URL`
    /// (`None` where a variable is not set). A missing or unreadable number
    /// falls back to its default, a missing URL to the default URL.
    pub fn from_env_values(
        wait_time_ms: Option<String>,
        batch_size: Option<String>,
        inference_url: Option<String>,
    ) -> (r: Config)
        ensures
            r.soft_max_wait_time_ms == match wait_time_ms {
                Some(s) => match parsed_unsigned(s@, u64::MAX as nat) {
                    Some(v) => v as u64,
                    None => DEFAULT_SOFT_MAX_WAIT_TIME_MS,
                },
                None => DEFAULT_SOFT_MAX_WAIT_TIME_MS,
            },
            r.soft_max_batch_size == match batch_size {
                Some(s) => match parsed_unsigned(s@, usize::MAX as nat) {
                    Some(v) => v as usize,
                    None => DEFAULT_SOFT_MAX_BATCH_SIZE,
                },
                None => DEFAULT_SOFT_MAX_BATCH_SIZE,
            },
            r.inference_url@ == match inference_url {
                Some(u) => u@,
                None => default_inference_url(),
            },
    {
        let soft_max_wait_time_ms = match &wait_time_ms {
            Some(s) => match parse_unsigned(s.as_str(), u64::MAX) {
                Some(v) => v,
                None => DEFAULT_SOFT_MAX_WAIT_TIME_MS,
            },
            None => DEFAULT_SOFT_MAX_WAIT_TIME_MS,
        };
        assert(usize::MAX <= u64::MAX);
        assert(usize::MAX as u64 == usize::MAX);
        let soft_max_batch_size = match &batch_size {
            Some(s) => match parse_unsigned(s.as_str(), usize::MAX as u64) {
                Some(v) => {
                    assert(v <= usize::MAX);
                    v as usize
                },
                None => DEFAULT_SOFT_MAX_BATCH_SIZE,
            },
            None => DEFAULT_SOFT_MAX_BATCH_SIZE,
        };
        let inference_url = match inference_url {
            Some(u) => u,
            None => default_url(),
        };
        Config { soft_max_wait_time_ms, soft_max_batch_size, inference_url }
    }

    /// Validate configuration values: both limits must be positive and the
    /// URL must not be empty. The first violation found is reported.
    pub fn validate(&self) -> (r: Result<(), String>)
        ensures
            self.soft_max_wait_time_ms == 0 ==> (r matches Err(m) && m@
                == "soft_max_wait_time_ms must be greater than 0"@),
            self.soft_max_wait_time_ms > 0 && self.soft_max_batch_size == 0 ==> (r matches Err(m)
                && m@ == "soft_max_batch_size must be greater than 0"@),
            self.soft_max_wait_time_ms > 0 && self.soft_max_batch_size > 0
                && self.inference_url@.len() == 0 ==> (r matches Err(m) && m@
                == "inference_url cannot be empty"@),
            r is Ok <==> (self.soft_max_wait_time_ms > 0 && self.soft_max_batch_size > 0
                && self.inference_url@.len() > 0),
    {
        if self.soft_max_wait_time_ms == 0 {
            return Err("soft_max_wait_time_ms must be greater than 0".to_string());
        }
        if self.soft_max_batch_size == 0 {
            return Err("soft_max_batch_size must be greater than 0".to_string());
        }
        if self.inference_url.as_str().is_empty() {
            return Err("inference_url cannot be empty".to_string());
        }
        Ok(())
    }
}

impl Default for Config {
    fn default() -> (r: Self)
        ensures
            r.soft_max_wait_time_ms == DEFAULT_SOFT_MAX_WAIT_TIME_MS,
            r.soft_max_batch_size == DEFAULT_SOFT_MAX_BATCH_SIZE,
            r.inference_url@ == default_inference_url(),
    {
        Config {
            soft_max_wait_time_ms: DEFAULT_SOFT_MAX_WAIT_TIME_MS,
            soft_max_batch_size: DEFAULT_SOFT_MAX_BATCH_SIZE,
            inference_url: default_url(),
        }
    }
}

} // verus!
