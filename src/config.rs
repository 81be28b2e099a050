//! Startup configuration: the output unit, the poll interval and the chip
//! name allow-list, resolved from the raw option values.

use vstd::prelude::*;
use vstd::string::*;

verus! {

/// The unit in which the average temperature is reported.
#[derive(Clone, Copy, Debug, PartialEq, Eq, Structural)]
pub enum TemperatureUnit {
    Celsius,
    Fahrenheit,
    Kelvin,
}

/// The unit that a `--unit` token names, if it names one (exact,
/// case-sensitive match, no aliases).
pub open spec fn unit_of_token(t: Seq<char>) -> Option<TemperatureUnit> {
    if t == "celsius"@ {
        Some(TemperatureUnit::Celsius)
    } else if t == "fahrenheit"@ {
        Some(TemperatureUnit::Fahrenheit)
    } else if t == "kelvin"@ {
        Some(TemperatureUnit::Kelvin)
    } else {
        None
    }
}

/// Reads a `--unit` token.
pub fn parse_unit(token: &str) -> (r: Option<TemperatureUnit>)
    ensures
        r == unit_of_token(token@),
{
    proof {
        reveal_strlit("celsius");
        reveal_strlit("fahrenheit");
        reveal_strlit("kelvin");
    }
    let t = token.to_owned();
    if t == "celsius".to_owned() {
        Some(TemperatureUnit::Celsius)
    } else if t == "fahrenheit".to_owned() {
        Some(TemperatureUnit::Fahrenheit)
    } else if t == "kelvin".to_owned() {
        Some(TemperatureUnit::Kelvin)
    } else {
        None
    }
}

/// Which chips are read: all of them, or those whose name is in a fixed
/// allow-list. An empty allow-list keeps no chip.
pub enum NameFilter {
    All,
    Only(Vec<String>),
}

/// Whether `name` equals, character for character, some entry of `names`.
pub open spec fn name_listed(names: Seq<String>, name: Seq<char>) -> bool {
    exists|i: int| 0 <= i < names.len() && (#[trigger] names[i])@ == name
}

impl NameFilter {
    /// The filter given by the `--names` option: absent means every chip.
    pub open spec fn from_option(names: Option<Vec<String>>) -> NameFilter {
        match names {
            Some(v) => NameFilter::Only(v),
            None => NameFilter::All,
        }
    }

    /// Whether a chip of this name passes: exact, case-sensitive equality
    /// with some entry of the allow-list.
    pub open spec fn allows(self, name: Seq<char>) -> bool {
        match self {
            NameFilter::All => true,
            NameFilter::Only(v) => name_listed(v@, name),
        }
    }

    /// Whether a chip of this name passes the filter.
    pub fn allows_name(&self, name: &String) -> (r: bool)
        ensures
            r == self.allows(name@),
    {
        match self {
            NameFilter::All => true,
            NameFilter::Only(v) => {
                let mut i: usize = 0;
                while i < v.len()
                    invariant
                        i <= v@.len(),
                        *self == NameFilter::Only(*v),
                        forall|k: int| 0 <= k < i ==> (#[trigger] (*v)@[k])@ != name@,
                    decreases v@.len() - i,
                {
                    if v[i] == *name {
                        assert((*v)@[i as int]@ == name@);
                        return true;
                    }
                    i = i + 1;
                }
                false
            },
        }
    }
}

/// The poll interval, in milliseconds, when none is given.
pub const DEFAULT_POLL_INTERVAL_MS: u64 = 1000;

pub open spec fn is_digit(c: char) -> bool {
    '0' <= c && c <= '9'
}

pub open spec fn digit_value(c: char) -> nat {
    (c as nat - '0' as nat) as nat
}

/// The number that a string of decimal digits writes.
pub open spec fn decimal_value(s: Seq<char>) -> nat
    decreases s.len(),
{
    if s.len() == 0 {
        0
    } else {
        10 * decimal_value(s.drop_last()) + digit_value(s.last())
    }
}

/// The digits of an unsigned integer token: what follows an optional `+`.
pub open spec fn unsigned_digits(s: Seq<char>) -> Seq<char> {
    if s.len() > 0 && s[0] == '+' {
        s.drop_first()
    } else {
        s
    }
}

/// The `u64` that a token writes in decimal, with an optional leading `+`,
/// if it writes one that fits.
pub open spec fn u64_of_token(s: Seq<char>) -> Option<u64> {
    let d = unsigned_digits(s);
    if d.len() > 0 && (forall|i: int| 0 <= i < d.len() ==> is_digit(#[trigger] d[i]))
        && decimal_value(d) <= u64::MAX {
        Some(decimal_value(d) as u64)
    } else {
        None
    }
}

proof fn lemma_decimal_value_monotone(s: Seq<char>, k: int)
    requires
        0 <= k <= s.len(),
    ensures
        decimal_value(s.subrange(0, k)) <= decimal_value(s),
    decreases s.len() - k,
{
    if k < s.len() {
        lemma_decimal_value_monotone(s, k + 1);
        assert(s.subrange(0, k + 1).drop_last() =~= s.subrange(0, k));
    } else {
        assert(s.subrange(0, k) =~= s);
    }
}

/// Reads a `--poll-interval` token: a count of milliseconds.
pub fn parse_poll_interval(token: &str) -> (r: Option<u64>)
    ensures
        r == u64_of_token(token@),
{
    let n: usize = token.unicode_len();
    let mut start: usize = 0;
    if n > 0 && token.get_char(0) == '+' {
        start = 1;
    }
    let ghost d = unsigned_digits(token@);
    assert(d =~= token@.subrange(start as int, n as int));
    if start == n {
        return None;
    }
    let mut acc: u64 = 0;
    let mut i: usize = start;
    while i < n
        invariant
            start <= i <= n,
            n == token@.len(),
            d == token@.subrange(start as int, n as int),
            d == unsigned_digits(token@),
            forall|k: int| 0 <= k < i - start ==> is_digit(#[trigger] d[k]),
            acc as nat == decimal_value(d.subrange(0, i - start)),
        decreases n - i,
    {
        let c = token.get_char(i);
        proof {
            assert(d.subrange(0, i - start + 1).drop_last() =~= d.subrange(0, i - start));
            assert(d[i - start] == c);
        }
        if c < '0' || c > '9' {
            assert(!is_digit(d[i - start]));
            return None;
        }
        let digit: u64 = (c as u32 - '0' as u32) as u64;
        match acc.checked_mul(10) {
            Some(m) => match m.checked_add(digit) {
                Some(v) => {
                    acc = v;
                },
                None => {
                    proof {
                        assert(digit as nat == digit_value(c));
                        assert(decimal_value(d.subrange(0, i - start + 1)) == 10 * acc + digit);
                        lemma_decimal_value_monotone(d, i - start + 1);
                    }
                    return None;
                },
            },
            None => {
                proof {
                    lemma_decimal_value_monotone(d, i - start + 1);
                }
                return None;
            },
        }
        i = i + 1;
    }
    proof {
        assert(d.subrange(0, i - start) =~= d);
    }
    Some(acc)
}

/// Why the startup options were refused.
#[derive(Clone, Copy, Debug, PartialEq, Eq, Structural)]
pub enum ConfigError {
    /// `--unit` is not one of `celsius`, `fahrenheit`, `kelvin`.
    UnknownUnit,
    /// `--poll-interval` is not an unsigned integer that fits in 64 bits.
    InvalidPollInterval,
}

/// The resolved startup configuration.
pub struct Configuration {
    pub unit: TemperatureUnit,
    /// The time between two ticks, in milliseconds; 0 is accepted and means
    /// that the loop does not pause.
    pub poll_interval_ms: u64,
    pub names: NameFilter,
}

/// Resolves the raw option values; an omitted option takes its default.
/// The unit is checked first, then the poll interval.
pub fn resolve(unit: Option<&str>, poll_interval: Option<&str>, names: Option<Vec<String>>) -> (r:
    Result<Configuration, ConfigError>)
    ensures
        unit is Some && unit_of_token(unit->0@) is None ==> r == Err::<Configuration, ConfigError>(
            ConfigError::UnknownUnit,
        ),
        (unit is None || unit_of_token(unit->0@) is Some) && poll_interval is Some
            && u64_of_token(poll_interval->0@) is None ==> r == Err::<Configuration, ConfigError>(
            ConfigError::InvalidPollInterval,
        ),
        r is Ok <==> (unit is None || unit_of_token(unit->0@) is Some) && (poll_interval is None
            || u64_of_token(poll_interval->0@) is Some),
        r is Ok ==> r->Ok_0.unit == (match unit {
            Some(t) => unit_of_token(t@)->0,
            None => TemperatureUnit::Celsius,
        }) && r->Ok_0.poll_interval_ms == (match poll_interval {
            Some(t) => u64_of_token(t@)->0,
            None => DEFAULT_POLL_INTERVAL_MS,
        }) && r->Ok_0.names == NameFilter::from_option(names),
{
    let unit = match unit {
        Some(t) => match parse_unit(t) {
            Some(u) => u,
            None => {
                return Err(ConfigError::UnknownUnit);
            },
        },
        None => TemperatureUnit::Celsius,
    };
    let poll_interval_ms = match poll_interval {
        Some(t) => match parse_poll_interval(t) {
            Some(ms) => ms,
            None => {
                return Err(ConfigError::InvalidPollInterval);
            },
        },
        None => DEFAULT_POLL_INTERVAL_MS,
    };
    let names = match names {
        Some(v) => NameFilter::Only(v),
        None => NameFilter::All,
    };
    Ok(Configuration { unit, poll_interval_ms, names })
}

} // verus!
