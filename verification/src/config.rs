use vstd::prelude::*;

verus! {

/// A typed dynamic configuration value handed in by the host.
///
/// Numbers are fixed-point with three decimal places: `Num(m)` stands for the
/// number `m / 1000`, so whole numbers are the multiples of 1000.
pub enum ConfigValue {
    Str(String),
    Num(i64),
    Flag(bool),
    Arr(Vec<ConfigValue>),
    Obj(Vec<ConfigEntry>),
    Null,
}

/// One key of an object-shaped configuration value.
pub struct ConfigEntry {
    pub key: String,
    pub value: ConfigValue,
}

impl ConfigValue {
    /// The whole-number value of a number entry, when it is a non-negative
    /// whole number; `None` for fractions, negatives and other shapes.
    pub open spec fn spec_as_u64(&self) -> Option<u64> {
        match *self {
            ConfigValue::Num(m) => if m >= 0 && m % 1000 == 0 {
                Some((m / 1000) as u64)
            } else {
                None
            },
            _ => None,
        }
    }

    pub fn as_u64(&self) -> (r: Option<u64>)
        ensures
            r == self.spec_as_u64(),
    {
        match self {
            ConfigValue::Num(m) => if *m >= 0 && *m % 1000 == 0 {
                Some((*m / 1000) as u64)
            } else {
                None
            },
            _ => None,
        }
    }

    /// The fixed-point milli-unit value of a number entry.
    pub open spec fn spec_as_milli(&self) -> Option<i64> {
        match *self {
            ConfigValue::Num(m) => Some(m),
            _ => None,
        }
    }

    pub fn as_milli(&self) -> (r: Option<i64>)
        ensures
            r == self.spec_as_milli(),
    {
        match self {
            ConfigValue::Num(m) => Some(*m),
            _ => None,
        }
    }

    pub open spec fn spec_as_str(&self) -> Option<Seq<char>> {
        match *self {
            ConfigValue::Str(s) => Some(s@),
            _ => None,
        }
    }

    pub fn as_str(&self) -> (r: Option<&String>)
        ensures
            match r {
                Some(s) => self.spec_as_str() == Some(s@),
                None => self.spec_as_str() is None,
            },
    {
        match self {
            ConfigValue::Str(s) => Some(s),
            _ => None,
        }
    }

    pub open spec fn spec_as_array(&self) -> Option<Seq<ConfigValue>> {
        match *self {
            ConfigValue::Arr(items) => Some(items@),
            _ => None,
        }
    }

    pub fn as_array(&self) -> (r: Option<&Vec<ConfigValue>>)
        ensures
            match r {
                Some(items) => self.spec_as_array() == Some(items@),
                None => self.spec_as_array() is None,
            },
    {
        match self {
            ConfigValue::Arr(items) => Some(items),
            _ => None,
        }
    }

    /// A whole number, as the host writes integer configuration entries.
    pub fn of_int(v: i64) -> (r: ConfigValue)
        requires
            -9_000_000_000_000_000 <= v <= 9_000_000_000_000_000,
        ensures
            r == ConfigValue::Num((v * 1000) as i64),
    {
        ConfigValue::Num(v * 1000)
    }

    /// A fixed-point number given directly in milli-units.
    pub fn of_milli(m: i64) -> (r: ConfigValue)
        ensures
            r == ConfigValue::Num(m),
    {
        ConfigValue::Num(m)
    }
}

/// An optional borrowed configuration value, as a mathematical option.
pub open spec fn opt_value(v: Option<&ConfigValue>) -> Option<ConfigValue> {
    match v {
        Some(c) => Some(*c),
        None => None,
    }
}

/// What can go wrong in one detector invocation.
#[derive(Clone, Copy, Debug, PartialEq, Eq, Structural)]
pub enum RuleError {
    /// A detector that requires the Host header found none.
    MissingHost,
    /// The `location` entry is neither the keyword `"all"` nor an object.
    InvalidLocationConfig,
    /// The `patterns` entry is absent.
    MissingPatternsConfig,
    /// The `patterns` entry is not an array.
    InvalidPatternsConfig,
    /// A member of the `patterns` array is not a string.
    PatternNotString,
    /// The `patterns` array is empty.
    EmptyPatterns,
    /// A pattern did not compile.
    UnparseablePattern,
    /// Neither a `restrict` nor an `accept` increment is configured.
    MissingIncrement,
    /// Both a `restrict` and an `accept` increment are configured.
    ConflictingIncrements,
    /// The configured increment is not a number.
    IncrementNotNumber,
}

impl RuleError {
    /// Whether the failure lies in the configuration rather than the request.
    pub fn is_config_error(&self) -> (r: bool)
        ensures
            r == (*self != RuleError::MissingHost),
    {
        match self {
            RuleError::MissingHost => false,
            _ => true,
        }
    }
}

/// The configuration entries resolved for one invocation, in the host's
/// iteration order. Absence of a key means "not configured".
pub struct ConfigMap {
    pub entries: Vec<ConfigEntry>,
}

/// The value under the first entry with the given key, if any.
pub open spec fn spec_config_get(entries: Seq<ConfigEntry>, key: Seq<char>) -> Option<ConfigValue>
    decreases entries.len(),
{
    if entries.len() == 0 {
        None
    } else if entries[0].key@ == key {
        Some(entries[0].value)
    } else {
        spec_config_get(entries.drop_first(), key)
    }
}

impl ConfigMap {
    pub fn get(&self, key: &String) -> (r: Option<&ConfigValue>)
        ensures
            match r {
                Some(v) => spec_config_get(self.entries@, key@) == Some(*v),
                None => spec_config_get(self.entries@, key@) is None,
            },
    {
        let n = self.entries.len();
        let mut i: usize = 0;
        proof {
            assert(self.entries@.skip(0) =~= self.entries@);
        }
        while i < n
            invariant
                i <= n,
                n == self.entries.len(),
                spec_config_get(self.entries@, key@) == spec_config_get(self.entries@.skip(i as int), key@),
            decreases n - i,
        {
            proof {
                assert(self.entries@.skip(i as int).len() > 0);
                assert(self.entries@.skip(i as int)[0] == self.entries@[i as int]);
                assert(self.entries@.skip(i as int).drop_first() =~= self.entries@.skip(i as int + 1));
            }
            if self.entries[i].key == *key {
                return Some(&self.entries[i].value);
            }
            i += 1;
        }
        proof {
            assert(self.entries@.skip(n as int).len() == 0);
        }
        None
    }
}

} // verus!
