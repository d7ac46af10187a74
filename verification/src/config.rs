//! The configuration store: ordered entries, last-write-wins lookup, and
//! typed retrieval.

use vstd::prelude::*;
use vstd::string::StringExecFns;

use crate::parse::entry_views;
use crate::parse::parse;
use crate::parse::parse_text;
use crate::strings::lower_of;
use crate::strings::lowercase;

verus! {

/// The ways a configuration operation can fail.
#[derive(Debug, Clone, Copy, PartialEq, Eq, Structural)]
pub enum ConfigError {
    /// The source file could not be opened or read.
    FileReadError,
    /// A data line does not hold exactly one `=` after comment stripping;
    /// the whole load is rejected.
    InvalidConfig,
    /// An entry was found but its text cannot be converted to the requested
    /// type.
    ParseError,
    /// No entry exists for the key.
    NoItem,
}

/// A store of configuration entries in source order, append-only across
/// loads. A key may occur more than once; lookups return the value of the
/// most recently appended occurrence.
pub struct Config {
    /// The parsed `(key, value)` entries, in source order across all loads.
    pub data: Vec<(String, String)>,
}

impl View for Config {
    type V = Seq<(Seq<char>, Seq<char>)>;

    open spec fn view(&self) -> Seq<(Seq<char>, Seq<char>)> {
        entry_views(self.data@)
    }
}

/// The value of the last entry whose key is `key`, if any.
pub open spec fn lookup(entries: Seq<(Seq<char>, Seq<char>)>, key: Seq<char>) -> Option<Seq<char>>
    decreases entries.len(),
{
    if entries.len() == 0 {
        None
    } else if entries.last().0 == key {
        Some(entries.last().1)
    } else {
        lookup(entries.drop_last(), key)
    }
}

/// Relies on `str::parse`: converts through the type's `FromStr`
/// implementation; nothing is assumed of the outcome.
#[verifier::external_body]
fn parse_scalar<T: core::str::FromStr>(s: &str) -> (r: Option<T>) {
    s.parse().ok()
}

/// The canonical spelling of a boolean value's folded text, when it is one.
fn canonical_form(low: &String) -> (r: Option<&'static str>)
    ensures
        match r {
            Some(s) => (low@ == "true"@ || low@ == "false"@) && s@ == low@,
            None => low@ != "true"@ && low@ != "false"@,
        },
{
    if *low == String::from_str("true") {
        Some("true")
    } else if *low == String::from_str("false") {
        Some("false")
    } else {
        None
    }
}

/// Decides typed retrieval from the conversion outcomes alone: a direct
/// success wins; when the direct conversion failed, a value whose folded
/// text is a canonical boolean spelling answers with the canonical
/// conversion's outcome, and every other value fails with `ParseError`.
fn resolve<T>(first: Option<T>, low: &String, canon: Option<T>) -> (r: Result<T, ConfigError>)
    ensures
        first matches Some(t) ==> r == Ok::<T, ConfigError>(t),
        first is None && (low@ == "true"@ || low@ == "false"@) ==> r == (match canon {
            Some(t) => Ok::<T, ConfigError>(t),
            None => Err::<T, ConfigError>(ConfigError::ParseError),
        }),
        first is None && low@ != "true"@ && low@ != "false"@ ==> r == Err::<T, ConfigError>(
            ConfigError::ParseError,
        ),
{
    match first {
        Some(t) => Ok(t),
        None => {
            if *low == String::from_str("true") || *low == String::from_str("false") {
                match canon {
                    Some(t) => Ok(t),
                    None => Err(ConfigError::ParseError),
                }
            } else {
                Err(ConfigError::ParseError)
            }
        },
    }
}

impl Config {
    /// Creates an empty store.
    pub fn new() -> (r: Self)
        ensures
            r@ == Seq::<(Seq<char>, Seq<char>)>::empty(),
    {
        let r = Config { data: Vec::new() };
        proof {
            assert(r@ =~= Seq::<(Seq<char>, Seq<char>)>::empty());
        }
        r
    }

    /// Parses `data` and appends its entries to the store, in order, after
    /// whatever was already loaded. When some line is malformed the whole
    /// call fails and no entry is taken from `data`.
    ///
    /// Note that a `#` or `;` starts a comment anywhere on a data line,
    /// even inside a quoted value: values are not quote-aware.
    pub fn text(self, data: &str) -> (r: Result<Self, ConfigError>)
        ensures
            match r {
                Ok(c) => match parse_text(data@) {
                    Some(es) => c@ == self@ + es,
                    None => false,
                },
                Err(e) => e == ConfigError::InvalidConfig && parse_text(data@) is None,
            },
    {
        match parse(data) {
            Ok(mut entries) => {
                let ghost added = entry_views(entries@);
                let mut merged = self.data;
                let ghost before = entry_views(merged@);
                merged.append(&mut entries);
                proof {
                    assert(entry_views(merged@) =~= before + added);
                }
                Ok(Config { data: merged })
            },
            Err(e) => Err(e),
        }
    }

    /// The value of the most recent entry whose key equals `key`, scanning
    /// from the newest entry to the oldest.
    fn find_value<'a>(&'a self, key: &String) -> (r: Option<&'a String>)
        ensures
            match r {
                Some(v) => lookup(self@, key@) == Some(v@),
                None => lookup(self@, key@) is None,
            },
    {
        let mut i: usize = self.data.len();
        proof {
            assert(self@.subrange(0, self.data@.len() as int) =~= self@);
        }
        while i > 0
            invariant
                i <= self.data.len(),
                lookup(self@, key@) == lookup(self@.subrange(0, i as int), key@),
            decreases i,
        {
            i -= 1;
            proof {
                let pre = self@.subrange(0, i + 1);
                assert(pre.drop_last() =~= self@.subrange(0, i as int));
                assert(pre.last() == self@[i as int]);
            }
            if self.data[i].0 == *key {
                return Some(&self.data[i].1);
            }
        }
        proof {
            assert(self@.subrange(0, 0) =~= Seq::<(Seq<char>, Seq<char>)>::empty());
        }
        None
    }

    /// The raw text of the most recent entry for `key`. The key is
    /// case-folded before the scan; `NoItem` when no entry matches.
    pub fn get_str(&self, key: &str) -> (r: Result<String, ConfigError>)
        ensures
            match r {
                Ok(v) => lookup(self@, lower_of(key@)) == Some(v@),
                Err(e) => e == ConfigError::NoItem && lookup(self@, lower_of(key@)) is None,
            },
    {
        let folded = lowercase(key);
        match self.find_value(&folded) {
            Some(v) => Ok(v.clone()),
            None => Err(ConfigError::NoItem),
        }
    }

    /// The most recent entry for `key`, converted to `T`: `NoItem` when no
    /// entry matches, `ParseError` when the text cannot be converted. The
    /// canonical boolean spellings are accepted in any letter case.
    pub fn get<T: core::str::FromStr>(&self, key: &str) -> (r: Result<T, ConfigError>)
        ensures
            r == Err::<T, ConfigError>(ConfigError::NoItem) <==> lookup(self@, lower_of(key@))
                is None,
            r is Err ==> r == Err::<T, ConfigError>(ConfigError::NoItem) || r == Err::<
                T,
                ConfigError,
            >(ConfigError::ParseError),
    {
        let folded = lowercase(key);
        let value = match self.find_value(&folded) {
            Some(v) => v,
            None => {
                return Err(ConfigError::NoItem);
            },
        };
        let first = parse_scalar::<T>(value.as_str());
        let low = lowercase(value.as_str());
        let canon: Option<T> = match canonical_form(&low) {
            Some(lit) => parse_scalar::<T>(lit),
            None => None,
        };
        resolve(first, &low, canon)
    }
}

impl Default for Config {
    /// An empty store.
    fn default() -> (r: Self)
        ensures
            r@ == Seq::<(Seq<char>, Seq<char>)>::empty(),
    {
        Config::new()
    }
}

} // verus!
