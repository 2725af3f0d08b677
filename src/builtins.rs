//! Choosing an input by the `source` argument of a capability.
use vstd::prelude::*;
use crate::deps::str_eq;
use crate::text::{IntErrorKind, parse_usize};
use crate::text;

verus! {

/// Named arguments, as `(name, value)` pairs in the order they were given.
#[derive(Debug, Clone)]
pub struct Arguments {
    pub values: Vec<(String, String)>,
}

/// The value of the first argument named `key`.
pub open spec fn lookup(v: Seq<(String, String)>, key: Seq<char>) -> Option<Seq<char>>
    decreases v.len(),
{
    if v.len() == 0 {
        None
    } else if v[0].0@ == key {
        Some(v[0].1@)
    } else {
        lookup(v.drop_first(), key)
    }
}

/// The argument named `key` read as a `usize`, or `default` where there is none.
pub open spec fn usize_or_default(v: Seq<(String, String)>, key: Seq<char>, default: usize) -> Result<
    usize,
    IntErrorKind,
> {
    match lookup(v, key) {
        None => Ok(default),
        Some(text) => parse_usize(text),
    }
}

/// Why no input was chosen.
#[derive(Debug, Clone, PartialEq, Eq)]
pub enum SourceError {
    /// The `source` argument is not a number.
    BadArgument { value: String, reason: IntErrorKind },
    /// An input was asked for, but there are none.
    NoSources { index: usize },
    /// The input asked for is past the last one.
    OutOfRange { index: usize, available: usize },
}

impl Arguments {
    /// The value of the first argument named `key`.
    pub fn get(&self, key: &str) -> (r: Option<&String>)
        ensures
            match r {
                Some(s) => lookup(self.values@, key@) == Some(s@),
                None => lookup(self.values@, key@) is None,
            },
    {
        let mut i: usize = 0;
        assert(self.values@.subrange(0, self.values@.len() as int) =~= self.values@);
        while i < self.values.len()
            invariant
                i <= self.values@.len(),
                lookup(self.values@, key@) == lookup(self.values@.subrange(i as int, self.values@.len() as int), key@),
            decreases self.values@.len() - i,
        {
            let ghost rest = self.values@.subrange(i as int, self.values@.len() as int);
            assert(rest.drop_first() =~= self.values@.subrange(i + 1, self.values@.len() as int));
            if str_eq(self.values[i].0.as_str(), key) {
                return Some(&self.values[i].1);
            }
            i = i + 1;
        }
        None
    }

    /// The argument named `key` read as a `usize`, or `default` where it is
    /// not given.
    pub fn parse_or_default(&self, key: &str, default: usize) -> (r: Result<usize, IntErrorKind>)
        ensures
            r == usize_or_default(self.values@, key@, default),
    {
        match self.get(key) {
            None => Ok(default),
            Some(value) => {
                let v = text::chars_of(value.as_str());
                assert(v@.subrange(0, v@.len() as int) =~= v@);
                text::parse_usize_in(&v, 0, v.len())
            },
        }
    }
}

/// The input that the `"source"` argument asks for, the first one by default.
pub fn source<'src, T>(sources: &'src [T], args: &Arguments) -> (r: Result<&'src T, SourceError>)
    ensures
        match usize_or_default(args.values@, "source"@, 0) {
            Err(k) => r matches Err(SourceError::BadArgument { value, reason }) && reason == k
                && lookup(args.values@, "source"@) == Some(value@),
            Ok(i) => if i < sources@.len() {
                r matches Ok(s) && *s == sources@[i as int]
            } else if sources@.len() == 0 {
                r == Err::<&T, SourceError>(SourceError::NoSources { index: i })
            } else {
                r == Err::<&T, SourceError>(
                    SourceError::OutOfRange { index: i, available: sources@.len() as usize },
                )
            },
        },
{
    let index = match args.parse_or_default("source", 0) {
        Ok(i) => i,
        Err(reason) => {
            let value = match args.get("source") {
                Some(v) => v.clone(),
                None => String::new(),
            };
            return Err(SourceError::BadArgument { value, reason });
        },
    };
    if index < sources.len() {
        Ok(&sources[index])
    } else if sources.len() == 0 {
        Err(SourceError::NoSources { index })
    } else {
        Err(SourceError::OutOfRange { index, available: sources.len() })
    }
}

} // verus!
