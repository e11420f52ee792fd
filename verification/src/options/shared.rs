//! Shared enums used by both decode and encode options.

use regex::Regex;
use vstd::prelude::*;

verus! {

/// A compiled regular expression (`regex::Regex`), carried as an opaque value.
#[verifier::external_type_specification]
#[verifier::external_body]
pub struct ExRegex(Regex);

/// `regex::Regex::clone` gives another handle to the same compiled pattern;
/// nothing is stated of the result, since the type is opaque here.
pub assume_specification[ <regex::Regex as std::clone::Clone>::clone ](pattern: &regex::Regex) -> regex::Regex;

/// The character set used when encoding or decoding percent-escaped text.
#[derive(Clone, Copy, Debug, Default, Eq, PartialEq, Structural)]
pub enum Charset {
    /// UTF-8 semantics.
    #[default]
    Utf8,
    /// ISO-8859-1 semantics.
    Iso88591,
}

/// The sentinel pair announcing UTF-8 input.
pub const UTF8_SENTINEL: &'static str = "utf8=%E2%9C%93";

/// The sentinel pair announcing ISO-8859-1 input.
pub const ISO_SENTINEL: &'static str = "utf8=%26%2310003%3B";

impl Charset {
    /// The sentinel pair written or recognised for this charset.
    pub fn sentinel(self) -> (r: &'static str)
        ensures
            r@ == (match self {
                Charset::Utf8 => UTF8_SENTINEL@,
                Charset::Iso88591 => ISO_SENTINEL@,
            }),
    {
        match self {
            Charset::Utf8 => UTF8_SENTINEL,
            Charset::Iso88591 => ISO_SENTINEL,
        }
    }
}

/// The percent-encoding flavor used when building query strings.
#[derive(Clone, Copy, Debug, Default, Eq, PartialEq, Structural)]
pub enum Format {
    /// Percent-encode spaces as `%20`.
    #[default]
    Rfc3986,
    /// Percent-encode spaces as `+`.
    Rfc1738,
}

/// The list notation used when encoding arrays.
#[derive(Clone, Copy, Debug, Default, Eq, PartialEq, Structural)]
pub enum ListFormat {
    /// Encode arrays as `a[0]=x&a[1]=y`.
    #[default]
    Indices,
    /// Encode arrays as `a[]=x&a[]=y`.
    Brackets,
    /// Encode arrays as `a=x&a=y`.
    Repeat,
    /// Encode arrays as `a=x,y`.
    Comma,
}

/// The strategy used when the same key appears multiple times during decode.
#[derive(Clone, Copy, Debug, Default, Eq, PartialEq, Structural)]
pub enum Duplicates {
    /// Combine repeated values into an array when possible.
    #[default]
    Combine,
    /// Keep the first occurrence and ignore later ones.
    First,
    /// Keep the last occurrence and overwrite earlier ones.
    Last,
}

/// The built-in key ordering mode for encoding objects.
#[derive(Clone, Copy, Debug, Default, Eq, PartialEq, Structural)]
pub enum SortMode {
    /// Keep the insertion order.
    #[default]
    Preserve,
    /// Sort keys lexicographically in ascending order.
    LexicographicAsc,
}

/// Identifies whether a custom decoder is processing a key or a value.
#[derive(Clone, Copy, Debug, Eq, PartialEq, Structural)]
pub enum DecodeKind {
    /// The current input is a key component.
    Key,
    /// The current input is a value component.
    Value,
}

/// The query-string delimiter used during decode.
#[derive(Debug)]
pub enum Delimiter {
    /// Split on a literal string delimiter such as `&` or `;`.
    String(String),
    /// Split on regex matches.
    Regex(Regex),
}

impl Clone for Delimiter {
    /// A text delimiter is copied as it is; a regex delimiter stays a regex,
    /// cloned by its own `Clone`.
    fn clone(&self) -> (r: Self)
        ensures
            match *self {
                Delimiter::String(text) => r == Delimiter::String(text),
                Delimiter::Regex(_) => r is Regex,
            },
    {
        match self {
            Delimiter::String(text) => Delimiter::String(text.clone()),
            Delimiter::Regex(pattern) => Delimiter::Regex(pattern.clone()),
        }
    }
}

impl Default for Delimiter {
    fn default() -> (r: Self)
        ensures
            r matches Delimiter::String(s) && s@ == seq!['&'],
    {
        proof {
            reveal_strlit("&");
        }
        Delimiter::String("&".to_owned())
    }
}

/// A whitelist entry used to select object keys or array indices during
/// encoding.
#[derive(Debug, Eq, PartialEq)]
pub enum WhitelistSelector {
    /// Select an object key.
    Key(String),
    /// Select an array index.
    Index(usize),
}

impl Clone for WhitelistSelector {
    fn clone(&self) -> (r: Self)
        ensures
            r == *self,
    {
        match self {
            WhitelistSelector::Key(key) => WhitelistSelector::Key(key.clone()),
            WhitelistSelector::Index(index) => WhitelistSelector::Index(*index),
        }
    }
}

} // verus!
