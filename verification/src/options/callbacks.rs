//! Callback wrappers used by the public option types.
//!
//! Each wrapper holds a closure supplied by the caller; the library calls it
//! and uses whatever it returns, so nothing is promised of the results.

use std::sync::Arc;

use vstd::prelude::*;

use crate::temporal::TemporalValue;
use crate::value::Value;

use super::shared::{Charset, DecodeKind, Format, WhitelistSelector};

verus! {

/// The shape of a decode callback.
trait DecodeFn: Fn(&str, Charset, DecodeKind) -> String + Send + Sync {}

impl<F: Fn(&str, Charset, DecodeKind) -> String + Send + Sync> DecodeFn for F {}

/// A custom decode callback for transforming raw key and value components.
#[verifier::external_body]
pub struct DecodeDecoder(Arc<dyn DecodeFn>);

impl Clone for DecodeDecoder {
    /// `Arc::clone`: another handle to the same callback.
    #[verifier::external_body]
    fn clone(&self) -> (r: Self)
        ensures
            r == *self,
    {
        DecodeDecoder(self.0.clone())
    }
}

impl DecodeDecoder {
    /// Wraps a custom decode callback.
    #[verifier::external_body]
    pub fn new<F>(decoder: F) -> Self
    where
        F: Fn(&str, Charset, DecodeKind) -> String + Send + Sync + 'static,
    {
        let shared: Arc<dyn DecodeFn> = Arc::new(decoder);
        Self(shared)
    }

    /// Invokes the wrapped callback; its result is whatever the callback returns.
    #[verifier::external_body]
    pub fn decode(&self, input: &str, charset: Charset, kind: DecodeKind) -> String {
        (self.0)(input, charset, kind)
    }
}

/// A key or value token presented to [`EncodeTokenEncoder`].
#[derive(Clone, Copy, Debug)]
pub enum EncodeToken<'a> {
    /// A materialized key path before final formatter percent-encoding.
    Key(&'a str),
    /// A normal value from the dynamic [`Value`] tree.
    Value(&'a Value),
    /// An already-stringified value token, used for joined comma-list values.
    TextValue(&'a str),
}

/// The shape of a key/value encode callback.
trait EncodeFn: for<'a> Fn(EncodeToken<'a>, Charset, Format) -> String + Send + Sync {}

impl<F: for<'a> Fn(EncodeToken<'a>, Charset, Format) -> String + Send + Sync> EncodeFn for F {}

/// A custom key/value encoder used by the encode options.
#[verifier::external_body]
pub struct EncodeTokenEncoder(Arc<dyn EncodeFn>);

impl Clone for EncodeTokenEncoder {
    /// `Arc::clone`: another handle to the same callback.
    #[verifier::external_body]
    fn clone(&self) -> (r: Self)
        ensures
            r == *self,
    {
        EncodeTokenEncoder(self.0.clone())
    }
}

impl EncodeTokenEncoder {
    /// Wraps a custom key/value encoding callback.
    #[verifier::external_body]
    pub fn new<F>(encoder: F) -> Self
    where
        F: for<'a> Fn(EncodeToken<'a>, Charset, Format) -> String + Send + Sync + 'static,
    {
        let shared: Arc<dyn EncodeFn> = Arc::new(encoder);
        Self(shared)
    }

    /// Invokes the wrapped callback; its result is whatever the callback returns.
    #[verifier::external_body]
    pub fn encode(&self, token: EncodeToken<'_>, charset: Charset, format: Format) -> String {
        (self.0)(token, charset, format)
    }
}

/// The outcome of a function-based encode filter.
#[derive(Clone, Debug, PartialEq)]
pub enum FilterResult {
    /// Keep the value unchanged.
    Keep,
    /// Omit the value entirely.
    Omit,
    /// Replace the value before encoding continues.
    Replace(Value),
}

/// The shape of a filter callback.
trait FilterFn: Fn(&str, &Value) -> FilterResult + Send + Sync {}

impl<F: Fn(&str, &Value) -> FilterResult + Send + Sync> FilterFn for F {}

/// A callback used to filter or replace values during encoding.
#[verifier::external_body]
pub struct FunctionFilter(Arc<dyn FilterFn>);

impl Clone for FunctionFilter {
    /// `Arc::clone`: another handle to the same callback.
    #[verifier::external_body]
    fn clone(&self) -> (r: Self)
        ensures
            r == *self,
    {
        FunctionFilter(self.0.clone())
    }
}

impl FunctionFilter {
    /// Wraps a function filter callback.
    #[verifier::external_body]
    pub fn new<F>(filter: F) -> Self
    where
        F: Fn(&str, &Value) -> FilterResult + Send + Sync + 'static,
    {
        let shared: Arc<dyn FilterFn> = Arc::new(filter);
        Self(shared)
    }

    /// Invokes the wrapped filter; its result is whatever the callback returns.
    #[verifier::external_body]
    pub fn apply(&self, prefix: &str, value: &Value) -> FilterResult {
        (self.0)(prefix, value)
    }
}

/// The public filtering modes supported by the encoder.
pub enum EncodeFilter {
    /// Only encode the listed object keys or array indices.
    Whitelist(Vec<WhitelistSelector>),
    /// Decide per value whether to keep, omit, or replace it.
    Function(FunctionFilter),
}

impl Clone for EncodeFilter {
    /// A whitelist is copied entry by entry; a function filter is another
    /// handle to the same callback.
    fn clone(&self) -> (r: Self)
        ensures
            match *self {
                EncodeFilter::Whitelist(entries) => r matches EncodeFilter::Whitelist(copied)
                    && copied@ == entries@,
                EncodeFilter::Function(filter) => r == EncodeFilter::Function(filter),
            },
    {
        match self {
            EncodeFilter::Whitelist(entries) => {
                let copied = entries.clone();
                assert(copied@ =~= entries@);
                EncodeFilter::Whitelist(copied)
            },
            EncodeFilter::Function(filter) => EncodeFilter::Function(filter.clone()),
        }
    }
}

/// The three outcomes of comparing two keys, as the comparator reported them.
#[derive(Clone, Copy, Debug, PartialEq, Eq)]
enum KeyOrder {
    Less,
    Equal,
    Greater,
}

/// The shape of a key comparator, reporting through [`KeyOrder`].
trait KeyOrderFn: Fn(&str, &str) -> KeyOrder + Send + Sync {}

impl<F: Fn(&str, &str) -> KeyOrder + Send + Sync> KeyOrderFn for F {}

/// A callback used to compare two object keys during encoding.
#[verifier::external_body]
pub struct Sorter(Arc<dyn KeyOrderFn>);

impl Clone for Sorter {
    /// `Arc::clone`: another handle to the same callback.
    #[verifier::external_body]
    fn clone(&self) -> (r: Self)
        ensures
            r == *self,
    {
        Sorter(self.0.clone())
    }
}

impl Sorter {
    /// Wraps a custom key sorter.
    #[verifier::external_body]
    pub fn new<F>(sorter: F) -> Self
    where
        F: Fn(&str, &str) -> std::cmp::Ordering + Send + Sync + 'static,
    {
        let shared: Arc<dyn KeyOrderFn> = Arc::new(
            move |left: &str, right: &str| match sorter(left, right) {
                std::cmp::Ordering::Less => KeyOrder::Less,
                std::cmp::Ordering::Equal => KeyOrder::Equal,
                std::cmp::Ordering::Greater => KeyOrder::Greater,
            },
        );
        Self(shared)
    }

    /// Invokes the wrapped comparator; its result is whatever the callback returns.
    #[verifier::external_body]
    pub fn compare(&self, left: &str, right: &str) -> std::cmp::Ordering {
        match (self.0)(left, right) {
            KeyOrder::Less => std::cmp::Ordering::Less,
            KeyOrder::Equal => std::cmp::Ordering::Equal,
            KeyOrder::Greater => std::cmp::Ordering::Greater,
        }
    }
}

/// The shape of a temporal serialization callback.
trait TemporalFn: Fn(&TemporalValue) -> Option<String> + Send + Sync {}

impl<F: Fn(&TemporalValue) -> Option<String> + Send + Sync> TemporalFn for F {}

/// A callback used to customize temporal serialization before encoding.
#[verifier::external_body]
pub struct TemporalSerializer(Arc<dyn TemporalFn>);

impl Clone for TemporalSerializer {
    /// `Arc::clone`: another handle to the same callback.
    #[verifier::external_body]
    fn clone(&self) -> (r: Self)
        ensures
            r == *self,
    {
        TemporalSerializer(self.0.clone())
    }
}

impl TemporalSerializer {
    /// Wraps a custom temporal serializer.
    #[verifier::external_body]
    pub fn new<F>(serializer: F) -> Self
    where
        F: Fn(&TemporalValue) -> Option<String> + Send + Sync + 'static,
    {
        let shared: Arc<dyn TemporalFn> = Arc::new(serializer);
        Self(shared)
    }

    /// Invokes the wrapped serializer; its result is whatever the callback returns.
    #[verifier::external_body]
    pub fn serialize(&self, value: &TemporalValue) -> Option<String> {
        (self.0)(value)
    }
}

} // verus!
