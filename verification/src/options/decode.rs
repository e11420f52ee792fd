//! Decode-specific configuration.

use vstd::prelude::*;

use crate::error::DecodeError;

use super::callbacks::DecodeDecoder;
use super::shared::{Charset, Delimiter, Duplicates};

verus! {

/// The settings held by a [`DecodeOptions`], field by field.
pub struct DecodeSettings {
    pub allow_dots: bool,
    pub decode_dot_in_keys: bool,
    pub allow_empty_lists: bool,
    pub allow_sparse_lists: bool,
    pub list_limit: usize,
    pub charset: Charset,
    pub charset_sentinel: bool,
    pub comma: bool,
    pub delimiter: Delimiter,
    pub depth: usize,
    pub parameter_limit: usize,
    pub duplicates: Duplicates,
    pub ignore_query_prefix: bool,
    pub interpret_numeric_entities: bool,
    pub parse_lists: bool,
    pub strict_depth: bool,
    pub strict_null_handling: bool,
    pub throw_on_limit_exceeded: bool,
    pub decoder: Option<DecodeDecoder>,
}

/// Options that control query-string decoding.
///
/// The defaults are chosen to match the common `qs` behavior: UTF-8 decoding,
/// `&` as the delimiter, five levels of depth, list parsing enabled, and
/// duplicate values combined into arrays.
///
/// Decoding dots inside keys always comes with dot notation: no sequence of
/// builder calls yields options that decode `%2E` without splitting on dots.
pub struct DecodeOptions {
    allow_dots: bool,
    decode_dot_in_keys: bool,
    allow_empty_lists: bool,
    allow_sparse_lists: bool,
    list_limit: usize,
    charset: Charset,
    charset_sentinel: bool,
    comma: bool,
    delimiter: Delimiter,
    depth: usize,
    parameter_limit: usize,
    duplicates: Duplicates,
    ignore_query_prefix: bool,
    interpret_numeric_entities: bool,
    parse_lists: bool,
    strict_depth: bool,
    strict_null_handling: bool,
    throw_on_limit_exceeded: bool,
    decoder: Option<DecodeDecoder>,
}

impl View for DecodeOptions {
    type V = DecodeSettings;

    closed spec fn view(&self) -> DecodeSettings {
        DecodeSettings {
            allow_dots: self.allow_dots,
            decode_dot_in_keys: self.decode_dot_in_keys,
            allow_empty_lists: self.allow_empty_lists,
            allow_sparse_lists: self.allow_sparse_lists,
            list_limit: self.list_limit,
            charset: self.charset,
            charset_sentinel: self.charset_sentinel,
            comma: self.comma,
            delimiter: self.delimiter,
            depth: self.depth,
            parameter_limit: self.parameter_limit,
            duplicates: self.duplicates,
            ignore_query_prefix: self.ignore_query_prefix,
            interpret_numeric_entities: self.interpret_numeric_entities,
            parse_lists: self.parse_lists,
            strict_depth: self.strict_depth,
            strict_null_handling: self.strict_null_handling,
            throw_on_limit_exceeded: self.throw_on_limit_exceeded,
            decoder: self.decoder,
        }
    }
}

/// Whether a delimiter is the empty string.
pub open spec fn is_empty_text_delimiter(d: Delimiter) -> bool {
    d matches Delimiter::String(text) && text@.len() == 0
}

/// The default decode settings.
pub open spec fn default_decode_settings(delimiter: Delimiter) -> DecodeSettings {
    DecodeSettings {
        allow_dots: false,
        decode_dot_in_keys: false,
        allow_empty_lists: false,
        allow_sparse_lists: false,
        list_limit: 20,
        charset: Charset::Utf8,
        charset_sentinel: false,
        comma: false,
        delimiter: delimiter,
        depth: 5,
        parameter_limit: 1000,
        duplicates: Duplicates::Combine,
        ignore_query_prefix: false,
        interpret_numeric_entities: false,
        parse_lists: true,
        strict_depth: false,
        strict_null_handling: false,
        throw_on_limit_exceeded: false,
        decoder: None,
    }
}

impl DecodeOptions {
    /// Literal dot decoding is only ever on together with dot notation.
    #[verifier::type_invariant]
    spec fn dot_rule(self) -> bool {
        self.decode_dot_in_keys ==> self.allow_dots
    }
}

impl Clone for DecodeOptions {
    /// A copy with the same settings and the same decoder callback; a text
    /// delimiter is kept as it is, and a regex delimiter is cloned by its own
    /// `Clone`.
    fn clone(&self) -> (r: Self)
        ensures
            r@ == (DecodeSettings { delimiter: r@.delimiter, ..self@ }),
            self@.delimiter is String ==> r@.delimiter == self@.delimiter,
            self@.delimiter is Regex ==> r@.delimiter is Regex,
    {
        proof {
            use_type_invariant(self);
        }
        DecodeOptions {
            allow_dots: self.allow_dots,
            decode_dot_in_keys: self.decode_dot_in_keys,
            allow_empty_lists: self.allow_empty_lists,
            allow_sparse_lists: self.allow_sparse_lists,
            list_limit: self.list_limit,
            charset: self.charset,
            charset_sentinel: self.charset_sentinel,
            comma: self.comma,
            delimiter: self.delimiter.clone(),
            depth: self.depth,
            parameter_limit: self.parameter_limit,
            duplicates: self.duplicates,
            ignore_query_prefix: self.ignore_query_prefix,
            interpret_numeric_entities: self.interpret_numeric_entities,
            parse_lists: self.parse_lists,
            strict_depth: self.strict_depth,
            strict_null_handling: self.strict_null_handling,
            throw_on_limit_exceeded: self.throw_on_limit_exceeded,
            decoder: self.decoder.clone(),
        }
    }
}

impl Default for DecodeOptions {
    fn default() -> (r: Self)
        ensures
            r@ == default_decode_settings(r@.delimiter),
            r@.delimiter matches Delimiter::String(text) && text@ == seq!['&'],
    {
        DecodeOptions {
            allow_dots: false,
            decode_dot_in_keys: false,
            allow_empty_lists: false,
            allow_sparse_lists: false,
            list_limit: 20,
            charset: Charset::Utf8,
            charset_sentinel: false,
            comma: false,
            delimiter: Delimiter::default(),
            depth: 5,
            parameter_limit: 1000,
            duplicates: Duplicates::Combine,
            ignore_query_prefix: false,
            interpret_numeric_entities: false,
            parse_lists: true,
            strict_depth: false,
            strict_null_handling: false,
            throw_on_limit_exceeded: false,
            decoder: None,
        }
    }
}

impl DecodeOptions {
    /// Creates a new option set with the default decode configuration.
    pub fn new() -> (r: Self)
        ensures
            r@ == default_decode_settings(r@.delimiter),
            r@.delimiter matches Delimiter::String(text) && text@ == seq!['&'],
    {
        Self::default()
    }

    /// Returns whether dots in keys are treated as path separators.
    pub fn allow_dots(&self) -> (r: bool)
        ensures
            r == self@.allow_dots,
    {
        self.allow_dots
    }

    /// Enables or disables dot notation during decode.
    ///
    /// Setting this to `false` also clears [`Self::decode_dot_in_keys`].
    pub fn with_allow_dots(self, allow_dots: bool) -> (r: Self)
        ensures
            r@ == (DecodeSettings {
                allow_dots,
                decode_dot_in_keys: self@.decode_dot_in_keys && allow_dots,
                ..self@
            }),
    {
        proof {
            use_type_invariant(&self);
        }
        let mut options = self;
        if !allow_dots {
            options.decode_dot_in_keys = false;
        }
        options.allow_dots = allow_dots;
        options
    }

    /// Returns whether literal dots inside keys are decoded from `%2E` when
    /// dot notation is enabled.
    pub fn decode_dot_in_keys(&self) -> (r: bool)
        ensures
            r == self@.decode_dot_in_keys,
    {
        self.decode_dot_in_keys
    }

    /// Enables or disables percent-decoding of dots inside key segments.
    ///
    /// Enabling this option also enables [`Self::allow_dots`].
    pub fn with_decode_dot_in_keys(self, decode_dot_in_keys: bool) -> (r: Self)
        ensures
            r@ == (DecodeSettings {
                allow_dots: self@.allow_dots || decode_dot_in_keys,
                decode_dot_in_keys,
                ..self@
            }),
    {
        proof {
            use_type_invariant(&self);
        }
        let mut options = self;
        if decode_dot_in_keys {
            options.allow_dots = true;
        }
        options.decode_dot_in_keys = decode_dot_in_keys;
        options
    }

    /// Returns whether empty list assignments such as `a[]` are preserved.
    pub fn allow_empty_lists(&self) -> (r: bool)
        ensures
            r == self@.allow_empty_lists,
    {
        self.allow_empty_lists
    }

    /// Enables or disables preservation of empty list assignments.
    pub fn with_allow_empty_lists(self, allow_empty_lists: bool) -> (r: Self)
        ensures
            r@ == (DecodeSettings { allow_empty_lists, ..self@ }),
    {
        proof {
            use_type_invariant(&self);
        }
        let mut options = self;
        options.allow_empty_lists = allow_empty_lists;
        options
    }

    /// Returns whether sparse list indices are preserved instead of compacted.
    pub fn allow_sparse_lists(&self) -> (r: bool)
        ensures
            r == self@.allow_sparse_lists,
    {
        self.allow_sparse_lists
    }

    /// Enables or disables sparse list preservation.
    pub fn with_allow_sparse_lists(self, allow_sparse_lists: bool) -> (r: Self)
        ensures
            r@ == (DecodeSettings { allow_sparse_lists, ..self@ }),
    {
        proof {
            use_type_invariant(&self);
        }
        let mut options = self;
        options.allow_sparse_lists = allow_sparse_lists;
        options
    }

    /// Returns the maximum dense list length accepted before overflow handling
    /// is required.
    pub fn list_limit(&self) -> (r: usize)
        ensures
            r == self@.list_limit,
    {
        self.list_limit
    }

    /// Sets the maximum dense list length accepted during decode.
    pub fn with_list_limit(self, list_limit: usize) -> (r: Self)
        ensures
            r@ == (DecodeSettings { list_limit, ..self@ }),
    {
        proof {
            use_type_invariant(&self);
        }
        let mut options = self;
        options.list_limit = list_limit;
        options
    }

    /// Returns the default character set used for percent-decoding.
    pub fn charset(&self) -> (r: Charset)
        ensures
            r == self@.charset,
    {
        self.charset
    }

    /// Sets the default character set used for percent-decoding.
    pub fn with_charset(self, charset: Charset) -> (r: Self)
        ensures
            r@ == (DecodeSettings { charset, ..self@ }),
    {
        proof {
            use_type_invariant(&self);
        }
        let mut options = self;
        options.charset = charset;
        options
    }

    /// Returns whether charset sentinel pairs are honored.
    pub fn charset_sentinel(&self) -> (r: bool)
        ensures
            r == self@.charset_sentinel,
    {
        self.charset_sentinel
    }

    /// Enables or disables charset sentinel handling.
    pub fn with_charset_sentinel(self, charset_sentinel: bool) -> (r: Self)
        ensures
            r@ == (DecodeSettings { charset_sentinel, ..self@ }),
    {
        proof {
            use_type_invariant(&self);
        }
        let mut options = self;
        options.charset_sentinel = charset_sentinel;
        options
    }

    /// Returns whether comma-separated values are treated as lists.
    pub fn comma(&self) -> (r: bool)
        ensures
            r == self@.comma,
    {
        self.comma
    }

    /// Enables or disables comma-list parsing.
    pub fn with_comma(self, comma: bool) -> (r: Self)
        ensures
            r@ == (DecodeSettings { comma, ..self@ }),
    {
        proof {
            use_type_invariant(&self);
        }
        let mut options = self;
        options.comma = comma;
        options
    }

    /// Returns the configured query-string delimiter.
    pub fn delimiter(&self) -> (r: &Delimiter)
        ensures
            *r == self@.delimiter,
    {
        &self.delimiter
    }

    /// Sets the query-string delimiter used during raw scanning.
    pub fn with_delimiter(self, delimiter: Delimiter) -> (r: Self)
        ensures
            r@ == (DecodeSettings { delimiter, ..self@ }),
    {
        proof {
            use_type_invariant(&self);
        }
        let mut options = self;
        options.delimiter = delimiter;
        options
    }

    /// Returns the configured maximum structured depth.
    pub fn depth(&self) -> (r: usize)
        ensures
            r == self@.depth,
    {
        self.depth
    }

    /// Sets the maximum structured depth considered during decode.
    pub fn with_depth(self, depth: usize) -> (r: Self)
        ensures
            r@ == (DecodeSettings { depth, ..self@ }),
    {
        proof {
            use_type_invariant(&self);
        }
        let mut options = self;
        options.depth = depth;
        options
    }

    /// Returns the maximum number of parameters accepted from the raw input.
    pub fn parameter_limit(&self) -> (r: usize)
        ensures
            r == self@.parameter_limit,
    {
        self.parameter_limit
    }

    /// Sets the maximum number of parameters accepted from the raw input.
    pub fn with_parameter_limit(self, parameter_limit: usize) -> (r: Self)
        ensures
            r@ == (DecodeSettings { parameter_limit, ..self@ }),
    {
        proof {
            use_type_invariant(&self);
        }
        let mut options = self;
        options.parameter_limit = parameter_limit;
        options
    }

    /// Returns the duplicate-handling strategy.
    pub fn duplicates(&self) -> (r: Duplicates)
        ensures
            r == self@.duplicates,
    {
        self.duplicates
    }

    /// Sets the duplicate-handling strategy.
    pub fn with_duplicates(self, duplicates: Duplicates) -> (r: Self)
        ensures
            r@ == (DecodeSettings { duplicates, ..self@ }),
    {
        proof {
            use_type_invariant(&self);
        }
        let mut options = self;
        options.duplicates = duplicates;
        options
    }

    /// Returns whether a leading `?` is ignored.
    pub fn ignore_query_prefix(&self) -> (r: bool)
        ensures
            r == self@.ignore_query_prefix,
    {
        self.ignore_query_prefix
    }

    /// Enables or disables ignoring a leading `?` in the input.
    pub fn with_ignore_query_prefix(self, ignore_query_prefix: bool) -> (r: Self)
        ensures
            r@ == (DecodeSettings { ignore_query_prefix, ..self@ }),
    {
        proof {
            use_type_invariant(&self);
        }
        let mut options = self;
        options.ignore_query_prefix = ignore_query_prefix;
        options
    }

    /// Returns whether HTML numeric entities are interpreted in ISO-8859-1
    /// mode.
    pub fn interpret_numeric_entities(&self) -> (r: bool)
        ensures
            r == self@.interpret_numeric_entities,
    {
        self.interpret_numeric_entities
    }

    /// Enables or disables interpretation of HTML numeric entities.
    pub fn with_interpret_numeric_entities(self, interpret_numeric_entities: bool) -> (r: Self)
        ensures
            r@ == (DecodeSettings { interpret_numeric_entities, ..self@ }),
    {
        proof {
            use_type_invariant(&self);
        }
        let mut options = self;
        options.interpret_numeric_entities = interpret_numeric_entities;
        options
    }

    /// Returns whether bracketed numeric segments are parsed as lists.
    pub fn parse_lists(&self) -> (r: bool)
        ensures
            r == self@.parse_lists,
    {
        self.parse_lists
    }

    /// Enables or disables list parsing from bracketed numeric segments.
    pub fn with_parse_lists(self, parse_lists: bool) -> (r: Self)
        ensures
            r@ == (DecodeSettings { parse_lists, ..self@ }),
    {
        proof {
            use_type_invariant(&self);
        }
        let mut options = self;
        options.parse_lists = parse_lists;
        options
    }

    /// Returns whether exceeding the configured depth is treated as an error.
    pub fn strict_depth(&self) -> (r: bool)
        ensures
            r == self@.strict_depth,
    {
        self.strict_depth
    }

    /// Enables or disables strict depth enforcement.
    pub fn with_strict_depth(self, strict_depth: bool) -> (r: Self)
        ensures
            r@ == (DecodeSettings { strict_depth, ..self@ }),
    {
        proof {
            use_type_invariant(&self);
        }
        let mut options = self;
        options.strict_depth = strict_depth;
        options
    }

    /// Returns whether missing values are preserved as [`crate::Value::Null`].
    pub fn strict_null_handling(&self) -> (r: bool)
        ensures
            r == self@.strict_null_handling,
    {
        self.strict_null_handling
    }

    /// Enables or disables strict null handling for missing values.
    pub fn with_strict_null_handling(self, strict_null_handling: bool) -> (r: Self)
        ensures
            r@ == (DecodeSettings { strict_null_handling, ..self@ }),
    {
        proof {
            use_type_invariant(&self);
        }
        let mut options = self;
        options.strict_null_handling = strict_null_handling;
        options
    }

    /// Returns whether limit overflows are reported as errors instead of being
    /// compacted or redirected.
    pub fn throw_on_limit_exceeded(&self) -> (r: bool)
        ensures
            r == self@.throw_on_limit_exceeded,
    {
        self.throw_on_limit_exceeded
    }

    /// Enables or disables hard errors for list and parameter limit overflows.
    pub fn with_throw_on_limit_exceeded(self, throw_on_limit_exceeded: bool) -> (r: Self)
        ensures
            r@ == (DecodeSettings { throw_on_limit_exceeded, ..self@ }),
    {
        proof {
            use_type_invariant(&self);
        }
        let mut options = self;
        options.throw_on_limit_exceeded = throw_on_limit_exceeded;
        options
    }

    /// Returns the custom decoder callback, if one is configured.
    pub fn decoder(&self) -> (r: Option<&DecodeDecoder>)
        ensures
            r is Some <==> self@.decoder is Some,
            r matches Some(d) ==> *d == self@.decoder.unwrap(),
    {
        match &self.decoder {
            Some(d) => Some(d),
            None => None,
        }
    }

    /// Sets an optional custom decoder callback.
    pub fn with_decoder(self, decoder: Option<DecodeDecoder>) -> (r: Self)
        ensures
            r@ == (DecodeSettings { decoder, ..self@ }),
    {
        proof {
            use_type_invariant(&self);
        }
        let mut options = self;
        options.decoder = decoder;
        options
    }

    /// Checks the settings before decoding: the parameter limit must be
    /// positive, decoding dots in keys needs dot notation, and a text
    /// delimiter must not be empty, in that order.
    pub fn validate(&self) -> (r: Result<(), DecodeError>)
        ensures
            self@.decode_dot_in_keys ==> self@.allow_dots,
            r == (if self@.parameter_limit == 0 {
                Err(DecodeError::InvalidParameterLimit)
            } else if self@.decode_dot_in_keys && !self@.allow_dots {
                Err(DecodeError::DecodeDotInKeysRequiresAllowDots)
            } else if is_empty_text_delimiter(self@.delimiter) {
                Err(DecodeError::EmptyDelimiter)
            } else {
                Ok(())
            }),
    {
        proof {
            use_type_invariant(self);
        }
        if self.parameter_limit == 0 {
            return Err(DecodeError::InvalidParameterLimit);
        }
        if self.decode_dot_in_keys && !self.allow_dots {
            return Err(DecodeError::DecodeDotInKeysRequiresAllowDots);
        }
        if let Delimiter::String(text) = &self.delimiter {
            if text.as_str().is_empty() {
                return Err(DecodeError::EmptyDelimiter);
            }
        }
        Ok(())
    }
}

} // verus!
