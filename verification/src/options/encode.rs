//! Encode-specific configuration.

use vstd::prelude::*;
use vstd::std_specs::convert::IntoSpec;

use crate::error::EncodeError;

use super::callbacks::{EncodeFilter, EncodeTokenEncoder, FunctionFilter, Sorter, TemporalSerializer};
use super::shared::{Charset, Format, ListFormat, SortMode, WhitelistSelector};

verus! {

/// The settings held by an [`EncodeOptions`], field by field.
pub struct EncodeSettings {
    pub encode: bool,
    pub delimiter: String,
    pub list_format: ListFormat,
    pub format: Format,
    pub charset: Charset,
    pub charset_sentinel: bool,
    pub allow_empty_lists: bool,
    pub strict_null_handling: bool,
    pub skip_nulls: bool,
    pub comma_round_trip: bool,
    pub comma_compact_nulls: bool,
    pub encode_values_only: bool,
    pub add_query_prefix: bool,
    pub allow_dots: bool,
    pub encode_dot_in_keys: bool,
    pub filter: Option<FilterModel>,
    pub sort: SortMode,
    pub sorter: Option<Sorter>,
    pub encoder: Option<EncodeTokenEncoder>,
    pub temporal_serializer: Option<TemporalSerializer>,
    pub max_depth: Option<usize>,
}

/// Options that control query-string encoding.
///
/// The defaults follow the common `qs` behavior: RFC 3986 percent-encoding,
/// `&` delimiters, indexed list notation, and insertion-order output.
///
/// Encoding dots inside keys always comes with dot notation: no sequence of
/// builder calls yields options that escape dots without joining with them.
pub struct EncodeOptions {
    encode: bool,
    delimiter: String,
    list_format: ListFormat,
    format: Format,
    charset: Charset,
    charset_sentinel: bool,
    allow_empty_lists: bool,
    strict_null_handling: bool,
    skip_nulls: bool,
    comma_round_trip: bool,
    comma_compact_nulls: bool,
    encode_values_only: bool,
    add_query_prefix: bool,
    allow_dots: bool,
    encode_dot_in_keys: bool,
    filter: Option<EncodeFilter>,
    sort: SortMode,
    sorter: Option<Sorter>,
    encoder: Option<EncodeTokenEncoder>,
    temporal_serializer: Option<TemporalSerializer>,
    max_depth: Option<usize>,
}

impl View for EncodeOptions {
    type V = EncodeSettings;

    closed spec fn view(&self) -> EncodeSettings {
        EncodeSettings {
            encode: self.encode,
            delimiter: self.delimiter,
            list_format: self.list_format,
            format: self.format,
            charset: self.charset,
            charset_sentinel: self.charset_sentinel,
            allow_empty_lists: self.allow_empty_lists,
            strict_null_handling: self.strict_null_handling,
            skip_nulls: self.skip_nulls,
            comma_round_trip: self.comma_round_trip,
            comma_compact_nulls: self.comma_compact_nulls,
            encode_values_only: self.encode_values_only,
            add_query_prefix: self.add_query_prefix,
            allow_dots: self.allow_dots,
            encode_dot_in_keys: self.encode_dot_in_keys,
            filter: filter_model(self.filter),
            sort: self.sort,
            sorter: self.sorter,
            encoder: self.encoder,
            temporal_serializer: self.temporal_serializer,
            max_depth: self.max_depth,
        }
    }
}

/// The default encode settings, around a delimiter that reads `&`.
pub open spec fn default_encode_settings(delimiter: String) -> EncodeSettings {
    EncodeSettings {
        encode: true,
        delimiter: delimiter,
        list_format: ListFormat::Indices,
        format: Format::Rfc3986,
        charset: Charset::Utf8,
        charset_sentinel: false,
        allow_empty_lists: false,
        strict_null_handling: false,
        skip_nulls: false,
        comma_round_trip: false,
        comma_compact_nulls: false,
        encode_values_only: false,
        add_query_prefix: false,
        allow_dots: false,
        encode_dot_in_keys: false,
        filter: None,
        sort: SortMode::Preserve,
        sorter: None,
        encoder: None,
        temporal_serializer: None,
        max_depth: None,
    }
}

/// The contents of an encode filter: a whitelist by its entries, a function
/// filter as the callback it is.
pub enum FilterModel {
    Whitelist(Seq<WhitelistSelector>),
    Function(FunctionFilter),
}

/// The contents of an optional encode filter.
pub open spec fn filter_model(filter: Option<EncodeFilter>) -> Option<FilterModel> {
    match filter {
        Some(EncodeFilter::Whitelist(entries)) => Some(FilterModel::Whitelist(entries@)),
        Some(EncodeFilter::Function(f)) => Some(FilterModel::Function(f)),
        None => None,
    }
}

/// The whitelist inside a filter, if the filter is one.
pub open spec fn whitelist_of(filter: Option<FilterModel>) -> Option<Seq<WhitelistSelector>> {
    match filter {
        Some(FilterModel::Whitelist(entries)) => Some(entries),
        _ => None,
    }
}

impl EncodeOptions {
    /// Literal dot escaping is only ever on together with dot notation.
    #[verifier::type_invariant]
    spec fn dot_rule(self) -> bool {
        self.encode_dot_in_keys ==> self.allow_dots
    }
}

/// A copy of an optional filter with the same contents.
fn clone_filter(filter: &Option<EncodeFilter>) -> (r: Option<EncodeFilter>)
    ensures
        filter_model(r) == filter_model(*filter),
{
    match filter {
        Some(f) => Some(f.clone()),
        None => None,
    }
}

/// Another handle to an optional sorter.
fn clone_sorter(sorter: &Option<Sorter>) -> (r: Option<Sorter>)
    ensures
        r == *sorter,
{
    match sorter {
        Some(s) => Some(s.clone()),
        None => None,
    }
}

/// Another handle to an optional token encoder.
fn clone_encoder(encoder: &Option<EncodeTokenEncoder>) -> (r: Option<EncodeTokenEncoder>)
    ensures
        r == *encoder,
{
    match encoder {
        Some(e) => Some(e.clone()),
        None => None,
    }
}

/// Another handle to an optional temporal serializer.
fn clone_temporal_serializer(serializer: &Option<TemporalSerializer>) -> (r: Option<
    TemporalSerializer,
>)
    ensures
        r == *serializer,
{
    match serializer {
        Some(s) => Some(s.clone()),
        None => None,
    }
}

impl Clone for EncodeOptions {
    /// A copy with the same settings: a whitelist is copied entry by entry,
    /// and the callbacks are other handles to the same callbacks.
    fn clone(&self) -> (r: Self)
        ensures
            r@ == self@,
    {
        proof {
            use_type_invariant(self);
        }
        let delimiter = self.delimiter.clone();
        let filter = clone_filter(&self.filter);
        let sorter = clone_sorter(&self.sorter);
        let encoder = clone_encoder(&self.encoder);
        let temporal_serializer = clone_temporal_serializer(&self.temporal_serializer);
        EncodeOptions {
            encode: self.encode,
            delimiter,
            list_format: self.list_format,
            format: self.format,
            charset: self.charset,
            charset_sentinel: self.charset_sentinel,
            allow_empty_lists: self.allow_empty_lists,
            strict_null_handling: self.strict_null_handling,
            skip_nulls: self.skip_nulls,
            comma_round_trip: self.comma_round_trip,
            comma_compact_nulls: self.comma_compact_nulls,
            encode_values_only: self.encode_values_only,
            add_query_prefix: self.add_query_prefix,
            allow_dots: self.allow_dots,
            encode_dot_in_keys: self.encode_dot_in_keys,
            filter,
            sort: self.sort,
            sorter,
            encoder,
            temporal_serializer,
            max_depth: self.max_depth,
        }
    }
}

impl Default for EncodeOptions {
    fn default() -> (r: Self)
        ensures
            r@ == default_encode_settings(r@.delimiter),
            r@.delimiter@ == seq!['&'],
    {
        proof {
            reveal_strlit("&");
        }
        EncodeOptions {
            encode: true,
            delimiter: "&".to_owned(),
            list_format: ListFormat::Indices,
            format: Format::Rfc3986,
            charset: Charset::Utf8,
            charset_sentinel: false,
            allow_empty_lists: false,
            strict_null_handling: false,
            skip_nulls: false,
            comma_round_trip: false,
            comma_compact_nulls: false,
            encode_values_only: false,
            add_query_prefix: false,
            allow_dots: false,
            encode_dot_in_keys: false,
            filter: None,
            sort: SortMode::Preserve,
            sorter: None,
            encoder: None,
            temporal_serializer: None,
            max_depth: None,
        }
    }
}

impl EncodeOptions {
    /// Creates a new option set with the default encode configuration.
    pub fn new() -> (r: Self)
        ensures
            r@ == default_encode_settings(r@.delimiter),
            r@.delimiter@ == seq!['&'],
    {
        Self::default()
    }

    /// Returns whether scalar values are percent-encoded.
    pub fn encode(&self) -> (r: bool)
        ensures
            r == self@.encode,
    {
        self.encode
    }

    /// Enables or disables percent-encoding.
    pub fn with_encode(self, encode: bool) -> (r: Self)
        ensures
            r@ == (EncodeSettings { encode, ..self@ }),
    {
        proof {
            use_type_invariant(&self);
        }
        let mut options = self;
        options.encode = encode;
        options
    }

    /// Returns the delimiter inserted between encoded pairs.
    pub fn delimiter(&self) -> (r: &str)
        ensures
            r@ == self@.delimiter@,
    {
        self.delimiter.as_str()
    }

    /// Sets the delimiter inserted between encoded pairs.
    pub fn with_delimiter<S>(self, delimiter: S) -> (r: Self)
        where
            S: Into<String>,
        ensures
            r@ == (EncodeSettings { delimiter: r@.delimiter, ..self@ }),
            S::obeys_into_spec() ==> r@.delimiter == delimiter.into_spec(),
    {
        proof {
            use_type_invariant(&self);
        }
        let mut options = self;
        options.delimiter = delimiter.into();
        options
    }

    /// Returns the list notation used for arrays.
    pub fn list_format(&self) -> (r: ListFormat)
        ensures
            r == self@.list_format,
    {
        self.list_format
    }

    /// Sets the list notation used for arrays.
    pub fn with_list_format(self, list_format: ListFormat) -> (r: Self)
        ensures
            r@ == (EncodeSettings { list_format, ..self@ }),
    {
        proof {
            use_type_invariant(&self);
        }
        let mut options = self;
        options.list_format = list_format;
        options
    }

    /// Returns the percent-encoding flavor used for strings.
    pub fn format(&self) -> (r: Format)
        ensures
            r == self@.format,
    {
        self.format
    }

    /// Sets the percent-encoding flavor used for strings.
    pub fn with_format(self, format: Format) -> (r: Self)
        ensures
            r@ == (EncodeSettings { format, ..self@ }),
    {
        proof {
            use_type_invariant(&self);
        }
        let mut options = self;
        options.format = format;
        options
    }

    /// Returns the character set used for percent-encoding.
    pub fn charset(&self) -> (r: Charset)
        ensures
            r == self@.charset,
    {
        self.charset
    }

    /// Sets the character set used for percent-encoding.
    pub fn with_charset(self, charset: Charset) -> (r: Self)
        ensures
            r@ == (EncodeSettings { charset, ..self@ }),
    {
        proof {
            use_type_invariant(&self);
        }
        let mut options = self;
        options.charset = charset;
        options
    }

    /// Returns whether a charset sentinel is prefixed to the output.
    pub fn charset_sentinel(&self) -> (r: bool)
        ensures
            r == self@.charset_sentinel,
    {
        self.charset_sentinel
    }

    /// Enables or disables prepending a charset sentinel pair.
    pub fn with_charset_sentinel(self, charset_sentinel: bool) -> (r: Self)
        ensures
            r@ == (EncodeSettings { charset_sentinel, ..self@ }),
    {
        proof {
            use_type_invariant(&self);
        }
        let mut options = self;
        options.charset_sentinel = charset_sentinel;
        options
    }

    /// Returns whether empty arrays are emitted.
    pub fn allow_empty_lists(&self) -> (r: bool)
        ensures
            r == self@.allow_empty_lists,
    {
        self.allow_empty_lists
    }

    /// Enables or disables emitting empty arrays.
    pub fn with_allow_empty_lists(self, allow_empty_lists: bool) -> (r: Self)
        ensures
            r@ == (EncodeSettings { allow_empty_lists, ..self@ }),
    {
        proof {
            use_type_invariant(&self);
        }
        let mut options = self;
        options.allow_empty_lists = allow_empty_lists;
        options
    }

    /// Returns whether nulls are emitted without `=`.
    pub fn strict_null_handling(&self) -> (r: bool)
        ensures
            r == self@.strict_null_handling,
    {
        self.strict_null_handling
    }

    /// Enables or disables strict null handling.
    pub fn with_strict_null_handling(self, strict_null_handling: bool) -> (r: Self)
        ensures
            r@ == (EncodeSettings { strict_null_handling, ..self@ }),
    {
        proof {
            use_type_invariant(&self);
        }
        let mut options = self;
        options.strict_null_handling = strict_null_handling;
        options
    }

    /// Returns whether null values are omitted entirely.
    pub fn skip_nulls(&self) -> (r: bool)
        ensures
            r == self@.skip_nulls,
    {
        self.skip_nulls
    }

    /// Enables or disables omission of null values.
    pub fn with_skip_nulls(self, skip_nulls: bool) -> (r: Self)
        ensures
            r@ == (EncodeSettings { skip_nulls, ..self@ }),
    {
        proof {
            use_type_invariant(&self);
        }
        let mut options = self;
        options.skip_nulls = skip_nulls;
        options
    }

    /// Returns whether single-item comma lists are round-tripped with `[]`.
    pub fn comma_round_trip(&self) -> (r: bool)
        ensures
            r == self@.comma_round_trip,
    {
        self.comma_round_trip
    }

    /// Enables or disables comma round-tripping for single-item arrays.
    pub fn with_comma_round_trip(self, comma_round_trip: bool) -> (r: Self)
        ensures
            r@ == (EncodeSettings { comma_round_trip, ..self@ }),
    {
        proof {
            use_type_invariant(&self);
        }
        let mut options = self;
        options.comma_round_trip = comma_round_trip;
        options
    }

    /// Returns whether nulls are compacted out of comma-encoded arrays.
    pub fn comma_compact_nulls(&self) -> (r: bool)
        ensures
            r == self@.comma_compact_nulls,
    {
        self.comma_compact_nulls
    }

    /// Enables or disables null compaction for comma-encoded arrays.
    pub fn with_comma_compact_nulls(self, comma_compact_nulls: bool) -> (r: Self)
        ensures
            r@ == (EncodeSettings { comma_compact_nulls, ..self@ }),
    {
        proof {
            use_type_invariant(&self);
        }
        let mut options = self;
        options.comma_compact_nulls = comma_compact_nulls;
        options
    }

    /// Returns whether only values, and not keys, are percent-encoded.
    pub fn encode_values_only(&self) -> (r: bool)
        ensures
            r == self@.encode_values_only,
    {
        self.encode_values_only
    }

    /// Enables or disables value-only percent-encoding.
    pub fn with_encode_values_only(self, encode_values_only: bool) -> (r: Self)
        ensures
            r@ == (EncodeSettings { encode_values_only, ..self@ }),
    {
        proof {
            use_type_invariant(&self);
        }
        let mut options = self;
        options.encode_values_only = encode_values_only;
        options
    }

    /// Returns whether a leading `?` is prefixed to the output.
    pub fn add_query_prefix(&self) -> (r: bool)
        ensures
            r == self@.add_query_prefix,
    {
        self.add_query_prefix
    }

    /// Enables or disables a leading `?` in the encoded output.
    pub fn with_add_query_prefix(self, add_query_prefix: bool) -> (r: Self)
        ensures
            r@ == (EncodeSettings { add_query_prefix, ..self@ }),
    {
        proof {
            use_type_invariant(&self);
        }
        let mut options = self;
        options.add_query_prefix = add_query_prefix;
        options
    }

    /// Returns whether nested object paths are encoded with dot notation.
    pub fn allow_dots(&self) -> (r: bool)
        ensures
            r == self@.allow_dots,
    {
        self.allow_dots
    }

    /// Enables or disables dot notation during encode.
    ///
    /// Setting this to `false` also clears [`Self::encode_dot_in_keys`].
    pub fn with_allow_dots(self, allow_dots: bool) -> (r: Self)
        ensures
            r@ == (EncodeSettings {
                allow_dots,
                encode_dot_in_keys: self@.encode_dot_in_keys && allow_dots,
                ..self@
            }),
    {
        proof {
            use_type_invariant(&self);
        }
        let mut options = self;
        if !allow_dots {
            options.encode_dot_in_keys = false;
        }
        options.allow_dots = allow_dots;
        options
    }

    /// Returns whether literal dots in key names are percent-encoded when dot
    /// notation is active.
    pub fn encode_dot_in_keys(&self) -> (r: bool)
        ensures
            r == self@.encode_dot_in_keys,
    {
        self.encode_dot_in_keys
    }

    /// Enables or disables percent-encoding of literal dots in keys.
    ///
    /// Enabling this option also enables [`Self::allow_dots`].
    pub fn with_encode_dot_in_keys(self, encode_dot_in_keys: bool) -> (r: Self)
        ensures
            r@ == (EncodeSettings {
                allow_dots: self@.allow_dots || encode_dot_in_keys,
                encode_dot_in_keys,
                ..self@
            }),
    {
        proof {
            use_type_invariant(&self);
        }
        let mut options = self;
        if encode_dot_in_keys {
            options.allow_dots = true;
        }
        options.encode_dot_in_keys = encode_dot_in_keys;
        options
    }

    /// Returns the configured filter, if any.
    pub fn filter(&self) -> (r: Option<&EncodeFilter>)
        ensures
            r is Some <==> self@.filter is Some,
            r matches Some(x) ==> filter_model(Some(*x)) == self@.filter,
    {
        match &self.filter {
            Some(x) => Some(x),
            None => None,
        }
    }

    /// Sets an optional encode filter.
    pub fn with_filter(self, filter: Option<EncodeFilter>) -> (r: Self)
        ensures
            r@ == (EncodeSettings { filter: filter_model(filter), ..self@ }),
    {
        proof {
            use_type_invariant(&self);
        }
        let mut options = self;
        options.filter = filter;
        options
    }

    /// Returns the current whitelist when [`EncodeFilter::Whitelist`] is in
    /// use.
    pub fn whitelist(&self) -> (r: Option<&[WhitelistSelector]>)
        ensures
            r is Some <==> whitelist_of(self@.filter) is Some,
            r matches Some(entries) ==> entries@ == whitelist_of(self@.filter).unwrap(),
    {
        match &self.filter {
            Some(EncodeFilter::Whitelist(entries)) => Some(entries.as_slice()),
            _ => None,
        }
    }

    /// Replaces the current filter with a whitelist, or clears it when `None`
    /// is supplied.
    pub fn with_whitelist(self, whitelist: Option<Vec<WhitelistSelector>>) -> (r: Self)
        ensures
            r@ == (EncodeSettings {
                filter: match whitelist {
                    Some(entries) => Some(FilterModel::Whitelist(entries@)),
                    None => None,
                },
                ..self@
            }),
    {
        proof {
            use_type_invariant(&self);
        }
        let mut options = self;
        options.filter = match whitelist {
            Some(entries) => Some(EncodeFilter::Whitelist(entries)),
            None => None,
        };
        options
    }

    /// Returns the built-in sort mode.
    pub fn sort(&self) -> (r: SortMode)
        ensures
            r == self@.sort,
    {
        self.sort
    }

    /// Sets the built-in sort mode.
    pub fn with_sort(self, sort: SortMode) -> (r: Self)
        ensures
            r@ == (EncodeSettings { sort, ..self@ }),
    {
        proof {
            use_type_invariant(&self);
        }
        let mut options = self;
        options.sort = sort;
        options
    }

    /// Returns the custom sorter, if one is configured.
    pub fn sorter(&self) -> (r: Option<&Sorter>)
        ensures
            r is Some <==> self@.sorter is Some,
            r matches Some(x) ==> *x == self@.sorter.unwrap(),
    {
        match &self.sorter {
            Some(x) => Some(x),
            None => None,
        }
    }

    /// Sets an optional custom sorter.
    pub fn with_sorter(self, sorter: Option<Sorter>) -> (r: Self)
        ensures
            r@ == (EncodeSettings { sorter, ..self@ }),
    {
        proof {
            use_type_invariant(&self);
        }
        let mut options = self;
        options.sorter = sorter;
        options
    }

    /// Returns the custom key/value encoder, if one is configured.
    pub fn encoder(&self) -> (r: Option<&EncodeTokenEncoder>)
        ensures
            r is Some <==> self@.encoder is Some,
            r matches Some(x) ==> *x == self@.encoder.unwrap(),
    {
        match &self.encoder {
            Some(x) => Some(x),
            None => None,
        }
    }

    /// Sets an optional custom key/value encoder.
    pub fn with_encoder(self, encoder: Option<EncodeTokenEncoder>) -> (r: Self)
        ensures
            r@ == (EncodeSettings { encoder, ..self@ }),
    {
        proof {
            use_type_invariant(&self);
        }
        let mut options = self;
        options.encoder = encoder;
        options
    }

    /// Returns the custom temporal serializer, if one is configured.
    pub fn temporal_serializer(&self) -> (r: Option<&TemporalSerializer>)
        ensures
            r is Some <==> self@.temporal_serializer is Some,
            r matches Some(x) ==> *x == self@.temporal_serializer.unwrap(),
    {
        match &self.temporal_serializer {
            Some(x) => Some(x),
            None => None,
        }
    }

    /// Sets an optional custom temporal serializer.
    pub fn with_temporal_serializer(self, temporal_serializer: Option<TemporalSerializer>) -> (r: Self)
        ensures
            r@ == (EncodeSettings { temporal_serializer, ..self@ }),
    {
        proof {
            use_type_invariant(&self);
        }
        let mut options = self;
        options.temporal_serializer = temporal_serializer;
        options
    }

    /// Returns the maximum traversal depth, if one is configured.
    pub fn max_depth(&self) -> (r: Option<usize>)
        ensures
            r == self@.max_depth,
    {
        self.max_depth
    }

    /// Sets the maximum traversal depth.
    pub fn with_max_depth(self, max_depth: Option<usize>) -> (r: Self)
        ensures
            r@ == (EncodeSettings { max_depth, ..self@ }),
    {
        proof {
            use_type_invariant(&self);
        }
        let mut options = self;
        options.max_depth = max_depth;
        options
    }

    /// Checks the settings before encoding: the delimiter must not be empty,
    /// and escaping dots in keys needs dot notation, in that order.
    pub fn validate(&self) -> (r: Result<(), EncodeError>)
        ensures
            self@.encode_dot_in_keys ==> self@.allow_dots,
            r == (if self@.delimiter@.len() == 0 {
                Err(EncodeError::EmptyDelimiter)
            } else if self@.encode_dot_in_keys && !self@.allow_dots {
                Err(EncodeError::EncodeDotInKeysRequiresAllowDots)
            } else {
                Ok(())
            }),
    {
        proof {
            use_type_invariant(self);
        }
        if self.delimiter.as_str().is_empty() {
            return Err(EncodeError::EmptyDelimiter);
        }
        if self.encode_dot_in_keys && !self.allow_dots {
            return Err(EncodeError::EncodeDotInKeysRequiresAllowDots);
        }
        Ok(())
    }

    /// Whether a custom temporal serializer is configured.
    pub fn has_temporal_serializer(&self) -> (r: bool)
        ensures
            r == self@.temporal_serializer is Some,
    {
        self.temporal_serializer.is_some()
    }
}

} // verus!
