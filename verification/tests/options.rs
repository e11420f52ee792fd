use std::cmp::Ordering;

use qs_rust::{
    Charset, DecodeDecoder, DecodeError, DecodeKind, DecodeOptions, Delimiter, Duplicates,
    EncodeError, EncodeFilter, EncodeOptions, EncodeToken, EncodeTokenEncoder, FilterResult,
    Format, FunctionFilter, ListFormat, SortMode, Sorter, TemporalSerializer, TemporalValue,
    Value, WhitelistSelector,
};

#[test]
fn getters_and_builders_cover_encode_specific_configuration() {
    let options = EncodeOptions::new()
        .with_skip_nulls(true)
        .with_comma_round_trip(true)
        .with_comma_compact_nulls(true)
        .with_encode_values_only(true)
        .with_add_query_prefix(true)
        .with_encode_dot_in_keys(true)
        .with_filter(Some(EncodeFilter::Function(FunctionFilter::new(|_, _| {
            FilterResult::Keep
        }))))
        .with_sort(SortMode::LexicographicAsc)
        .with_sorter(Some(Sorter::new(|left, right| {
            left.len().cmp(&right.len())
        })))
        .with_encoder(Some(EncodeTokenEncoder::new(|token, _, _| match token {
            EncodeToken::Key(text) | EncodeToken::TextValue(text) => format!("enc:{text}"),
            EncodeToken::Value(Value::String(text)) => format!("enc:{text}"),
            EncodeToken::Value(_) => "enc:other".to_owned(),
        })))
        .with_temporal_serializer(Some(TemporalSerializer::new(|_| {
            Some("temporal".to_owned())
        })))
        .with_max_depth(Some(3));

    assert!(options.skip_nulls());
    assert!(options.comma_round_trip());
    assert!(options.comma_compact_nulls());
    assert!(options.encode_values_only());
    assert!(options.add_query_prefix());
    assert!(options.allow_dots());
    assert!(options.encode_dot_in_keys());
    assert!(matches!(options.filter(), Some(EncodeFilter::Function(_))));
    assert_eq!(options.sort(), SortMode::LexicographicAsc);
    assert!(options.sorter().is_some());
    assert!(options.encoder().is_some());
    assert!(options.temporal_serializer().is_some());
    assert_eq!(options.max_depth(), Some(3));
    assert!(options.has_temporal_serializer());

    let cleared = options.clone().with_allow_dots(false);
    assert!(!cleared.allow_dots());
    assert!(!cleared.encode_dot_in_keys());

    let whitelist = EncodeOptions::new().with_whitelist(Some(vec![
        WhitelistSelector::Key("a".to_owned()),
        WhitelistSelector::Index(1),
    ]));
    assert!(matches!(
        whitelist.filter(),
        Some(EncodeFilter::Whitelist(entries)) if entries.len() == 2
    ));
    assert_eq!(
        whitelist.whitelist(),
        Some(
            &[
                WhitelistSelector::Key("a".to_owned()),
                WhitelistSelector::Index(1),
            ][..]
        )
    );

    let no_whitelist = EncodeOptions::new().with_filter(Some(EncodeFilter::Function(
        FunctionFilter::new(|_, _| FilterResult::Keep),
    )));
    assert!(no_whitelist.whitelist().is_none());

    let sorter = options.sorter().unwrap();
    assert_eq!(sorter.compare("aa", "b"), Ordering::Greater);
    let filter = match options.filter().unwrap() {
        EncodeFilter::Function(filter) => filter,
        _ => panic!("expected function filter"),
    };
    assert_eq!(filter.apply("root", &Value::Null), FilterResult::Keep);

    let encoder = options.encoder().unwrap();
    assert_eq!(
        encoder.encode(EncodeToken::Key("dot"), Charset::Utf8, Format::Rfc3986),
        "enc:dot"
    );
    assert_eq!(
        encoder.encode(
            EncodeToken::TextValue("joined"),
            Charset::Utf8,
            Format::Rfc3986,
        ),
        "enc:joined"
    );
    assert_eq!(
        encoder.encode(
            EncodeToken::Value(&Value::String("leaf".to_owned())),
            Charset::Utf8,
            Format::Rfc3986,
        ),
        "enc:leaf"
    );
    assert_eq!(
        encoder.encode(
            EncodeToken::Value(&Value::Bool(true)),
            Charset::Utf8,
            Format::Rfc3986,
        ),
        "enc:other"
    );
    let temporal = TemporalValue::datetime(2024, 1, 2, 3, 4, 5, 0, None).unwrap();
    assert_eq!(
        options.temporal_serializer().unwrap().serialize(&temporal),
        Some("temporal".to_owned())
    );
}

#[test]
fn encode_validate_rejects_an_empty_delimiter() {
    assert_eq!(EncodeOptions::new().validate(), Ok(()));
    assert_eq!(
        EncodeOptions::new().with_delimiter("").validate(),
        Err(EncodeError::EmptyDelimiter)
    );
    let dotted = EncodeOptions::new().with_encode_dot_in_keys(true);
    assert!(dotted.allow_dots());
    assert_eq!(dotted.validate(), Ok(()));
}

#[test]
fn encode_defaults_follow_qs() {
    let options = EncodeOptions::default();
    assert!(options.encode());
    assert_eq!(options.delimiter(), "&");
    assert_eq!(options.list_format(), ListFormat::Indices);
    assert_eq!(options.format(), Format::Rfc3986);
    assert_eq!(options.charset(), Charset::Utf8);
    assert!(!options.charset_sentinel());
    assert!(!options.allow_empty_lists());
    assert!(!options.strict_null_handling());
    assert!(!options.skip_nulls());
    assert!(!options.allow_dots());
    assert!(!options.encode_dot_in_keys());
    assert!(options.filter().is_none());
    assert_eq!(options.sort(), SortMode::Preserve);
    assert!(options.sorter().is_none());
    assert!(options.encoder().is_none());
    assert!(!options.has_temporal_serializer());
    assert_eq!(options.max_depth(), None);
    let changed = options
        .with_delimiter(";")
        .with_list_format(ListFormat::Comma)
        .with_format(Format::Rfc1738)
        .with_charset(Charset::Iso88591)
        .with_charset_sentinel(true)
        .with_encode(false)
        .with_allow_empty_lists(true)
        .with_strict_null_handling(true);
    assert_eq!(changed.delimiter(), ";");
    assert_eq!(changed.list_format(), ListFormat::Comma);
    assert_eq!(changed.format(), Format::Rfc1738);
    assert_eq!(changed.charset(), Charset::Iso88591);
    assert!(changed.charset_sentinel());
    assert!(!changed.encode());
    assert!(changed.allow_empty_lists());
    assert!(changed.strict_null_handling());
    let cleared = changed.with_whitelist(Some(vec![WhitelistSelector::Index(0)])).with_whitelist(None);
    assert!(cleared.filter().is_none());
}

#[test]
fn decode_defaults_follow_qs() {
    let options = DecodeOptions::new();
    assert!(!options.allow_dots());
    assert!(!options.decode_dot_in_keys());
    assert!(!options.allow_empty_lists());
    assert!(!options.allow_sparse_lists());
    assert_eq!(options.list_limit(), 20);
    assert_eq!(options.charset(), Charset::Utf8);
    assert!(!options.charset_sentinel());
    assert!(!options.comma());
    assert!(matches!(options.delimiter(), Delimiter::String(text) if text == "&"));
    assert_eq!(options.depth(), 5);
    assert_eq!(options.parameter_limit(), 1000);
    assert_eq!(options.duplicates(), Duplicates::Combine);
    assert!(!options.ignore_query_prefix());
    assert!(!options.interpret_numeric_entities());
    assert!(options.parse_lists());
    assert!(!options.strict_depth());
    assert!(!options.strict_null_handling());
    assert!(!options.throw_on_limit_exceeded());
    assert!(options.decoder().is_none());
    assert_eq!(options.validate(), Ok(()));
}

#[test]
fn decode_builders_set_each_field() {
    let options = DecodeOptions::default()
        .with_allow_empty_lists(true)
        .with_allow_sparse_lists(true)
        .with_list_limit(3)
        .with_charset(Charset::Iso88591)
        .with_charset_sentinel(true)
        .with_comma(true)
        .with_delimiter(Delimiter::String(";".to_owned()))
        .with_depth(2)
        .with_parameter_limit(10)
        .with_duplicates(Duplicates::Last)
        .with_ignore_query_prefix(true)
        .with_interpret_numeric_entities(true)
        .with_parse_lists(false)
        .with_strict_depth(true)
        .with_strict_null_handling(true)
        .with_throw_on_limit_exceeded(true)
        .with_decoder(Some(DecodeDecoder::new(|input, _, _| input.to_uppercase())));
    assert!(options.allow_empty_lists());
    assert!(options.allow_sparse_lists());
    assert_eq!(options.list_limit(), 3);
    assert_eq!(options.charset(), Charset::Iso88591);
    assert!(options.charset_sentinel());
    assert!(options.comma());
    assert!(matches!(options.delimiter(), Delimiter::String(text) if text == ";"));
    assert_eq!(options.depth(), 2);
    assert_eq!(options.parameter_limit(), 10);
    assert_eq!(options.duplicates(), Duplicates::Last);
    assert!(options.ignore_query_prefix());
    assert!(options.interpret_numeric_entities());
    assert!(!options.parse_lists());
    assert!(options.strict_depth());
    assert!(options.strict_null_handling());
    assert!(options.throw_on_limit_exceeded());
    assert_eq!(
        options.decoder().unwrap().decode("ab", Charset::Utf8, DecodeKind::Value),
        "AB"
    );
    let copy = options.clone();
    assert_eq!(copy.list_limit(), 3);
    assert!(copy.decoder().is_some());
}

#[test]
fn decode_dot_settings_stay_consistent() {
    let decoding = DecodeOptions::new().with_decode_dot_in_keys(true);
    assert!(decoding.allow_dots());
    assert!(decoding.decode_dot_in_keys());
    let cleared = decoding.clone().with_allow_dots(false);
    assert!(!cleared.allow_dots());
    assert!(!cleared.decode_dot_in_keys());
    let kept = decoding.with_decode_dot_in_keys(false);
    assert!(kept.allow_dots());
    assert!(!kept.decode_dot_in_keys());
}

#[test]
fn decode_validate_reports_each_error() {
    assert_eq!(
        DecodeOptions::new().with_parameter_limit(0).validate(),
        Err(DecodeError::InvalidParameterLimit)
    );
    assert_eq!(
        DecodeOptions::new()
            .with_delimiter(Delimiter::String(String::new()))
            .validate(),
        Err(DecodeError::EmptyDelimiter)
    );
    assert_eq!(
        DecodeOptions::new()
            .with_parameter_limit(0)
            .with_delimiter(Delimiter::String(String::new()))
            .validate(),
        Err(DecodeError::InvalidParameterLimit)
    );
    assert_eq!(
        DecodeOptions::new()
            .with_delimiter(Delimiter::Regex(regex::Regex::new("[&;]").unwrap()))
            .validate(),
        Ok(())
    );
}

#[test]
fn charset_sentinels_are_the_qs_markers() {
    assert_eq!(Charset::Utf8.sentinel(), "utf8=%E2%9C%93");
    assert_eq!(Charset::Iso88591.sentinel(), "utf8=%26%2310003%3B");
}

#[test]
fn cloned_options_keep_delimiters_and_whitelists() {
    let text = DecodeOptions::new().with_delimiter(Delimiter::String(";".to_owned()));
    assert!(matches!(text.clone().delimiter(), Delimiter::String(d) if d == ";"));

    let pattern = regex::Regex::new("[&;]").unwrap();
    let split = DecodeOptions::new().with_delimiter(Delimiter::Regex(pattern));
    match split.clone().delimiter() {
        Delimiter::Regex(copied) => assert_eq!(copied.as_str(), "[&;]"),
        Delimiter::String(_) => panic!("a regex delimiter stays a regex"),
    }

    let entries = vec![
        WhitelistSelector::Key("a".to_owned()),
        WhitelistSelector::Index(1),
    ];
    let encode = EncodeOptions::new()
        .with_delimiter(";")
        .with_whitelist(Some(entries.clone()));
    let copy = encode.clone();
    assert_eq!(copy.whitelist(), Some(entries.as_slice()));
    assert_eq!(copy.delimiter(), ";");
}

#[test]
fn cloned_encode_options_share_their_callbacks() {
    let options = EncodeOptions::new()
        .with_sorter(Some(Sorter::new(|left, right| right.cmp(left))))
        .with_allow_dots(true)
        .with_encode_dot_in_keys(true);
    let copy = options.clone().with_allow_dots(false);
    assert!(!copy.allow_dots());
    assert!(!copy.encode_dot_in_keys());
    assert_eq!(
        copy.sorter().unwrap().compare("a", "b"),
        Ordering::Greater
    );
    assert!(copy.validate().is_ok());
}
