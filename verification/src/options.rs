//! Public configuration and callback types for encoding and decoding.

pub mod callbacks;
pub mod decode;
pub mod encode;
pub mod shared;

pub use self::callbacks::{
    DecodeDecoder, EncodeFilter, EncodeToken, EncodeTokenEncoder, FilterResult, FunctionFilter,
    Sorter, TemporalSerializer,
};
pub use self::decode::DecodeOptions;
pub use self::encode::EncodeOptions;
pub use self::shared::{
    Charset, DecodeKind, Delimiter, Duplicates, Format, ListFormat, SortMode, WhitelistSelector,
};
