//! Query-string value model, temporal leaves and decode/encode helpers.

pub mod calendar;
pub mod chrono_support;
pub mod error;
pub mod fraction;
pub mod key_path;
pub mod merge;
pub mod node;
pub mod options;
pub mod overflow;
pub mod structured_scan;
pub mod temporal;
pub mod time_support;
pub mod value;

pub use crate::error::{DecodeError, EncodeError};
pub use crate::options::{
    Charset, DecodeDecoder, DecodeKind, DecodeOptions, Delimiter, Duplicates, EncodeFilter,
    EncodeOptions, EncodeToken, EncodeTokenEncoder, FilterResult, Format, FunctionFilter,
    ListFormat, SortMode, Sorter, TemporalSerializer, WhitelistSelector,
};
pub use crate::temporal::{DateTimeValue, TemporalValue, TemporalValueError};
pub use crate::value::{Object, Value};
