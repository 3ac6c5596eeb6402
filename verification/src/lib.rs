//! A small translation-lookup client core: it builds the signed request
//! parameters for the upstream translation endpoint, decodes the JSON
//! response body into a structured result, and renders that result as
//! display text through a small formatting capability.

pub mod formatters;
pub mod json;
pub mod roundtrip;
pub mod sign;
pub mod ydresponse;

pub use formatters::{AnsiFormatter, Formatter, PlainFormatter};
pub use sign::Config;
pub use ydresponse::{DecodeError, RawLookupResult, YdResponse, YdSmartResult, YdTranslateResult};
