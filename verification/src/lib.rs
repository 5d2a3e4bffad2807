//! A Latin1 or UTF-16 encoded, reference counted, immutable string.

pub mod builder;
pub mod code_point;
pub mod common;
pub mod compare;
pub mod convert;
pub mod iter;
pub mod js_str;
pub mod js_string;
pub mod laws;
pub mod layout;
pub mod number;
pub mod order;
pub mod private;
pub mod segments;
pub mod utf16;
pub mod whitespace;

mod external;
mod raw;

pub use crate::builder::JsStringBuilder;
pub use crate::code_point::CodePoint;
pub use crate::common::StaticJsStrings;
pub use crate::iter::{Iter, Windows};
pub use crate::js_str::{JsSliceIndex, JsStr, JsStrVariant};
pub use crate::js_string::{FromUtf16Error, JsString};
pub use crate::number::NumericLiteral;
