//! A codec for the RESP wire protocol: bytes to values, values to bytes,
//! and an incremental driver for input that arrives in arbitrary chunks.
//!
//! [`parse_value`] decodes one value from the head of a byte slice,
//! [`encode`] writes a value, and a [`Driver`] decodes from a stream that
//! is cut anywhere. The grammar is stated once, in [`grammar`], as
//! functions on byte sequences; the decoders are proved to compute it, and
//! [`roundtrip`], [`window`] and [`limits`] prove what follows from it.

pub mod bigint;
pub mod bignum;
pub mod bulk;
pub mod bytes;
pub mod cursor;
pub mod decimal;
pub mod decode;
pub mod double;
pub mod driver;
pub mod encode;
pub mod error;
pub mod grammar;
pub mod limits;
pub mod line;
pub mod roundtrip;
pub mod scalar;
pub mod value;
pub mod window;

pub use bignum::BigNumber;
pub use decode::parse_value;
pub use decode::parse_value_with;
pub use driver::Driver;
pub use driver::Phase;
pub use driver::Step;
pub use encode::encode;
pub use encode::encode_into;
pub use error::Error;
pub use grammar::Limits;
pub use value::Value;
