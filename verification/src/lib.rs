//! Binder transaction logging: the records a kernel probe captures, the log
//! lines written from them, and the decoder that turns numeric transaction
//! codes and raw parcels back into method names and argument values.
//!
//! * [`probe`], [`event`], [`iface`]: what the probe decides and captures, and the bytes
//!   that cross the ring buffer.
//! * [`names`], [`errors`], [`clock`], [`line`], [`json`], [`dlt`], [`emit`]: from an
//!   event to the lines and messages of the sinks.
//! * [`control`], [`filter`], [`observed`], [`options`], [`sink`]: the live-tunable state,
//!   the control channel and the command lines.
//! * [`catalog`], [`catalog_json`], [`parcel`], [`rendering`], [`decode`], [`record`]: the
//!   offline decoder.
//! * [`marshal`], [`round_trip`], [`decode_laws`], [`log_laws`]: laws that span them.
//! * [`probe_laws`], [`name_laws`], [`failure_laws`], [`clock_laws`], [`line_laws`],
//!   [`emit_laws`]: laws of what is captured, named and put out.
//! * [`control_laws`], [`list_laws`], [`option_laws`]: laws of what is asked for.
//! * [`catalog_laws`], [`value_laws`], [`reading_laws`], [`record_laws`]: laws of what is
//!   read offline.
//! * [`text_laws`], [`view_laws`]: laws of the representations.
//! * [`bytes`], [`hex`], [`text`], [`utf16`]: the representations that all of them use.

pub mod bytes;
pub mod catalog;
pub mod catalog_json;
pub mod catalog_laws;
pub mod clock;
pub mod clock_laws;
pub mod control;
pub mod control_laws;
pub mod decode;
pub mod decode_laws;
pub mod dlt;
pub mod emit;
pub mod emit_laws;
pub mod errors;
pub mod event;
pub mod failure_laws;
pub mod filter;
pub mod hex;
pub mod iface;
pub mod json;
pub mod line;
pub mod line_laws;
pub mod list_laws;
pub mod log_laws;
pub mod marshal;
pub mod name_laws;
pub mod names;
pub mod observed;
pub mod option_laws;
pub mod options;
pub mod parcel;
pub mod probe;
pub mod probe_laws;
pub mod reading_laws;
pub mod record;
pub mod record_laws;
pub mod rendering;
pub mod round_trip;
pub mod sink;
pub mod text;
pub mod text_laws;
pub mod utf16;
pub mod value_laws;
pub mod view_laws;

pub use crate::catalog::{special_transaction, Arg, Catalog};
pub use crate::decode::{Decoded, Decoder};
pub use crate::record::{Label, Record};
