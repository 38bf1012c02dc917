//! Re-segments an ordered list of geotagged, timestamped image records into
//! sequences: near-identical consecutive captures are dropped, and a new
//! sequence starts on a time gap, a change of source group or a length limit.

pub mod laws;
mod records;
mod sequencer;
mod stamp;
mod text;
mod zone;

pub use records::{sequence, utc_capture_time, Action, Entry, ImageFields, Report, SequenceError};
pub use sequencer::{classify, Anchor, Config, Observation, Outcome, Sequencer};
pub use stamp::{format_stamp, parse_stamp, Stamp};
pub use text::{decimal_text, parse_i64};
