//! Reader for TDMS (Technical Data Management Streaming) files: segment
//! scanning, object directory, data layout and typed channel reads over an
//! in-memory byte stream.

pub mod error;
pub mod toc;
pub mod byte_order;
pub mod byte_reader;
pub mod timestamp;
pub mod types;
mod sealed;
pub mod primitives;
pub mod text;
pub mod object_path;
pub mod object_map;
pub mod interleaved;
pub mod properties;
pub mod arena;
pub mod segment;
pub mod layout;
pub mod merge;
pub mod object_metadata;
pub mod channel_index;
pub mod scan;
pub mod channel_read;
pub mod tdms_reader;
pub mod file;

pub use crate::error::{Result, TdmsReadError};
pub use crate::file::{Channel, ChannelIterator, Group, GroupIterator, TdmsFile};
pub use crate::primitives::{Float32Bits, Float64Bits, NativeType};
pub use crate::properties::{TdmsProperty, TdmsValue};
pub use crate::timestamp::Timestamp;
pub use crate::types::TdsType;
