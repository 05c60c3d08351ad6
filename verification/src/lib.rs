//! A buffered text-emission library: a fixed-capacity output buffer that
//! batches bytes and drains them to a byte sink while tolerating partial
//! and interrupted writes, together with a zero-reconversion decimal
//! numeral cursor and a branch-minimized short byte copy.

pub mod cursor;
pub mod digits;
pub mod fixed_copy;
pub mod sink;
pub mod writer;
pub mod laws;

pub use cursor::increase_str_num;
pub use cursor::NumeralCursor;
pub use cursor::NUM_WIDTH;
pub use digits::dec_digits;
pub use digits::pow10;
pub use digits::val_of;
pub use fixed_copy::memcpy_16;
pub use sink::ByteSink;
pub use sink::ChunkSink;
pub use sink::FailSink;
pub use sink::InterruptSink;
pub use sink::SinkError;
pub use sink::VecSink;
pub use sink::ZeroSink;
pub use writer::BufWriter;
pub use writer::WriteError;
pub use writer::MIN_CAPACITY;
pub use writer::U32_MAX_DIGITS;
