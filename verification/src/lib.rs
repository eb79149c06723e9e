//! A buffered adapter over a byte source: it batches many small reads into
//! fewer, larger reads against the source, and bypasses its own buffer for
//! requests at least as large as that buffer.

pub mod reader;
pub mod scatter;
pub mod source;

pub use reader::BufReader;
pub use reader::DEFAULT_CAPACITY;
pub use source::ByteSource;
pub use source::FaultySource;
pub use source::MemSource;
