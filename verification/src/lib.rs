
mod cache;
mod chars;
mod data;
mod dir;
mod sort;
mod store;

pub use cache::FileCache;
pub use data::{CachedFile, CurrentDirError, EntryV, FileData, FileType, FolderData, RecordV, TripleV};
pub use dir::{CurrentDir, DirV, FsAction};
pub use sort::sort_entries;
pub use store::{decode_records, encode_records, StoreState};
