//! Extraction of avatar identifiers from cache files, a deduplicating
//! dispatch queue with a bounded drain loop, and a bounded history of
//! confirmed relays.
pub mod history;
pub mod matcher;
pub mod paths;
pub mod processor;

pub use history::SuccessHistory;
pub use matcher::find_avatar_id;
pub use paths::data_file_name;
pub use processor::AvatarProcessor;

