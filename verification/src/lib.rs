//! Incremental discovery of HTTP endpoints in JavaScript, Python and PHP sources.

pub mod breaking;
pub mod changes;
pub mod config;
pub mod diff;
pub mod differ;
pub mod endpoint;
pub mod extract;
pub mod incremental;
pub mod languages;
pub mod metrics;
pub mod processor;
pub mod state;
pub mod syntax;
pub mod text;
pub mod watch;

pub use differ::TextDiffer;
pub use processor::DiffProcessor;
pub use diff::{ChangeEvent, ChangeSource, CodeRegion, FileDiff, LineChange, LineChangeType};
pub use endpoint::{Endpoint, HttpMethod};
pub use changes::{ChangeType, EndpointChange, EndpointChanges};
pub use incremental::IncrementalParser;
pub use state::EndpointState;
pub use watch::{FileEvent, FileEventType};
pub use extract::{detect_language, ExtractError, LanguageParser};
