//! A resilient watcher for one configuration file.
//!
//! The crate holds the decisions of the watcher: which inotify watches cover
//! a path and every symlink on the way to it, what an inotify event means for
//! the installed watches, and when the file is read again and a value handed
//! to the consumer. Everything here is pure; the caller performs the system
//! calls and feeds their results back in.

pub mod backend;
pub mod builder;
pub mod builder_laws;
pub mod config;
pub mod coverage;
pub mod error;
pub mod event;
pub mod fallback;
pub mod holder;
pub mod mask;
pub mod path;
pub mod plan;
pub mod records;
pub mod supervisor;
pub mod tracking;

pub use backend::{Backend, BackendAction, BackendEvent};
pub use builder::{PlanBuilder, PlanReply, PlanRequest, PlanStep};
pub use config::{FileWatcherConfig, FnParser, Infallible, PassThrough, WatcherContext};
pub use error::{FileWatcherError, WatchError};
pub use event::{decode_events, INotifyEvent, WatchHandle};
pub use mask::INotifyMask;
pub use path::{normalize, NormalPath};
pub use plan::{EventClass, WatchPlan};
pub use supervisor::{Action, Event, Phase, Supervisor};
