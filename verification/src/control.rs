//! The requests of the control channel, shared by the command line and the
//! web console.
use vstd::prelude::*;

use crate::config::{EditableSettings, SourceConfig};
use crate::models::TagConfig;

verus! {

/// A request to the daemon. Each one is served by the same domain service as
/// its web console counterpart.
pub enum ControlRequest {
    Status,
    ListSources,
    ListEvents { limit: Option<usize> },
    Diff { event_id: i64 },
    History { source_id: Option<String>, limit: Option<usize> },
    Check { source_id: String },
    SourcesAdd { source: Box<SourceConfig> },
    SourcesUpdate { source: Box<SourceConfig> },
    SourcesDelete { source_id: String },
    /// Sets the monitoring and notification switches of several sources;
    /// a switch left out is not changed.
    SourcesSetFlags { source_ids: Vec<String>, enabled: Option<bool>, notify_enabled: Option<bool> },
    TestSource { source_id: String },
    /// Fetches a URL and reads its title, to name a new source.
    PreviewSource { url: String, engine: String },
    MarkSourceRead { source_id: String },
    MarkEventRead { event_id: i64 },
    ListTags,
    UpdateTag { tag: Box<TagConfig> },
    DeleteTag { name: String },
    NotifyTest { chat_id: Option<String> },
    GetSettings,
    UpdateSettings { settings: Box<EditableSettings> },
    Backup,
    ListBackups,
    Restore { name: String },
    DeleteBackup { name: String },
    /// Restores from an uploaded archive already on disk.
    RestoreUpload { path: String },
    Shutdown,
}

/// The limit of an event listing request: the one asked, else 20.
pub fn events_limit(req: &ControlRequest) -> (r: Option<usize>)
    ensures
        match req {
            ControlRequest::ListEvents { limit } => r == Some(
                crate::api::list_limit_spec(*limit),
            ),
            ControlRequest::History { limit, .. } => r == Some(crate::api::list_limit_spec(*limit)),
            _ => r is None,
        },
{
    match req {
        ControlRequest::ListEvents { limit } => Some(crate::api::list_limit(*limit)),
        ControlRequest::History { limit, .. } => Some(crate::api::list_limit(*limit)),
        _ => None,
    }
}

} // verus!
