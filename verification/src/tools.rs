//! The parameters of the wiki tools served over MCP. Every tool names the
//! wiki it works on.
use vstd::prelude::*;

verus! {

/// Parameters of `complete_item`.
#[derive(Debug, Clone)]
pub struct CompleteItemRequest {
    pub wiki: String,
    /// The queue item to mark complete.
    pub id: i64,
    /// The generated wiki page, relative to the wiki directory.
    pub wiki_page_path: String,
}

/// Parameters of `reject_item`.
#[derive(Debug, Clone)]
pub struct RejectItemRequest {
    pub wiki: String,
    /// The queue item to reject.
    pub id: i64,
    /// Why it is rejected.
    pub reason: String,
}

/// Parameters of `error_item`.
#[derive(Debug, Clone)]
pub struct ErrorItemRequest {
    pub wiki: String,
    /// The queue item to mark as errored.
    pub id: i64,
    /// The error to record.
    pub message: String,
}

/// Parameters of `list_items`.
#[derive(Debug, Clone)]
pub struct ListItemsRequest {
    pub wiki: String,
    /// A status to list only the items that have it.
    pub status: Option<String>,
}

/// Parameters of `read_source`.
#[derive(Debug, Clone)]
pub struct ReadSourceRequest {
    pub wiki: String,
    /// The queue item whose extracted text is read.
    pub id: i64,
}

/// Parameters of `read_page`.
#[derive(Debug, Clone)]
pub struct ReadPageRequest {
    pub wiki: String,
    /// The page, relative to the wiki directory.
    pub path: String,
}

/// Parameters of `write_page`.
#[derive(Debug, Clone)]
pub struct WritePageRequest {
    pub wiki: String,
    /// The page, relative to the wiki directory.
    pub path: String,
    /// Its new markdown content.
    pub content: String,
}

/// Parameters of `list_pages`.
#[derive(Debug, Clone)]
pub struct ListPagesRequest {
    pub wiki: String,
    /// A subdirectory to list only its pages.
    pub directory: Option<String>,
}

/// Parameters of `update_index`.
#[derive(Debug, Clone)]
pub struct UpdateIndexRequest {
    pub wiki: String,
    /// The line to append to the index.
    pub entry: String,
}

/// Parameters of `append_log`.
#[derive(Debug, Clone)]
pub struct AppendLogRequest {
    pub wiki: String,
    /// The text of the log entry.
    pub entry: String,
}

/// Parameters of the tools that need only the wiki.
#[derive(Debug, Clone)]
pub struct WikiRequest {
    pub wiki: String,
}

} // verus!
