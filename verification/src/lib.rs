//! Building blocks of a crawler that collects Move repositories from GitHub:
//! the scan of Move sources for their declarations, the reading of GitHub's
//! paging and rate-limit headers and of the record of commit dates, and the
//! decisions the crawler takes between its requests.
pub mod text;
pub mod numbers;
pub mod time;
pub mod lookup;

pub mod move_parser;
pub mod move_helper;

pub mod requests;
pub mod rate_limit;
pub mod link_header;
pub mod code_search;
pub mod repo_search;

pub mod commit_dates;
pub mod archive;
pub mod download;
