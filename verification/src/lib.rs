//! Asset discovery and local serving for layered character assets.
//!
//! The scanner takes a snapshot of a directory tree and tells which files
//! are top-level assets and which belong to a manifest that refers to them.
//! The server part resolves the URL of a request to a file and decides how
//! the request is answered.  Everything here works on plain values: reading
//! directories, files and sockets is left to the caller.

pub mod json;
pub mod manifest;
pub mod mime;
pub mod names;
pub mod paths;
pub mod request;
pub mod scan_laws;
pub mod scanner;
pub mod server;
pub mod text;
pub mod tree;

pub use manifest::{extract_references, ManifestKind};
pub use mime::guess_mime_type;
pub use paths::get_asset_path;
pub use request::resolve_request_path;
pub use scanner::{scan_directory_recursive, ExclusionSet, ScanError};
pub use server::{
    add_cors_headers, find_available_port, handle_request, start_local_server, ServerSession,
};
pub use tree::Node;
