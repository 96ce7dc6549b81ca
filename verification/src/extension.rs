//! The editor extension's choice of the language server to start.
use vstd::prelude::*;
use vstd::string::*;

verus! {

/// The server binary started when the settings name none.
pub const SERVER_BINARY: &'static str = "header-42-lsp";

/// The command that starts the language server: the binary path from the
/// editor's settings when they give one, else `header-42-lsp`.
pub fn server_command(binary_path: Option<String>) -> (r: String)
    ensures
        r@ == (match binary_path {
            Some(p) => p@,
            None => SERVER_BINARY@,
        }),
{
    match binary_path {
        Some(p) => p,
        None => String::from_str(SERVER_BINARY),
    }
}

} // verus!
