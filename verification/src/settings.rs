//! Default values of the user settings and the editor theme choice.

use vstd::prelude::*;
use vstd::string::StringExecFns;

verus! {

/// Dark mode is on unless the user turns it off.
pub fn default_dark_mode() -> (r: bool)
    ensures
        r,
{
    true
}

/// Trailing whitespace is trimmed on save by default.
pub fn default_trim_whitespace() -> (r: bool)
    ensures
        r,
{
    true
}

/// The production relay host, without protocol.
pub fn default_server_host() -> (r: String)
    ensures
        r@ == "cc.minecartchris.cc"@,
{
    String::from_str("cc.minecartchris.cc")
}

/// Base URL of a local Ollama daemon.
pub fn default_ollama_url() -> (r: String)
    ensures
        r@ == "http://localhost:11434"@,
{
    String::from_str("http://localhost:11434")
}

/// The Ollama model tag used until the user picks another.
pub fn default_ollama_model() -> (r: String)
    ensures
        r@ == "qwen2.5-coder:7b"@,
{
    String::from_str("qwen2.5-coder:7b")
}

/// Name of the syntect theme that matches the UI's dark or light mode.
pub fn theme_name(dark: bool) -> (r: &'static str)
    ensures
        dark ==> r@ == "base16-ocean.dark"@,
        !dark ==> r@ == "InspiredGitHub"@,
{
    if dark {
        "base16-ocean.dark"
    } else {
        "InspiredGitHub"
    }
}

} // verus!
