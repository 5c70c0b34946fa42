//! The computational core of the MCP configuration commands.
//!
//! Server management itself — spawning, signalling, HTTP health checks —
//! is I/O and stays with the caller. What is verified here is the search
//! path computation: where configuration files are looked for, given the
//! home and working directories.

use vstd::prelude::*;
use vstd::string::StringExecFns;

verus! {

/// Errors from MCP server management.
#[derive(Debug, Clone)]
pub enum MCPError {
    ConfigNotFound(String),
    InvalidConfig(String),
    StartFailed(String),
    StopFailed(String),
    ServerNotFound(String),
    IoError(String),
    ProcessError(String),
}

/// An MCP configuration file: the named server definitions it holds.
#[derive(Debug)]
pub struct MCPConfigFile {
    pub mcp_servers: Option<std::collections::HashMap<String, MCPServerConfigFile>>,
}

/// One server definition in a configuration file.
#[derive(Debug)]
pub struct MCPServerConfigFile {
    pub command: Option<String>,
    pub args: Option<Vec<String>>,
    pub env: Option<std::collections::HashMap<String, String>>,
    pub url: Option<String>,
    pub headers: Option<std::collections::HashMap<String, String>>,
    pub disabled: Option<bool>,
}

/// What a server reports it can do.
#[derive(Debug)]
pub struct MCPCapabilities {
    pub tools: Vec<MCPTool>,
    pub resources: Vec<MCPResource>,
    pub prompts: Vec<MCPPrompt>,
}

#[derive(Debug, Clone)]
pub struct MCPTool {
    pub name: String,
    pub description: Option<String>,
}

#[derive(Debug, Clone)]
pub struct MCPResource {
    pub uri: String,
    pub name: String,
    pub description: Option<String>,
}

#[derive(Debug, Clone)]
pub struct MCPPrompt {
    pub name: String,
    pub description: Option<String>,
}

/// Capability discovery is not implemented yet: every server reports
/// empty capability lists.
pub fn fetch_mcp_capabilities(server_name: &str) -> (r: MCPCapabilities)
    ensures
        r.tools@.len() == 0,
        r.resources@.len() == 0,
        r.prompts@.len() == 0,
{
    let _ = server_name;
    MCPCapabilities { tools: Vec::new(), resources: Vec::new(), prompts: Vec::new() }
}

/// The configuration search path: the user-scope file under the home
/// directory, then the two project-scope files under the working
/// directory, in lookup order.
pub fn get_mcp_config_paths(home_dir: &str, working_dir: &str) -> (r: Vec<String>)
    ensures
        r.deep_view().len() == 3,
        r.deep_view()[0] == home_dir@ + "/.assistant/desktop_config.json"@,
        r.deep_view()[1] == working_dir@ + "/.mcp.json"@,
        r.deep_view()[2] == working_dir@ + "/.assistant/mcp.json"@,
{
    let mut r: Vec<String> = Vec::new();
    r.push(home_dir.to_owned().concat("/.assistant/desktop_config.json"));
    r.push(working_dir.to_owned().concat("/.mcp.json"));
    r.push(working_dir.to_owned().concat("/.assistant/mcp.json"));
    r
}

} // verus!
