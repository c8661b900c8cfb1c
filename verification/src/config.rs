//! What the user has set.

use vstd::prelude::*;
use crate::hardware::GpuBandwidth;
use crate::llm::DEFAULT_N_CTX;
use crate::server::DEFAULT_PORT;

verus! {

pub struct Config {
    pub last_model: Option<String>,
    pub server_enabled: bool,
    /// Whether the local network may use the server.
    pub server_lan: bool,
    pub server_port: Option<u16>,
    pub workspace: Option<String>,
    pub web_tools: bool,
    pub skin: Option<String>,
    pub n_ctx: Option<u32>,
    /// The card's bandwidth, where it has been measured.
    pub gpu_bandwidth: Option<GpuBandwidth>,
    pub bridge_enabled: bool,
    pub bridge_token: String,
    /// The chats that may use the bridge.
    pub bridge_allowed: Vec<i64>,
    /// Whether those may drive the agent.
    pub bridge_code: bool,
}

impl Default for Config {
    /// Nothing is set, and nothing is exposed.
    fn default() -> (r: Self)
        ensures
            r.last_model is None,
            !r.server_enabled,
            !r.server_lan,
            r.server_port is None,
            r.workspace is None,
            !r.web_tools,
            r.skin is None,
            r.n_ctx is None,
            r.gpu_bandwidth is None,
            !r.bridge_enabled,
            r.bridge_token@.len() == 0,
            r.bridge_allowed@.len() == 0,
            !r.bridge_code,
    {
        Config {
            last_model: None,
            server_enabled: false,
            server_lan: false,
            server_port: None,
            workspace: None,
            web_tools: false,
            skin: None,
            n_ctx: None,
            gpu_bandwidth: None,
            bridge_enabled: false,
            bridge_token: String::new(),
            bridge_allowed: Vec::new(),
            bridge_code: false,
        }
    }
}

impl Config {
    /// The context window to use.
    pub fn n_ctx(&self) -> (r: u32)
        ensures
            r == match self.n_ctx {
                Some(n) => n,
                None => DEFAULT_N_CTX,
            },
    {
        match self.n_ctx {
            Some(n) => n,
            None => DEFAULT_N_CTX,
        }
    }

    /// The port to serve on.
    pub fn port(&self) -> (r: u16)
        ensures
            r == match self.server_port {
                Some(n) => n,
                None => DEFAULT_PORT,
            },
    {
        match self.server_port {
            Some(n) => n,
            None => DEFAULT_PORT,
        }
    }
}

} // verus!
