//! The settings a scan is started with.
use crate::modules::RequesterConfig;
use vstd::prelude::*;

verus! {

/// The target domain and the network settings of a scan.
#[derive(Debug)]
pub struct Cli {
    /// Target domain address to be enumerated
    pub domain: String,
    /// User-Agent header value for HTTP requests
    pub user_agent: String,
    /// HTTP timeout value as a seconds
    pub timeout: u64,
    /// HTTP proxy
    pub proxy: Option<String>,
}

impl Cli {
    /// The requester settings that every module gets for this scan: the
    /// timeout, user agent and proxy given, and no extra header.
    pub fn requester_config(&self) -> (r: RequesterConfig)
        ensures
            r.timeout_secs == self.timeout,
            r.user_agent@ == self.user_agent@,
            match (r.proxy, self.proxy) {
                (Some(a), Some(b)) => a@ == b@,
                (None, None) => true,
                _ => false,
            },
            r.header_list().len() == 0,
            r.wf(),
    {
        let proxy = match &self.proxy {
            Some(p) => Some(p.clone()),
            None => None,
        };
        RequesterConfig::new(self.timeout, self.user_agent.clone(), proxy)
    }
}

} // verus!
