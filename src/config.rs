//! The configuration the core runs with: where to listen, how often to collect, and
//! the devices to scrape.
use crate::text::owned;
use vstd::prelude::*;

verus! {

pub const DEFAULT_SERVER_ADDR: &'static str = "0.0.0.0:9090";

pub const DEFAULT_COLLECTION_INTERVAL_SECS: u64 = 30;

/// One device: its unique name, API address, user and password.
#[derive(Clone)]
pub struct RouterConfig {
    pub name: String,
    pub address: String,
    pub username: String,
    pub password: String,
}

/// Configuration of the exporter.
#[derive(Clone)]
pub struct Config {
    pub server_addr: String,
    pub routers: Vec<RouterConfig>,
    pub collection_interval_secs: u64,
}

impl Default for Config {
    fn default() -> (r: Config)
        ensures
            r.server_addr@ == DEFAULT_SERVER_ADDR@,
            r.routers@.len() == 0,
            r.collection_interval_secs == DEFAULT_COLLECTION_INTERVAL_SECS,
    {
        Config {
            server_addr: owned(DEFAULT_SERVER_ADDR),
            routers: Vec::new(),
            collection_interval_secs: DEFAULT_COLLECTION_INTERVAL_SECS,
        }
    }
}

impl Config {
    /// Names of the configured devices, in order.
    pub fn router_names(&self) -> (r: Vec<String>)
        ensures
            r@.len() == self.routers@.len(),
            forall|i: int| 0 <= i < r@.len() ==> (#[trigger] r@[i])@ == self.routers@[i].name@,
    {
        let mut out: Vec<String> = Vec::new();
        let mut i: usize = 0;
        while i < self.routers.len()
            invariant
                i <= self.routers@.len(),
                out@.len() == i,
                forall|j: int| 0 <= j < i ==> (#[trigger] out@[j])@ == self.routers@[j].name@,
            decreases self.routers@.len() - i,
        {
            out.push(self.routers[i].name.clone());
            i += 1;
        }
        out
    }

    /// Pool keys `(address, user)` of the configured devices, in order.
    pub fn pool_keys(&self) -> (r: Vec<(String, String)>)
        ensures
            r@.len() == self.routers@.len(),
            forall|i: int|
                0 <= i < r@.len() ==> (#[trigger] r@[i]).0@ == self.routers@[i].address@ && r@[i].1@
                    == self.routers@[i].username@,
    {
        let mut out: Vec<(String, String)> = Vec::new();
        let mut i: usize = 0;
        while i < self.routers.len()
            invariant
                i <= self.routers@.len(),
                out@.len() == i,
                forall|j: int|
                    0 <= j < i ==> (#[trigger] out@[j]).0@ == self.routers@[j].address@ && out@[j].1@
                        == self.routers@[j].username@,
            decreases self.routers@.len() - i,
        {
            out.push((self.routers[i].address.clone(), self.routers[i].username.clone()));
            i += 1;
        }
        out
    }
}

} // verus!
