use vstd::prelude::*;

verus! {

/// One routable backend instance.
#[derive(Clone, Debug, PartialEq, Eq)]
pub struct SingleServer {
    pub host: String,
    pub port: u16,
    pub name: String,
    pub id: usize,
}

impl SingleServer {
    /// A field-for-field copy of this backend.
    pub fn duplicate(&self) -> (r: SingleServer)
        ensures
            r == *self,
    {
        SingleServer {
            host: self.host.clone(),
            port: self.port,
            name: self.name.clone(),
            id: self.id,
        }
    }
}

/// Listen address as read from the configuration file.
pub struct AppConf {
    pub port: u16,
    pub host: String,
}

/// Startup configuration of the balancer.
pub struct AppConfig {
    pub port: u16,
    pub host: String,
}

impl AppConfig {
    /// Takes the listen address over from a parsed configuration file.
    pub fn from(value: AppConf) -> (r: AppConfig)
        ensures
            r.port == value.port,
            r.host == value.host,
    {
        AppConfig { port: value.port, host: value.host }
    }
}

} // verus!
