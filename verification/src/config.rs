//! The settings of the three parts of the system.
use vstd::prelude::*;

verus! {

/// How to log on to the exchange.
#[derive(Debug)]
pub struct LogOnConfig {
    pub host: String,
    pub port: String,
    pub sender_id: String,
    pub target_id: String,
    pub username: String,
    pub password: String,
    pub reset_seq_no: bool,
    pub heart_bt_int: u32,
}

impl LogOnConfig {
    /// The seconds between two heartbeats: what is configured, but at least one.
    pub fn heartbeat_interval(&self) -> (secs: u64)
        ensures
            secs == (if self.heart_bt_int == 0 { 1 } else { self.heart_bt_int as int }),
    {
        if self.heart_bt_int == 0 {
            1
        } else {
            self.heart_bt_int as u64
        }
    }

    /// The address of the exchange.
    pub fn address(&self) -> (addr: String)
        ensures
            addr@ == self.host@ + ":"@ + self.port@,
    {
        let mut addr: String = self.host.clone();
        addr.append(":");
        addr.append(self.port.as_str());
        addr
    }
}

/// When the batcher flushes and when the compactor merges.
#[derive(Debug)]
pub struct BatchConfig {
    pub max_rows: usize,
    pub max_age: usize,
    pub data_dir: String,
    pub compact_interval: usize,
    pub compact_threshold: usize,
}

/// Where the query server listens, and how long it keeps an idle client.
#[derive(Debug)]
pub struct ListenConfig {
    pub addr: Option<String>,
    pub port: Option<String>,
    pub timeout: Option<u32>,
}

pub open spec fn text_or(text: Option<String>, default: Seq<char>) -> Seq<char> {
    match text {
        Some(t) => t@,
        None => default,
    }
}

impl Default for ListenConfig {
    fn default() -> (config: Self)
        ensures
            config.addr matches Some(addr) && addr@ == "0.0.0.0"@,
            config.port matches Some(port) && port@ == "5432"@,
            config.timeout == Some(300u32),
    {
        Self { addr: Some("0.0.0.0".to_owned()), port: Some("5432".to_owned()), timeout: Some(300) }
    }
}

impl Clone for ListenConfig {
    fn clone(&self) -> (r: Self)
        ensures
            r == *self,
    {
        let addr: Option<String> = match &self.addr {
            Some(addr) => Some(addr.clone()),
            None => None,
        };
        let port: Option<String> = match &self.port {
            Some(port) => Some(port.clone()),
            None => None,
        };
        ListenConfig { addr, port, timeout: self.timeout }
    }
}

impl ListenConfig {
    /// The address to bind, with the defaults for what is not configured.
    pub fn bind_address(&self) -> (r: String)
        ensures
            r@ == text_or(self.addr, "0.0.0.0"@) + ":"@ + text_or(self.port, "5432"@),
    {
        let mut r: String = match &self.addr {
            Some(addr) => addr.clone(),
            None => "0.0.0.0".to_owned(),
        };
        r.append(":");
        match &self.port {
            Some(port) => r.append(port.as_str()),
            None => r.append("5432"),
        }
        r
    }

    /// The seconds after which an idle client is disconnected: what is
    /// configured, or five minutes, but at least one second.
    pub fn idle_timeout(&self) -> (secs: u64)
        ensures
            secs == match self.timeout {
                Some(t) => if t == 0 {
                    1
                } else {
                    t as int
                },
                None => 300,
            },
    {
        match self.timeout {
            Some(t) => if t == 0 {
                1
            } else {
                t as u64
            },
            None => 300,
        }
    }
}

} // verus!
