//! Process configuration: where to reach the node, where the store lives,
//! and the minimum accepted search-prefix length.

use vstd::prelude::*;
use vstd::string::StringExecFns;

verus! {

/// Configuration of the server process.
///
/// Loading from a config file and the command line is the caller's
/// concern; the library defines the fields and their defaults.
#[derive(Clone, Debug)]
pub struct Settings {
    /// Address the server binds to.
    pub bind: String,
    /// Address of the node.
    pub node_ip: String,
    /// Port of the node's RPC interface.
    pub rpc_port: u16,
    /// RPC user name.
    pub rpc_username: String,
    /// RPC password.
    pub rpc_password: String,
    /// Port of the node's push feed.
    pub zmq_port: u16,
    /// Path of the index store.
    pub db_path: String,
    /// Minimum accepted search-prefix length, in bytes.
    pub min_prefix: usize,
}

impl Default for Settings {
    /// The documented defaults: a local node with standard ports and a
    /// two-byte minimum prefix.
    fn default() -> (r: Settings)
        ensures
            r.bind@ == "127.0.0.1:8080"@,
            r.node_ip@ == "127.0.0.1"@,
            r.rpc_port == 18443u16,
            r.rpc_username@ == "username"@,
            r.rpc_password@ == "password"@,
            r.zmq_port == 28332u16,
            r.db_path@ == ".prefix-server/db"@,
            r.min_prefix == 2usize,
    {
        Settings {
            bind: String::from_str("127.0.0.1:8080"),
            node_ip: String::from_str("127.0.0.1"),
            rpc_port: 18443,
            rpc_username: String::from_str("username"),
            rpc_password: String::from_str("password"),
            zmq_port: 28332,
            db_path: String::from_str(".prefix-server/db"),
            min_prefix: 2,
        }
    }
}

} // verus!
