//! The node-client configuration and the pure parts of the RPC layer.
//!
//! The transport itself (request framing, HTTP, authentication) is the
//! caller's concern; the library holds the connection parameters and the
//! logic that interprets what the node returns.

use vstd::prelude::*;
use vstd::string::StringExecFns;

verus! {

/// Which network the node follows.
#[derive(Clone, Debug, PartialEq, Eq, Structural)]
pub enum Network {
    Mainnet,
    Testnet,
    Regnet,
}

impl Network {
    /// The network's name, as it appears in configuration.
    pub fn to_string(&self) -> (r: String)
        ensures
            r@ == self.name_spec(),
    {
        match self {
            Network::Mainnet => String::from_str("mainnet"),
            Network::Testnet => String::from_str("testnet"),
            Network::Regnet => String::from_str("regnet"),
        }
    }

    /// What `to_string` returns for each network.
    pub open spec fn name_spec(&self) -> Seq<char> {
        match self {
            Network::Mainnet => "mainnet"@,
            Network::Testnet => "testnet"@,
            Network::Regnet => "regnet"@,
        }
    }
}

/// Connection parameters of the node's RPC interface.
///
/// The handle is cheap to clone and carries no connection state; callers
/// open the actual transport from these parameters.
#[derive(Clone, Debug)]
pub struct BitcoinClient {
    /// The RPC endpoint, e.g. `http://127.0.0.1:18443`.
    pub endpoint: String,
    /// RPC user name.
    pub username: String,
    /// RPC password.
    pub password: String,
}

impl BitcoinClient {
    /// Records the parameters under which the node is reached.
    pub fn new(endpoint: String, username: String, password: String) -> (r: BitcoinClient)
        ensures
            r.endpoint@ == endpoint@,
            r.username@ == username@,
            r.password@ == password@,
    {
        BitcoinClient { endpoint, username, password }
    }
}

/// One entry of the node's chain-tip listing: a tip's height, and whether
/// the node reports it as the active chain.
#[derive(Clone, Copy, Debug, PartialEq, Eq, Structural)]
pub struct ChainTip {
    pub height: u32,
    pub active: bool,
}

/// The height of the first active tip of `tips`, if any.
pub open spec fn first_active_height(tips: Seq<ChainTip>) -> Option<u32>
    decreases tips.len(),
{
    if tips.len() == 0 {
        None
    } else if tips[0].active {
        Some(tips[0].height)
    } else {
        first_active_height(tips.drop_first())
    }
}

/// The height of the chain tip the node reports as active: the first
/// active entry of its chain-tip listing, if there is one.
pub fn active_chain_height(tips: &Vec<ChainTip>) -> (r: Option<u32>)
    ensures
        r == first_active_height(tips@),
{
    let n = tips.len();
    proof {
        assert(tips@.skip(0) =~= tips@);
    }
    for i in 0..n
        invariant
            n == tips@.len(),
            first_active_height(tips@) == first_active_height(tips@.skip(i as int)),
            forall|j: int| 0 <= j < i ==> !tips@[j].active,
    {
        proof {
            assert(tips@.skip(i as int)[0] == tips@[i as int]);
            assert(tips@.skip(i as int).drop_first() =~= tips@.skip(i + 1));
        }
        if tips[i].active {
            return Some(tips[i].height);
        }
    }
    proof {
        assert(tips@.skip(n as int).len() == 0);
    }
    None
}

} // verus!
