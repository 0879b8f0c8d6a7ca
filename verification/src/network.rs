//! The networks a wallet can be on, and their names.

use std::str::FromStr;

use bdk_wallet::bitcoin;
use vstd::prelude::*;

verus! {

/// The network that a wallet is on.
#[derive(Clone, Copy, Debug, PartialEq, Eq, Structural)]
pub enum Network {
    /// Mainnet Bitcoin.
    Bitcoin,
    /// Bitcoin's testnet network.
    Testnet,
    /// Bitcoin's testnet4 network.
    Testnet4,
    /// Bitcoin's signet network.
    Signet,
    /// Bitcoin's regtest network.
    Regtest,
}

/// The name of a network.
pub open spec fn network_name(n: Network) -> Seq<char> {
    match n {
        Network::Bitcoin => "bitcoin"@,
        Network::Testnet => "testnet"@,
        Network::Testnet4 => "testnet4"@,
        Network::Signet => "signet"@,
        Network::Regtest => "regtest"@,
    }
}

/// The network with the name `s`, if there is one.
pub open spec fn network_of_name(s: Seq<char>) -> Option<Network> {
    if s == "bitcoin"@ {
        Some(Network::Bitcoin)
    } else if s == "testnet"@ {
        Some(Network::Testnet)
    } else if s == "testnet4"@ {
        Some(Network::Testnet4)
    } else if s == "signet"@ {
        Some(Network::Signet)
    } else if s == "regtest"@ {
        Some(Network::Regtest)
    } else {
        None
    }
}

/// Calls `bitcoin::Network::from_str`, which takes the five names, in lower case, and no other
/// text.
#[verifier::external_body]
fn parse_network(text: &str) -> (r: Option<Network>)
    ensures
        r == network_of_name(text@),
{
    match bitcoin::Network::from_str(text).ok()? {
        bitcoin::Network::Bitcoin => Some(Network::Bitcoin),
        bitcoin::Network::Testnet => Some(Network::Testnet),
        bitcoin::Network::Testnet4 => Some(Network::Testnet4),
        bitcoin::Network::Signet => Some(Network::Signet),
        bitcoin::Network::Regtest => Some(Network::Regtest),
    }
}

/// Calls `to_string` on a `bitcoin::Network`, which writes the network's name.
#[verifier::external_body]
fn network_to_string(network: Network) -> (r: String)
    ensures
        r@ == network_name(network),
{
    let network = match network {
        Network::Bitcoin => bitcoin::Network::Bitcoin,
        Network::Testnet => bitcoin::Network::Testnet,
        Network::Testnet4 => bitcoin::Network::Testnet4,
        Network::Signet => bitcoin::Network::Signet,
        Network::Regtest => bitcoin::Network::Regtest,
    };
    network.to_string()
}

impl Network {
    /// The network with the name `text`, if there is one.
    pub fn from_name(text: &str) -> (r: Option<Network>)
        ensures
            r == network_of_name(text@),
            r matches Some(n) ==> network_name(n) == text@,
    {
        parse_network(text)
    }

    /// The network's name.
    pub fn name(self) -> (r: String)
        ensures
            r@ == network_name(self),
            network_of_name(r@) == Some(self),
    {
        proof {
            law_network_name_round_trip(self);
        }
        network_to_string(self)
    }
}

/// Each network has its own name, and a text is a network's name if and only if it stands for that
/// network.
pub proof fn law_network_names(m: Network, n: Network, s: Seq<char>)
    ensures
        network_name(Network::Bitcoin) == "bitcoin"@,
        network_name(Network::Testnet) == "testnet"@,
        network_name(Network::Testnet4) == "testnet4"@,
        network_name(Network::Signet) == "signet"@,
        network_name(Network::Regtest) == "regtest"@,
        network_name(m) == network_name(n) <==> m == n,
        network_of_name(s) == Some(n) <==> s == network_name(n),
        network_of_name(s) is None <==> !(s == "bitcoin"@ || s == "testnet"@ || s == "testnet4"@
            || s == "signet"@ || s == "regtest"@),
{
    law_network_name_round_trip(m);
    law_network_name_round_trip(n);
}

/// A network is the one that its name stands for.
pub proof fn law_network_name_round_trip(n: Network)
    ensures
        network_of_name(network_name(n)) == Some(n),
{
    reveal_strlit("bitcoin");
    reveal_strlit("testnet");
    reveal_strlit("testnet4");
    reveal_strlit("signet");
    reveal_strlit("regtest");
    assert("bitcoin"@[0] == 'b');
    assert("testnet"@[0] == 't');
    assert("signet"@[0] == 's');
    assert("regtest"@[0] == 'r');
    assert("testnet"@.len() == 7);
    assert("testnet4"@.len() == 8);
    assert("bitcoin"@ != "testnet4"@);
}

} // verus!
