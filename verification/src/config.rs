//! Static application configuration for the transport overlay: which topic
//! to meet on, where to listen, and which connectivity aids to enable.
use vstd::prelude::*;

verus! {

use crate::text::views_of_strings;
use vstd::string::StringExecFns;

/// The overlay configuration an instance starts from.
#[derive(Debug)]
pub struct AppConfig {
    pub topic_name: String,
    pub listen_addresses: Vec<String>,
    pub remote_peer_address: Option<String>,
    pub bootstrap_nodes: Vec<String>,
    pub enable_relay: bool,
    pub enable_hole_punching: bool,
}

impl Default for AppConfig {
    /// The stock configuration: the shared topic, one TCP and one QUIC
    /// listener on every interface, one public bootstrap node, and both
    /// connectivity aids on.
    fn default() -> (r: AppConfig)
        ensures
            r.topic_name@ == "p2p-chat"@,
            views_of_strings(r.listen_addresses@) == seq![
                "/ip4/0.0.0.0/tcp/0"@,
                "/ip4/0.0.0.0/udp/0/quic-v1"@,
            ],
            r.remote_peer_address is None,
            views_of_strings(r.bootstrap_nodes@) == seq![
                "/ip4/104.131.131.82/tcp/4001/p2p/QmaCpDMGvV2BGHeYERUEnRQAwe3N8SzbUtfsmvsqQLuvuJ"@,
            ],
            r.enable_relay == true,
            r.enable_hole_punching == true,
    {
        let mut listen_addresses: Vec<String> = Vec::new();
        listen_addresses.push(String::from_str("/ip4/0.0.0.0/tcp/0"));
        listen_addresses.push(String::from_str("/ip4/0.0.0.0/udp/0/quic-v1"));
        let mut bootstrap_nodes: Vec<String> = Vec::new();
        bootstrap_nodes.push(
            String::from_str(
                "/ip4/104.131.131.82/tcp/4001/p2p/QmaCpDMGvV2BGHeYERUEnRQAwe3N8SzbUtfsmvsqQLuvuJ",
            ),
        );
        proof {
            assert(views_of_strings(listen_addresses@) =~= seq![
                "/ip4/0.0.0.0/tcp/0"@,
                "/ip4/0.0.0.0/udp/0/quic-v1"@,
            ]);
            assert(views_of_strings(bootstrap_nodes@) =~= seq![
                "/ip4/104.131.131.82/tcp/4001/p2p/QmaCpDMGvV2BGHeYERUEnRQAwe3N8SzbUtfsmvsqQLuvuJ"@,
            ]);
        }
        AppConfig {
            topic_name: String::from_str("p2p-chat"),
            listen_addresses,
            remote_peer_address: None,
            bootstrap_nodes,
            enable_relay: true,
            enable_hole_punching: true,
        }
    }
}

} // verus!
