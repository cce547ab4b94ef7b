//! The per-worker outgoing queue and the resolution of the connection's
//! configuration values.
use vstd::prelude::*;

use crate::messages::imsgs_view;
use crate::messages::InterfaceMessage;
use crate::messages::InterfaceMessageV;

verus! {

/// A queue of packets to be sent to the server: the append-only buffer of one
/// worker's outgoing messages for the current cycle. It is drained in one
/// piece, never read partially.
pub struct PacketQueue {
    internal_queue: Vec<InterfaceMessage>,
}

impl View for PacketQueue {
    type V = Seq<InterfaceMessageV>;

    closed spec fn view(&self) -> Seq<InterfaceMessageV> {
        imsgs_view(self.internal_queue@)
    }
}

impl PacketQueue {
    /// An empty queue with room for `capacity` messages.
    pub fn new(capacity: usize) -> (r: Self)
        ensures
            r@ == Seq::<InterfaceMessageV>::empty(),
    {
        let r = PacketQueue { internal_queue: Vec::with_capacity(capacity) };
        proof {
            assert(r@ =~= Seq::<InterfaceMessageV>::empty());
        }
        r
    }

    /// Appends one outgoing message.
    pub fn push(&mut self, packet: InterfaceMessage)
        ensures
            final(self)@ == old(self)@.push(packet@),
    {
        let ghost oldv = self@;
        let ghost pv = packet@;
        self.internal_queue.push(packet);
        proof {
            assert(self@ =~= oldv.push(pv));
        }
    }

    /// Whether the queue holds no messages.
    pub fn is_empty(&self) -> (r: bool)
        ensures
            r == (self@.len() == 0),
    {
        self.internal_queue.len() == 0
    }

    /// Drains the queue: hands out everything accumulated, in order, leaving
    /// the queue empty. The one-shot hand-off of a worker's cycle output.
    pub fn empty(&mut self) -> (r: Vec<InterfaceMessage>)
        ensures
            imsgs_view(r@) == old(self)@,
            final(self)@ == Seq::<InterfaceMessageV>::empty(),
    {
        let mut taken: Vec<InterfaceMessage> = Vec::new();
        core::mem::swap(&mut taken, &mut self.internal_queue);
        proof {
            assert(self@ =~= Seq::<InterfaceMessageV>::empty());
        }
        taken
    }
}

impl Default for PacketQueue {
    /// An empty queue with a small default capacity.
    fn default() -> (r: Self)
        ensures
            r@ == Seq::<InterfaceMessageV>::empty(),
    {
        PacketQueue::new(16)
    }
}

/// The configuration the connection needs: the server's address and the agent
/// identifier, resolved from optional sources with the protocol's defaults.
pub struct AgentEnvironment {
    /// Falls back to 127.0.0.1:23234.
    pub server_addr: String,
    /// Has no fallback.
    pub agent_id: Option<String>,
}

/// The resolved server address: the explicit address where one was given, else
/// the given or default host joined with the given or default port.
pub open spec fn resolved_addr(
    server_addr: Option<Seq<char>>,
    server_ip: Option<Seq<char>>,
    server_port: Option<Seq<char>>,
) -> Seq<char> {
    match server_addr {
        Some(a) => a,
        None => (match server_ip {
            Some(i) => i,
            None => "127.0.0.1"@,
        }) + ":"@ + (match server_port {
            Some(p) => p,
            None => "23234"@,
        }),
    }
}

impl AgentEnvironment {
    /// Resolves the configuration from optional sources: an explicit address
    /// wins; otherwise host and port are joined, each falling back to its
    /// default. An empty agent identifier counts as absent.
    pub fn resolve(
        server_addr: Option<String>,
        server_ip: Option<String>,
        server_port: Option<String>,
        agent_id: Option<String>,
    ) -> (r: Self)
        ensures
            r.server_addr@ == resolved_addr(
                match server_addr {
                    Some(a) => Some(a@),
                    None => None,
                },
                match server_ip {
                    Some(i) => Some(i@),
                    None => None,
                },
                match server_port {
                    Some(p) => Some(p@),
                    None => None,
                },
            ),
            match agent_id {
                Some(a) => {
                    if a@.len() > 0 {
                        &&& r.agent_id matches Some(x)
                        &&& x@ == a@
                    } else {
                        r.agent_id is None
                    }
                },
                None => r.agent_id is None,
            },
    {
        let addr = match server_addr {
            Some(a) => a,
            None => {
                let mut joined = match server_ip {
                    Some(i) => i,
                    None => "127.0.0.1".to_owned(),
                };
                let port = match server_port {
                    Some(p) => p,
                    None => "23234".to_owned(),
                };
                joined.append(":");
                joined.append(port.as_str());
                joined
            },
        };
        let agent = match agent_id {
            Some(a) => {
                if a.as_str().is_empty() {
                    None
                } else {
                    Some(a)
                }
            },
            None => None,
        };
        AgentEnvironment { server_addr: addr, agent_id: agent }
    }
}

} // verus!
