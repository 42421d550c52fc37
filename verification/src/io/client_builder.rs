//! Builds a client from its configuration.
use crate::config::io::MqConnection;
use crate::config::protocols::{Protocol, Protocols};
use crate::io::client::{qos_level, Client, QoS};
use vstd::prelude::*;

verus! {

/// Why a client could not be built.
#[derive(Debug)]
pub enum ClientBuildError {
    /// The connection names a protocol that the protocol table does not hold.
    InvalidProtocol { protocol: String },
    /// The connection asks for a quality of service that does not exist.
    UnsupportedQualityOfService,
}

/// Where the first protocol named `name` stands among the first `n` of
/// `protocols`, or `n` where there is none.
pub open spec fn protocol_position(protocols: Seq<Protocol>, name: Seq<char>, n: int) -> int
    decreases n,
{
    if n <= 0 {
        0
    } else {
        let p = protocol_position(protocols, name, n - 1);
        if p < n - 1 {
            p
        } else if protocols[n - 1].name@ == name {
            n - 1
        } else {
            n
        }
    }
}

/// `protocol_position` is the least position that holds the name.
pub proof fn lemma_protocol_position(protocols: Seq<Protocol>, name: Seq<char>, n: int)
    requires
        0 <= n <= protocols.len(),
    ensures
        0 <= protocol_position(protocols, name, n) <= n,
        protocol_position(protocols, name, n) < n ==> protocols[protocol_position(
            protocols,
            name,
            n,
        )].name@ == name,
        forall|j: int|
            0 <= j < protocol_position(protocols, name, n) ==> (#[trigger] protocols[j]).name@
                != name,
    decreases n,
{
    if n > 0 {
        lemma_protocol_position(protocols, name, n - 1);
    }
}

/// Collects what a client is built from.
pub struct ClientBuilder<'a> {
    pub io_config: &'a MqConnection,
    pub protocols_config: &'a Protocols,
    pub team_id: i32,
}

impl<'a> ClientBuilder<'a> {
    /// A builder for the connection `io_config` of team `team_id`, with the
    /// protocol table `protocols_config`.
    pub fn new(io_config: &'a MqConnection, protocols_config: &'a Protocols, team_id: i32) -> (builder:
        Self)
        ensures
            builder.io_config == io_config,
            builder.protocols_config == protocols_config,
            builder.team_id == team_id,
    {
        Self { io_config, protocols_config, team_id }
    }

    /// Where the protocol of the connection stands in the protocol table, or
    /// the length of the table.
    pub open spec fn protocol_index(self) -> int {
        protocol_position(
            self.protocols_config.protocols@,
            self.io_config.protocol@,
            self.protocols_config.protocols@.len() as int,
        )
    }

    /// The client of the connection: on the port of the first protocol that
    /// has the connection's protocol name, with the quality of service whose
    /// level is the low byte of the configured number. The port is the low 16
    /// bits of the configured port.
    pub fn finalize(&self) -> (client: Result<Client, ClientBuildError>)
        ensures
            match client {
                Ok(c) => self.protocol_index() < self.protocols_config.protocols@.len()
                    && c.client_id@ == self.io_config.client_id@ && c.host@
                    == self.io_config.host@ && c.port
                    == self.protocols_config.protocols@[self.protocol_index()].port as u16
                    && Some(c.qos) == qos_level(self.io_config.qos as u8) && c.team_id
                    == self.team_id && c.last_will.is_none() && !c.started,
                Err(ClientBuildError::InvalidProtocol { protocol }) => self.protocol_index()
                    == self.protocols_config.protocols@.len() && protocol@
                    == self.io_config.protocol@,
                Err(ClientBuildError::UnsupportedQualityOfService) => self.protocol_index()
                    < self.protocols_config.protocols@.len() && qos_level(
                    self.io_config.qos as u8,
                ).is_none(),
            },
    {
        let protocol = match self.find_protocol() {
            Ok(protocol) => protocol,
            Err(e) => {
                return Err(e);
            },
        };
        let level: u8 = #[verifier::truncate]
        (self.io_config.qos as u8);
        let qos = match QoS::from_u8(level) {
            Some(qos) => qos,
            None => {
                return Err(ClientBuildError::UnsupportedQualityOfService);
            },
        };
        let port: u16 = #[verifier::truncate]
        (protocol.port as u16);
        Ok(
            Client::new(
                self.io_config.client_id.clone(),
                self.io_config.host.clone(),
                port,
                qos,
                self.team_id,
            ),
        )
    }

    /// The first protocol of the table that has the connection's protocol
    /// name; an error that carries the name where there is none.
    pub fn find_protocol(&self) -> (found: Result<&Protocol, ClientBuildError>)
        ensures
            0 <= self.protocol_index() <= self.protocols_config.protocols@.len(),
            match found {
                Ok(p) => self.protocol_index() < self.protocols_config.protocols@.len() && *p
                    == self.protocols_config.protocols@[self.protocol_index()],
                Err(ClientBuildError::InvalidProtocol { protocol }) => self.protocol_index()
                    == self.protocols_config.protocols@.len() && protocol@
                    == self.io_config.protocol@,
                Err(ClientBuildError::UnsupportedQualityOfService) => false,
            },
    {
        let protocols = &self.protocols_config.protocols;
        let mut i: usize = 0;
        while i < protocols.len()
            invariant
                i <= protocols.len(),
                protocols == &self.protocols_config.protocols,
                protocol_position(protocols@, self.io_config.protocol@, i as int) == i,
            decreases protocols.len() - i,
        {
            if protocols[i].name == self.io_config.protocol {
                proof {
                    lemma_protocol_found(
                        protocols@,
                        self.io_config.protocol@,
                        i as int,
                        protocols@.len() as int,
                    );
                }
                return Ok(&protocols[i]);
            }
            i += 1;
        }
        Err(ClientBuildError::InvalidProtocol { protocol: self.io_config.protocol.clone() })
    }
}

/// Once the name is found at `i`, taking more of the table changes nothing.
pub proof fn lemma_protocol_found(protocols: Seq<Protocol>, name: Seq<char>, i: int, n: int)
    requires
        0 <= i < n <= protocols.len(),
        protocol_position(protocols, name, i) == i,
        protocols[i].name@ == name,
    ensures
        protocol_position(protocols, name, n) == i,
    decreases n - i,
{
    if n > i + 1 {
        lemma_protocol_found(protocols, name, i, n - 1);
    }
}

} // verus!
