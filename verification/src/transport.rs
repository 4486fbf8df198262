//! Plain-value model of the wire: addresses, protocols, connection
//! handles, and a transport sink that records every outbound batch.
//!
//! Real sends happen outside the library; a caller drains the sink and
//! performs the I/O. Inside the library the sink is the single point of
//! truth for what was handed to the transport, which is what the
//! forwarder's contracts are stated against.

use vstd::prelude::*;

verus! {

/// Which wire protocol a connection speaks.
#[derive(Clone, Copy, PartialEq, Eq, Structural, Debug)]
pub enum Protocol {
    /// Encrypted stream transport.
    Quic,
    /// Plain datagram transport.
    Udp,
}

/// A destination network address as plain values. IPv4 addresses are
/// carried in the low bits of `ip` (as in an IPv4-mapped IPv6 address);
/// callers that own real sockets convert at the boundary.
#[derive(Clone, Copy, PartialEq, Eq, Structural, Debug)]
pub struct SocketAddress {
    pub ip: u128,
    pub port: u16,
}

/// The one transport-level error the relay path distinguishes: the
/// transport refused or failed an outbound batch.
#[derive(Clone, Copy, PartialEq, Eq, Structural, Debug)]
pub enum TransportError {
    SendFailed,
}

/// A shared, reusable handle into one destination's connection pool.
/// `id` tags the underlying connection so that reuse is observable.
#[derive(Clone, Copy, PartialEq, Eq, Structural, Debug)]
pub struct Connection {
    pub addr: SocketAddress,
    pub protocol: Protocol,
    pub id: u64,
}

/// One outbound operation as recorded by the transport sink: every
/// payload of `payloads` was handed to the transport in this order,
/// bound for `addr`. `connection_id` is `None` for sends that bypass
/// the pool (the direct datagram path used for votes).
pub struct Transmission {
    pub addr: SocketAddress,
    pub protocol: Protocol,
    pub connection_id: Option<u64>,
    pub payloads: Vec<Vec<u8>>,
}

/// Mathematical model of one recorded transmission.
pub struct TransmissionModel {
    pub addr: SocketAddress,
    pub protocol: Protocol,
    pub connection_id: Option<u64>,
    pub payloads: Seq<Seq<u8>>,
}

/// The views of a sequence of byte buffers.
pub open spec fn payload_models(payloads: Seq<Vec<u8>>) -> Seq<Seq<u8>> {
    payloads.map_values(|p: Vec<u8>| p@)
}

impl View for Transmission {
    type V = TransmissionModel;

    open spec fn view(&self) -> TransmissionModel {
        TransmissionModel {
            addr: self.addr,
            protocol: self.protocol,
            connection_id: self.connection_id,
            payloads: payload_models(self.payloads@),
        }
    }
}

/// The boundary between the verified relay logic and the real network.
/// It records, in order, every batch the relay decided to put on the
/// wire. `failing` models a transport that rejects every send, which is
/// how per-batch failure accounting is exercised deterministically.
pub struct TransportSink {
    pub sent: Vec<Transmission>,
    pub failing: bool,
}

impl TransportSink {
    /// Everything recorded so far, in send order.
    pub open spec fn log(&self) -> Seq<TransmissionModel> {
        self.sent@.map_values(|t: Transmission| t@)
    }

    /// A sink whose sends all succeed.
    pub fn new() -> (sink: Self)
        ensures
            sink.log() == Seq::<TransmissionModel>::empty(),
            !sink.failing,
    {
        let sink = TransportSink { sent: Vec::new(), failing: false };
        proof {
            assert(sink.log() =~= Seq::<TransmissionModel>::empty());
        }
        sink
    }

    /// A sink whose sends all fail, standing for a transport that
    /// cannot reach any destination.
    pub fn unreliable() -> (sink: Self)
        ensures
            sink.log() == Seq::<TransmissionModel>::empty(),
            sink.failing,
    {
        let sink = TransportSink { sent: Vec::new(), failing: true };
        proof {
            assert(sink.log() =~= Seq::<TransmissionModel>::empty());
        }
        sink
    }

    /// Send a batch of payloads directly over the datagram transport,
    /// bypassing any pooled connection (the vote path).
    pub fn send_batch_direct(
        &mut self,
        addr: SocketAddress,
        payloads: Vec<Vec<u8>>,
    ) -> (r: Result<(), TransportError>)
        ensures
            old(self).failing ==> r == Result::<(), TransportError>::Err(
                TransportError::SendFailed,
            ) && *final(self) == *old(self),
            !old(self).failing ==> r == Result::<(), TransportError>::Ok(())
                && final(self).failing == old(self).failing
                && final(self).log() == old(self).log().push(
                    (TransmissionModel {
                        addr,
                        protocol: Protocol::Udp,
                        connection_id: None,
                        payloads: payload_models(payloads@),
                    }),
                ),
    {
        if self.failing {
            return Err(TransportError::SendFailed);
        }
        let t = Transmission {
            addr,
            protocol: Protocol::Udp,
            connection_id: None,
            payloads,
        };
        let ghost prior = self.log();
        self.sent.push(t);
        proof {
            assert(self.log() =~= prior.push(
                (TransmissionModel {
                    addr,
                    protocol: Protocol::Udp,
                    connection_id: None,
                    payloads: payload_models(payloads@),
                }),
            ));
        }
        Ok(())
    }
}

impl Connection {
    /// The destination this handle is bound to.
    pub fn server_addr(&self) -> (addr: SocketAddress)
        ensures
            addr == self.addr,
    {
        self.addr
    }

    /// Blocking-style send of one buffer over this connection.
    pub fn send_data(
        &self,
        sink: &mut TransportSink,
        data: Vec<u8>,
    ) -> (r: Result<(), TransportError>)
        ensures
            old(sink).failing ==> r == Result::<(), TransportError>::Err(
                TransportError::SendFailed,
            ) && *final(sink) == *old(sink),
            !old(sink).failing ==> r == Result::<(), TransportError>::Ok(())
                && final(sink).failing == old(sink).failing
                && final(sink).log() == old(sink).log().push(
                    (TransmissionModel {
                        addr: self.addr,
                        protocol: self.protocol,
                        connection_id: Some(self.id),
                        payloads: seq![data@],
                    }),
                ),
    {
        let mut payloads: Vec<Vec<u8>> = Vec::new();
        payloads.push(data);
        proof {
            assert(payload_models(payloads@) =~= seq![payloads@[0]@]);
        }
        self.send_data_batch_async(sink, payloads)
    }

    /// Non-blocking send of a batch of buffers over this connection:
    /// the transport takes ownership and the call never waits on the
    /// wire.
    pub fn send_data_batch_async(
        &self,
        sink: &mut TransportSink,
        payloads: Vec<Vec<u8>>,
    ) -> (r: Result<(), TransportError>)
        ensures
            old(sink).failing ==> r == Result::<(), TransportError>::Err(
                TransportError::SendFailed,
            ) && *final(sink) == *old(sink),
            !old(sink).failing ==> r == Result::<(), TransportError>::Ok(())
                && final(sink).failing == old(sink).failing
                && final(sink).log() == old(sink).log().push(
                    (TransmissionModel {
                        addr: self.addr,
                        protocol: self.protocol,
                        connection_id: Some(self.id),
                        payloads: payload_models(payloads@),
                    }),
                ),
    {
        if sink.failing {
            return Err(TransportError::SendFailed);
        }
        let t = Transmission {
            addr: self.addr,
            protocol: self.protocol,
            connection_id: Some(self.id),
            payloads,
        };
        let ghost prior = sink.log();
        let ghost model = t@;
        sink.sent.push(t);
        proof {
            assert(sink.log() =~= prior.push(model));
        }
        Ok(())
    }
}

} // verus!
