//! The connection facade: address hints, the failure rules of the
//! transport factory, the lifecycle state machine, and the ordering
//! of inbound streams.

use vstd::prelude::*;
use vstd::string::StringExecFns;
use crate::error::TunnelError;

verus! {

/// The source-address hint: an explicit socket address in text form,
/// or any IPv4 address with an ephemeral port.
pub enum SrcAddr {
    Explicit(String),
    Default,
}

/// The destination hint: an explicit socket address in text form, a
/// named region alias, or the default region.
pub enum DstAddr {
    Explicit(String),
    Region1,
    Region2,
    Default,
}

/// The host the source hint resolves through.
pub fn src_host(s: &SrcAddr) -> (r: String)
    ensures
        match s {
            SrcAddr::Explicit(a) => r@ == a@,
            SrcAddr::Default => r@ == "0.0.0.0:0"@,
        },
{
    match s {
        SrcAddr::Explicit(a) => a.clone(),
        SrcAddr::Default => String::from_str("0.0.0.0:0"),
    }
}

/// The host the destination hint resolves through. The region
/// aliases name fixed edge hostnames; the default is the second
/// region.
pub fn dst_host(d: &DstAddr) -> (r: String)
    ensures
        match d {
            DstAddr::Explicit(a) => r@ == a@,
            DstAddr::Region1 => r@ == "region1.argotunnel.com:7844"@,
            DstAddr::Region2 => r@ == "region2.argotunnel.com:7844"@,
            DstAddr::Default => r@ == "region2.argotunnel.com:7844"@,
        },
{
    match d {
        DstAddr::Explicit(a) => a.clone(),
        DstAddr::Region1 => String::from_str("region1.argotunnel.com:7844"),
        DstAddr::Region2 => String::from_str("region2.argotunnel.com:7844"),
        DstAddr::Default => String::from_str("region2.argotunnel.com:7844"),
    }
}

/// The server name presented during the TLS handshake. It is fixed;
/// it is never the destination hostname.
pub fn tls_server_name() -> (r: String)
    ensures
        r@ == "quic.cftunnel.com"@,
{
    String::from_str("quic.cftunnel.com")
}

/// The error when binding a source endpoint found no success: the
/// last socket error if any candidate was tried, else a resolution
/// failure.
pub fn bind_failure(last_error: Option<String>) -> (r: TunnelError)
    ensures
        match last_error {
            Option::Some(e) => r matches TunnelError::BindFailed { detail } && detail@ == e@,
            Option::None => r matches TunnelError::ResolutionFailed { detail } && detail@
                == "could not resolve src_addr to any address"@,
        },
{
    match last_error {
        Option::Some(e) => TunnelError::BindFailed { detail: e },
        Option::None => TunnelError::ResolutionFailed {
            detail: String::from_str("could not resolve src_addr to any address"),
        },
    }
}

/// The error when connecting to the destination found no success: the
/// last handshake or socket error if any candidate was tried, else a
/// resolution failure.
pub fn connect_failure(last_error: Option<String>) -> (r: TunnelError)
    ensures
        match last_error {
            Option::Some(e) => r matches TunnelError::ConnectFailed { detail } && detail@ == e@,
            Option::None => r matches TunnelError::ResolutionFailed { detail } && detail@
                == "could not resolve dst_addr to any address"@,
        },
{
    match last_error {
        Option::Some(e) => TunnelError::ConnectFailed { detail: e },
        Option::None => TunnelError::ResolutionFailed {
            detail: String::from_str("could not resolve dst_addr to any address"),
        },
    }
}

/// The states of one connection. `Registering` is transient inside
/// bring-up; `Ready` is the only state in which accepting is legal;
/// transport loss is terminal.
#[derive(Clone, Copy, Debug, PartialEq, Eq, Structural)]
pub enum ConnectionState {
    Unregistered,
    Registering,
    Ready,
    Closed,
}

/// The lifecycle of one connection, together with a count of the
/// registration calls it has sent.
pub struct ConnectionLifecycle {
    state: ConnectionState,
    registrations_sent: u64,
}

impl ConnectionLifecycle {
    pub closed spec fn state_spec(&self) -> ConnectionState {
        self.state
    }

    pub closed spec fn registrations(&self) -> u64 {
        self.registrations_sent
    }

    /// At most one registration is ever sent, none before bring-up
    /// starts, and exactly one once it has.
    pub open spec fn inv(&self) -> bool {
        &&& self.registrations() <= 1
        &&& (self.state_spec() == ConnectionState::Unregistered ==> self.registrations() == 0)
        &&& (self.state_spec() == ConnectionState::Registering ==> self.registrations() == 1)
        &&& (self.state_spec() == ConnectionState::Ready ==> self.registrations() == 1)
    }

    pub fn new() -> (r: ConnectionLifecycle)
        ensures
            r.inv(),
            r.state_spec() == ConnectionState::Unregistered,
            r.registrations() == 0,
    {
        ConnectionLifecycle { state: ConnectionState::Unregistered, registrations_sent: 0 }
    }

    pub fn state(&self) -> (r: ConnectionState)
        ensures
            r == self.state_spec(),
    {
        self.state
    }

    /// Send the one registration call.
    pub fn start_registration(&mut self)
        requires
            old(self).inv(),
            old(self).state_spec() == ConnectionState::Unregistered,
        ensures
            final(self).inv(),
            final(self).state_spec() == ConnectionState::Registering,
            final(self).registrations() == 1,
    {
        self.state = ConnectionState::Registering;
        self.registrations_sent = self.registrations_sent + 1;
    }

    /// The registration call returned connection details.
    pub fn registration_succeeded(&mut self)
        requires
            old(self).inv(),
            old(self).state_spec() == ConnectionState::Registering,
        ensures
            final(self).inv(),
            final(self).state_spec() == ConnectionState::Ready,
            final(self).registrations() == old(self).registrations(),
    {
        self.state = ConnectionState::Ready;
    }

    /// The registration call failed; the connection is unusable.
    pub fn registration_failed(&mut self)
        requires
            old(self).inv(),
            old(self).state_spec() == ConnectionState::Registering,
        ensures
            final(self).inv(),
            final(self).state_spec() == ConnectionState::Closed,
            final(self).registrations() == old(self).registrations(),
    {
        self.state = ConnectionState::Closed;
    }

    /// The transport was lost; the next accept surfaces the error.
    pub fn transport_lost(&mut self)
        requires
            old(self).inv(),
            old(self).state_spec() == ConnectionState::Ready,
        ensures
            final(self).inv(),
            final(self).state_spec() == ConnectionState::Closed,
            final(self).registrations() == old(self).registrations(),
    {
        self.state = ConnectionState::Closed;
    }

    /// Accepting is legal exactly in the ready state.
    pub fn accept_permitted(&self) -> (r: bool)
        ensures
            r == (self.state_spec() == ConnectionState::Ready),
    {
        match self.state {
            ConnectionState::Ready => true,
            _ => false,
        }
    }
}

/// A connection that reached the ready state sent exactly one
/// registration call.
pub proof fn lemma_single_registration(c: ConnectionLifecycle)
    requires
        c.inv(),
        c.state_spec() == ConnectionState::Ready,
    ensures
        c.registrations() == 1,
{
}

/// The inbound stream queue: streams are delivered to `accept` in
/// exactly the order the transport surfaced them.
pub struct InboundQueue {
    pending: Vec<u64>,
    arrived: Ghost<Seq<u64>>,
    delivered: Ghost<Seq<u64>>,
}

impl InboundQueue {
    pub closed spec fn pending_spec(&self) -> Seq<u64> {
        self.pending@
    }

    pub closed spec fn arrived_spec(&self) -> Seq<u64> {
        self.arrived@
    }

    pub closed spec fn delivered_spec(&self) -> Seq<u64> {
        self.delivered@
    }

    /// Every stream that arrived is either already delivered or still
    /// pending, in order.
    pub open spec fn inv(&self) -> bool {
        self.arrived_spec() == self.delivered_spec() + self.pending_spec()
    }

    pub fn new() -> (r: InboundQueue)
        ensures
            r.inv(),
            r.arrived_spec() == Seq::<u64>::empty(),
            r.delivered_spec() == Seq::<u64>::empty(),
    {
        let r = InboundQueue {
            pending: Vec::new(),
            arrived: Ghost(Seq::empty()),
            delivered: Ghost(Seq::empty()),
        };
        proof {
            assert(r.arrived_spec() =~= r.delivered_spec() + r.pending_spec());
        }
        r
    }

    /// The transport surfaced one more inbound stream.
    pub fn stream_arrived(&mut self, id: u64)
        requires
            old(self).inv(),
        ensures
            final(self).inv(),
            final(self).arrived_spec() == old(self).arrived_spec().push(id),
            final(self).delivered_spec() == old(self).delivered_spec(),
    {
        self.pending.push(id);
        proof {
            self.arrived@ = self.arrived@.push(id);
            assert(self.arrived_spec() =~= self.delivered_spec() + self.pending_spec());
        }
    }

    /// Deliver the next stream: always the front of the queue, never
    /// a later one.
    pub fn accept_next(&mut self) -> (r: Option<u64>)
        requires
            old(self).inv(),
        ensures
            final(self).inv(),
            final(self).arrived_spec() == old(self).arrived_spec(),
            match r {
                Option::Some(id) => old(self).pending_spec().len() > 0 && id == old(
                    self,
                ).pending_spec()[0] && final(self).delivered_spec() == old(
                    self,
                ).delivered_spec().push(id),
                Option::None => old(self).pending_spec().len() == 0 && final(self).delivered_spec()
                    == old(self).delivered_spec(),
            },
    {
        if self.pending.len() == 0 {
            return Option::None;
        }
        let id = self.pending.remove(0);
        proof {
            self.delivered@ = self.delivered@.push(id);
            assert(self.arrived_spec() =~= self.delivered_spec() + self.pending_spec());
        }
        Option::Some(id)
    }
}

/// What was delivered is always exactly the first part of what
/// arrived: acceptance preserves the transport's order.
pub proof fn lemma_delivery_order(q: InboundQueue)
    requires
        q.inv(),
    ensures
        q.delivered_spec() == q.arrived_spec().take(q.delivered_spec().len() as int),
{
    assert(q.delivered_spec() =~= q.arrived_spec().take(q.delivered_spec().len() as int));
}

} // verus!
