use crate::endpoint::Endpoint;
use crate::proxy::{proxy_header, proxy_line, SocketAddress};
use crate::sniff::{Registry, SniffOutcome, SniffSession, round_outcome, survivors};
use vstd::prelude::*;

verus! {

/// Why a connection is closed without contacting any upstream.
#[derive(PartialEq, Eq, Structural, Debug, Clone, Copy)]
pub enum CloseReason {
    /// Every route rejected the client's bytes.
    Rejected,
    /// The sniff buffer filled up before any route decided.
    Abandoned,
    /// The client ended its stream before a decision.
    StreamClosed,
}

/// What the task serving a connection does next.
#[derive(PartialEq, Eq, Structural, Debug, Clone, Copy)]
pub enum Action {
    /// Read at most this many more bytes from the client.
    ReadMore(usize),
    /// Relay the connection to the upstream of the route at this index.
    Relay(usize),
    /// Close the connection.
    Close(CloseReason),
}

/// The action that follows a round with outcome `o`, given the free space left.
pub open spec fn action_for(o: SniffOutcome, free: nat) -> Action {
    match o {
        SniffOutcome::Pending => Action::ReadMore(free as usize),
        SniffOutcome::Matched(i) => Action::Relay(i),
        SniffOutcome::Rejected => Action::Close(CloseReason::Rejected),
        SniffOutcome::Abandoned => Action::Close(CloseReason::Abandoned),
    }
}

/// Takes the bytes of one read from the client and decides what comes next.
/// An empty read, before the session has resolved, is an abnormal end of the
/// stream: the session is left as it was and the connection is closed.
pub fn on_read(session: &mut SniffSession, registry: &Registry, chunk: &[u8]) -> (r: Action)
    requires
        old(session).wf(),
        old(session).is_open(),
        old(session).spec_candidates().len() == registry.routes@.len(),
        old(session).buffered().len() + chunk@.len() <= old(session).spec_capacity(),
    ensures
        chunk@.len() == 0 ==> r == Action::Close(CloseReason::StreamClosed) && *final(session)
            == *old(session),
        chunk@.len() > 0 ==> {
            &&& final(session).wf()
            &&& final(session).buffered() == old(session).buffered() + chunk@
            &&& final(session).spec_capacity() == old(session).spec_capacity()
            &&& final(session).spec_outcome() == round_outcome(
                registry.identifiers(),
                old(session).spec_candidates(),
                final(session).buffered(),
                final(session).spec_capacity(),
            )
            &&& r == action_for(
                final(session).spec_outcome(),
                (final(session).spec_capacity() - final(session).buffered().len()) as nat,
            )
            &&& r is ReadMore ==> final(session).spec_candidates() == survivors(
                registry.identifiers(),
                old(session).spec_candidates(),
                final(session).buffered(),
            )
        },
{
    if chunk.len() == 0 {
        return Action::Close(CloseReason::StreamClosed);
    }
    let o = session.feed(registry, chunk);
    match o {
        SniffOutcome::Pending => Action::ReadMore(session.free_space()),
        SniffOutcome::Matched(i) => Action::Relay(i),
        SniffOutcome::Rejected => Action::Close(CloseReason::Rejected),
        SniffOutcome::Abandoned => Action::Close(CloseReason::Abandoned),
    }
}

/// The bytes an upstream receives before anything relayed live: the PROXY
/// line when the client's address is passed on, then the handoff.
pub open spec fn preamble(
    proxy_protocol: bool,
    client: SocketAddress,
    bound: SocketAddress,
    handoff: Seq<u8>,
) -> Seq<u8> {
    if proxy_protocol {
        proxy_line(client, bound) + handoff
    } else {
        handoff
    }
}

/// What an upstream receives first ends with exactly the bytes read while
/// sniffing, in order and once, and before them stands the PROXY line or
/// nothing; the relay writes live bytes only after all of it.
pub proof fn lemma_handoff_arrives_whole(
    proxy_protocol: bool,
    client: SocketAddress,
    bound: SocketAddress,
    handoff: Seq<u8>,
)
    ensures
        ({
            let p = preamble(proxy_protocol, client, bound, handoff);
            let head = if proxy_protocol {
                proxy_line(client, bound)
            } else {
                Seq::<u8>::empty()
            };
            &&& p.len() == head.len() + handoff.len()
            &&& p.take(head.len() as int) == head
            &&& p.skip(head.len() as int) == handoff
        }),
{
    let p = preamble(proxy_protocol, client, bound, handoff);
    if proxy_protocol {
        let head = proxy_line(client, bound);
        assert(p.take(head.len() as int) =~= head);
        assert(p.skip(head.len() as int) =~= handoff);
    } else {
        assert(p.take(0) =~= Seq::<u8>::empty());
        assert(p.skip(0) =~= handoff);
    }
}

/// The first bytes to write to an upstream: the PROXY line, when enabled, and
/// then every byte read from the client while sniffing, in order, once.
pub fn upstream_preamble(
    proxy_protocol: bool,
    client: SocketAddress,
    bound: SocketAddress,
    handoff: &[u8],
) -> (r: Vec<u8>)
    ensures
        r@ == preamble(proxy_protocol, client, bound, handoff@),
{
    let mut out: Vec<u8> = if proxy_protocol {
        proxy_header(client, bound)
    } else {
        Vec::new()
    };
    let ghost start = out@;
    let mut i: usize = 0;
    while i < handoff.len()
        invariant
            i <= handoff@.len(),
            out@ == start + handoff@.take(i as int),
        decreases handoff@.len() - i,
    {
        out.push(handoff[i]);
        i = i + 1;
        assert(out@ =~= start + handoff@.take(i as int));
    }
    assert(handoff@.take(handoff@.len() as int) =~= handoff@);
    out
}

/// Where a matched connection goes and what the upstream receives first.
#[derive(Debug, Clone)]
pub struct RelayPlan {
    pub upstream: Endpoint,
    pub preamble: Vec<u8>,
}

/// The plan for a connection matched to route `index`: that route's upstream,
/// and the session's buffered bytes behind a PROXY line if the route asks for one.
pub fn plan_relay(
    registry: &Registry,
    index: usize,
    session: &SniffSession,
    client: SocketAddress,
    bound: SocketAddress,
) -> (r: RelayPlan)
    requires
        index < registry.routes@.len(),
    ensures
        r.upstream == registry.routes@[index as int].upstream,
        r.preamble@ == preamble(
            registry.routes@[index as int].proxy_protocol,
            client,
            bound,
            session.buffered(),
        ),
{
    let route = &registry.routes[index];
    RelayPlan {
        upstream: route.upstream.clone(),
        preamble: upstream_preamble(route.proxy_protocol, client, bound, session.handoff()),
    }
}

} // verus!
