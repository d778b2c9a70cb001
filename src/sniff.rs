use crate::endpoint::Endpoint;
use crate::identifier::{Identifier, IdentifyResult, TrafficIdentifier};
use crate::strings::lemma_short_agreeing_prefix_waits;
use vstd::prelude::*;

verus! {

/// One protocol this system routes: its name, how it is recognised, where its
/// traffic goes, and whether that upstream is told the client's address.
#[derive(Debug, Clone)]
pub struct Route {
    pub name: String,
    pub identifier: Identifier,
    pub upstream: Endpoint,
    pub proxy_protocol: bool,
}

/// The ordered routes; earlier routes win ties.
#[derive(Debug, Clone)]
pub struct Registry {
    pub routes: Vec<Route>,
}

impl Registry {
    /// The identifiers, in registration order.
    pub open spec fn identifiers(&self) -> Seq<Identifier> {
        self.routes@.map_values(|r: Route| r.identifier)
    }

    /// A registry without routes.
    pub fn new() -> (r: Registry)
        ensures
            r.routes@.len() == 0,
    {
        Registry { routes: Vec::new() }
    }

    /// Registers `route` after every route already there.
    pub fn add(&mut self, route: Route)
        ensures
            final(self).routes@ == old(self).routes@.push(route),
    {
        self.routes.push(route);
    }

    /// The number of routes.
    pub fn len(&self) -> (r: usize)
        ensures
            r == self.routes@.len(),
    {
        self.routes.len()
    }
}

/// The routes of a listener that tells SSH from TLS: SSH first, then TLS; on a
/// listener with `proxy_protocol` set, both upstreams are sent the client's
/// address.
pub fn sniffing_registry(ssh: Endpoint, tls: Endpoint, proxy_protocol: bool) -> (r: Registry)
    ensures
        r.routes@.len() == 2,
        r.routes@[0].identifier is Prefix,
        r.routes@[0].identifier->Prefix_0@ == crate::ssh::ssh_signature(),
        r.routes@[0].upstream == ssh,
        r.routes@[0].proxy_protocol == proxy_protocol,
        r.routes@[0].name@ == "ssh"@,
        r.routes@[1].name@ == "tls"@,
        r.routes@[1].identifier is TlsHandshake,
        r.routes@[1].upstream == tls,
        r.routes@[1].proxy_protocol == proxy_protocol,
{
    let mut r = Registry::new();
    r.add(
        Route {
            name: "ssh".to_owned(),
            identifier: crate::ssh::ssh_identifier(),
            upstream: ssh,
            proxy_protocol,
        },
    );
    r.add(
        Route {
            name: "tls".to_owned(),
            identifier: Identifier::TlsHandshake,
            upstream: tls,
            proxy_protocol,
        },
    );
    r
}

/// Where a sniff session stands after a round of identification.
#[derive(PartialEq, Eq, Structural, Debug, Clone, Copy)]
pub enum SniffOutcome {
    /// No decision yet: more bytes are needed.
    Pending,
    /// The route at this index recognised the stream.
    Matched(usize),
    /// Every route rejected the stream.
    Rejected,
    /// The buffer is full and no route has decided.
    Abandoned,
}

/// Route `i` is a candidate that accepts `data`, and no earlier candidate does.
pub open spec fn is_winner(ids: Seq<Identifier>, cands: Seq<bool>, data: Seq<u8>, i: int) -> bool {
    &&& 0 <= i < ids.len()
    &&& i < cands.len()
    &&& cands[i]
    &&& ids[i].spec_verdict(data) == IdentifyResult::Positive
    &&& forall|j: int|
        0 <= j < i && cands[j] ==> ids[j].spec_verdict(data) != IdentifyResult::Positive
}

/// Some candidate accepts `data`.
pub open spec fn has_winner(ids: Seq<Identifier>, cands: Seq<bool>, data: Seq<u8>) -> bool {
    exists|i: int| is_winner(ids, cands, data, i)
}

/// The candidates that remain after a round on `data`: those that did not reject it.
pub open spec fn survivors(ids: Seq<Identifier>, cands: Seq<bool>, data: Seq<u8>) -> Seq<bool> {
    Seq::new(
        cands.len(),
        |i: int| cands[i] && ids[i].spec_verdict(data) != IdentifyResult::Negative,
    )
}

/// No candidate is left.
pub open spec fn none_left(cands: Seq<bool>) -> bool {
    forall|i: int| 0 <= i < cands.len() ==> !cands[i]
}

/// The outcome of a round on `data`, with the candidates the round started with.
pub open spec fn round_outcome(
    ids: Seq<Identifier>,
    cands: Seq<bool>,
    data: Seq<u8>,
    capacity: nat,
) -> SniffOutcome {
    if has_winner(ids, cands, data) {
        SniffOutcome::Matched(
            (choose|i: int| is_winner(ids, cands, data, i)) as usize,
        )
    } else if none_left(survivors(ids, cands, data)) {
        SniffOutcome::Rejected
    } else if data.len() >= capacity {
        SniffOutcome::Abandoned
    } else {
        SniffOutcome::Pending
    }
}

/// At most one route is the winner of a round.
pub proof fn lemma_winner_unique(
    ids: Seq<Identifier>,
    cands: Seq<bool>,
    data: Seq<u8>,
    i: int,
    j: int,
)
    requires
        is_winner(ids, cands, data, i),
        is_winner(ids, cands, data, j),
    ensures
        i == j,
{
}

/// In a round where some candidate accepts the buffer, the session resolves to
/// a match, and the winner accepts too and is registered no later than it.
/// The session ends at the first round in which any candidate accepts, so among
/// routes that eventually accept, the one that accepts at the shorter buffer
/// wins; when two accept at the same length, the one registered first wins.
pub proof fn lemma_first_acceptor_wins(
    ids: Seq<Identifier>,
    cands: Seq<bool>,
    data: Seq<u8>,
    capacity: nat,
    j: int,
)
    requires
        0 <= j < ids.len() <= usize::MAX,
        cands.len() == ids.len(),
        cands[j],
        ids[j].spec_verdict(data) == IdentifyResult::Positive,
    ensures
        round_outcome(ids, cands, data, capacity) is Matched,
        round_outcome(ids, cands, data, capacity)->Matched_0 <= j,
        is_winner(ids, cands, data, round_outcome(ids, cands, data, capacity)->Matched_0 as int),
    decreases j,
{
    if exists|k: int| 0 <= k < j && cands[k] && ids[k].spec_verdict(data) == IdentifyResult::Positive {
        let k = choose|k: int|
            0 <= k < j && cands[k] && ids[k].spec_verdict(data) == IdentifyResult::Positive;
        lemma_first_acceptor_wins(ids, cands, data, capacity, k);
    } else {
        assert(is_winner(ids, cands, data, j));
        let w = choose|w: int| is_winner(ids, cands, data, w);
        lemma_winner_unique(ids, cands, data, j, w);
    }
}

/// When two candidates accept the same buffer, the one registered later does
/// not win.
pub proof fn lemma_tie_goes_to_earlier(
    ids: Seq<Identifier>,
    cands: Seq<bool>,
    data: Seq<u8>,
    capacity: nat,
    i: int,
    j: int,
)
    requires
        0 <= i < j < ids.len() <= usize::MAX,
        cands.len() == ids.len(),
        cands[i],
        cands[j],
        ids[i].spec_verdict(data) == IdentifyResult::Positive,
        ids[j].spec_verdict(data) == IdentifyResult::Positive,
    ensures
        round_outcome(ids, cands, data, capacity) is Matched,
        round_outcome(ids, cands, data, capacity)->Matched_0 <= i,
{
    lemma_first_acceptor_wins(ids, cands, data, capacity, i);
}

/// A buffer that is a proper prefix of the signature of a candidate prefix
/// matcher never gets the session rejected.
pub proof fn lemma_short_prefix_not_rejected(
    ids: Seq<Identifier>,
    cands: Seq<bool>,
    data: Seq<u8>,
    capacity: nat,
    j: int,
)
    requires
        0 <= j < ids.len(),
        cands.len() == ids.len(),
        cands[j],
        ids[j] is Prefix,
        data.len() < ids[j]->Prefix_0@.len(),
        data == ids[j]->Prefix_0@.subrange(0, data.len() as int),
    ensures
        round_outcome(ids, cands, data, capacity) != SniffOutcome::Rejected,
{
    lemma_short_agreeing_prefix_waits(data, ids[j]->Prefix_0@);
    assert(survivors(ids, cands, data)[j]);
}

/// The fewest bytes on which an identifier can decide anything but "more data".
pub open spec fn min_len(id: Identifier) -> nat {
    match id {
        Identifier::Prefix(sig) => sig@.len(),
        Identifier::TlsHandshake => crate::tls::RECORD_HEADER_LEN as nat,
    }
}

/// When the buffer is shorter than every candidate's minimum length, agrees
/// with the signature of one candidate prefix matcher, and is not full, the
/// session stays open for more bytes.
pub proof fn lemma_short_input_stays_pending(
    ids: Seq<Identifier>,
    cands: Seq<bool>,
    data: Seq<u8>,
    capacity: nat,
    j: int,
)
    requires
        0 <= j < ids.len(),
        cands.len() == ids.len(),
        forall|k: int| 0 <= k < ids.len() && cands[k] ==> data.len() < min_len(ids[k]),
        cands[j],
        ids[j] is Prefix,
        data == ids[j]->Prefix_0@.subrange(0, data.len() as int),
        data.len() < capacity,
    ensures
        round_outcome(ids, cands, data, capacity) == SniffOutcome::Pending,
{
    lemma_short_prefix_not_rejected(ids, cands, data, capacity, j);
    if has_winner(ids, cands, data) {
        let w = choose|w: int| is_winner(ids, cands, data, w);
        assert(ids[w].spec_verdict(data) == IdentifyResult::Positive);
        assert(data.len() < min_len(ids[w]));
    }
}

/// Where a session over the routes `ids`, starting with candidates `init`,
/// stands after the reads `chunks`: its candidates, its buffer and its outcome.
/// Reads after the session resolved change nothing.
pub open spec fn replay(
    ids: Seq<Identifier>,
    init: Seq<bool>,
    chunks: Seq<Seq<u8>>,
    capacity: nat,
) -> (Seq<bool>, Seq<u8>, SniffOutcome)
    decreases chunks.len(),
{
    if chunks.len() == 0 {
        (init, Seq::empty(), SniffOutcome::Pending)
    } else {
        let prev = replay(ids, init, chunks.drop_last(), capacity);
        if prev.2 is Pending {
            let data = prev.1 + chunks.last();
            (survivors(ids, prev.0, data), data, round_outcome(ids, prev.0, data, capacity))
        } else {
            prev
        }
    }
}

/// The bytes of the first `m` reads, in order.
pub open spec fn read_prefix(chunks: Seq<Seq<u8>>, m: int) -> Seq<u8> {
    chunks.take(m).flatten_alt()
}

/// One call of `feed` is one step of `replay`: a session that stands where
/// `replay` puts it after some reads, and is fed the next chunk, stands where
/// `replay` puts it after that chunk too.
pub proof fn lemma_feed_follows_replay(
    ids: Seq<Identifier>,
    init: Seq<bool>,
    chunks: Seq<Seq<u8>>,
    capacity: nat,
    next: Seq<u8>,
    data: Seq<u8>,
    cands: Seq<bool>,
    outcome: SniffOutcome,
)
    requires
        replay(ids, init, chunks, capacity).2 is Pending,
        data == replay(ids, init, chunks, capacity).1 + next,
        outcome == round_outcome(ids, replay(ids, init, chunks, capacity).0, data, capacity),
        outcome is Pending ==> cands == survivors(
            ids,
            replay(ids, init, chunks, capacity).0,
            data,
        ),
    ensures
        replay(ids, init, chunks.push(next), capacity).1 == data,
        replay(ids, init, chunks.push(next), capacity).2 == outcome,
        outcome is Pending ==> replay(ids, init, chunks.push(next), capacity).0 == cands,
{
    assert(chunks.push(next).drop_last() =~= chunks);
}

/// While a session is open, its buffer is every byte read, in order.
pub proof fn lemma_open_session_holds_all_reads(
    ids: Seq<Identifier>,
    init: Seq<bool>,
    chunks: Seq<Seq<u8>>,
    capacity: nat,
)
    requires
        replay(ids, init, chunks, capacity).2 is Pending,
    ensures
        replay(ids, init, chunks, capacity).1 == chunks.flatten_alt(),
    decreases chunks.len(),
{
    if chunks.len() > 0 {
        lemma_open_session_holds_all_reads(ids, init, chunks.drop_last(), capacity);
    }
}

/// When a session resolves on a read, its buffer, which is the handoff of a
/// match, is the concatenation of every read, in order, with no gap or repeat.
pub proof fn lemma_handoff_is_every_read(
    ids: Seq<Identifier>,
    init: Seq<bool>,
    chunks: Seq<Seq<u8>>,
    capacity: nat,
)
    requires
        chunks.len() > 0,
        replay(ids, init, chunks.drop_last(), capacity).2 is Pending,
    ensures
        replay(ids, init, chunks, capacity).1 == chunks.flatten_alt(),
{
    lemma_open_session_holds_all_reads(ids, init, chunks.drop_last(), capacity);
}

/// When every candidate rejects the first read, the session resolves to
/// `Rejected` on that read, and no route is matched.
pub proof fn lemma_all_reject_first_read(
    ids: Seq<Identifier>,
    init: Seq<bool>,
    first: Seq<u8>,
    capacity: nat,
)
    requires
        init.len() == ids.len(),
        forall|j: int|
            0 <= j < ids.len() && init[j] ==> #[trigger] ids[j].spec_verdict(first)
                == IdentifyResult::Negative,
    ensures
        replay(ids, init, seq![first], capacity).2 == SniffOutcome::Rejected,
        replay(ids, init, seq![first], capacity).1 == first,
{
    let chunks = seq![first];
    assert(chunks.drop_last() =~= Seq::<Seq<u8>>::empty());
    assert(chunks.last() == first);
    assert(replay(ids, init, chunks.drop_last(), capacity) == (
    init,
    Seq::<u8>::empty(),
    SniffOutcome::Pending,
    ));
    assert(Seq::<u8>::empty() + first =~= first);
    if has_winner(ids, init, first) {
        let w = choose|w: int| is_winner(ids, init, first, w);
        assert(ids[w].spec_verdict(first) == IdentifyResult::Negative);
    }
    assert(none_left(survivors(ids, init, first)));
}

/// Through the first `m` reads route `a` asks for more data and no candidate
/// accepts, with the buffer not full: the session is still open, `a` is still a
/// candidate, and no route has come back.
proof fn lemma_open_through(
    ids: Seq<Identifier>,
    init: Seq<bool>,
    chunks: Seq<Seq<u8>>,
    capacity: nat,
    a: int,
    m: int,
)
    requires
        0 <= m <= chunks.len(),
        init.len() == ids.len(),
        0 <= a < ids.len(),
        init[a],
        forall|r: int|
            1 <= r <= m ==> ids[a].spec_verdict(#[trigger] read_prefix(chunks, r))
                == IdentifyResult::NeedMoreData,
        forall|r: int, j: int|
            1 <= r <= m && 0 <= j < ids.len() && init[j] ==> #[trigger] ids[j].spec_verdict(
                read_prefix(chunks, r),
            ) != IdentifyResult::Positive,
        forall|r: int| 1 <= r <= m ==> (#[trigger] read_prefix(chunks, r)).len() < capacity,
    ensures
        replay(ids, init, chunks.take(m), capacity).2 == SniffOutcome::Pending,
        replay(ids, init, chunks.take(m), capacity).1 == read_prefix(chunks, m),
        replay(ids, init, chunks.take(m), capacity).0.len() == init.len(),
        replay(ids, init, chunks.take(m), capacity).0[a],
        forall|j: int|
            0 <= j < init.len() && #[trigger] replay(ids, init, chunks.take(m), capacity).0[j]
                ==> init[j],
    decreases m,
{
    if m > 0 {
        lemma_open_through(ids, init, chunks, capacity, a, m - 1);
        let xs = chunks.take(m);
        assert(xs.drop_last() =~= chunks.take(m - 1));
        let prev = replay(ids, init, chunks.take(m - 1), capacity);
        let data = prev.1 + xs.last();
        assert(data == read_prefix(chunks, m));
        assert(ids[a].spec_verdict(read_prefix(chunks, m)) == IdentifyResult::NeedMoreData);
        assert(read_prefix(chunks, m).len() < capacity);
        if has_winner(ids, prev.0, data) {
            let w = choose|w: int| is_winner(ids, prev.0, data, w);
            assert(ids[w].spec_verdict(read_prefix(chunks, m)) != IdentifyResult::Positive);
        }
        assert(survivors(ids, prev.0, data)[a]);
    } else {
        assert(chunks.take(0) =~= Seq::<Seq<u8>>::empty());
    }
}

/// Over a whole series of reads, the route that accepts first wins: if route
/// `a` asks for more data on every read before the last, no candidate accepts
/// before the last read, the buffer was not full before it, and `a` accepts
/// the bytes of all reads, then the session resolves on the last read to a
/// route that accepts those bytes and is registered no later than `a`.
pub proof fn lemma_earliest_acceptor_wins_over_reads(
    ids: Seq<Identifier>,
    init: Seq<bool>,
    chunks: Seq<Seq<u8>>,
    capacity: nat,
    a: int,
)
    requires
        chunks.len() > 0,
        init.len() == ids.len(),
        ids.len() <= usize::MAX,
        0 <= a < ids.len(),
        init[a],
        forall|r: int|
            1 <= r < chunks.len() ==> ids[a].spec_verdict(#[trigger] read_prefix(chunks, r))
                == IdentifyResult::NeedMoreData,
        forall|r: int, j: int|
            1 <= r < chunks.len() && 0 <= j < ids.len() && init[j] ==> #[trigger] ids[j].spec_verdict(
                read_prefix(chunks, r),
            ) != IdentifyResult::Positive,
        forall|r: int|
            1 <= r < chunks.len() ==> (#[trigger] read_prefix(chunks, r)).len() < capacity,
        ids[a].spec_verdict(chunks.flatten_alt()) == IdentifyResult::Positive,
    ensures
        replay(ids, init, chunks.drop_last(), capacity).2 is Pending,
        replay(ids, init, chunks, capacity).2 is Matched,
        replay(ids, init, chunks, capacity).2->Matched_0 <= a,
        ids[replay(ids, init, chunks, capacity).2->Matched_0 as int].spec_verdict(
            chunks.flatten_alt(),
        ) == IdentifyResult::Positive,
        replay(ids, init, chunks, capacity).1 == chunks.flatten_alt(),
{
    let k = chunks.len() - 1;
    lemma_open_through(ids, init, chunks, capacity, a, k);
    assert(chunks.take(k) =~= chunks.drop_last());
    lemma_handoff_is_every_read(ids, init, chunks, capacity);
    let prev = replay(ids, init, chunks.drop_last(), capacity);
    lemma_first_acceptor_wins(ids, prev.0, chunks.flatten_alt(), capacity, a);
}

/// Over a whole series of reads, a buffer that fills up without a decision is
/// abandoned: if route `a` asks for more data on every read, no candidate
/// accepts on any read, and the buffer was not full before the last read but
/// is after it, the session resolves to `Abandoned` on the last read.
pub proof fn lemma_full_buffer_abandons(
    ids: Seq<Identifier>,
    init: Seq<bool>,
    chunks: Seq<Seq<u8>>,
    capacity: nat,
    a: int,
)
    requires
        chunks.len() > 0,
        init.len() == ids.len(),
        0 <= a < ids.len(),
        init[a],
        forall|r: int|
            1 <= r <= chunks.len() ==> ids[a].spec_verdict(#[trigger] read_prefix(chunks, r))
                == IdentifyResult::NeedMoreData,
        forall|r: int, j: int|
            1 <= r <= chunks.len() && 0 <= j < ids.len() && init[j] ==> #[trigger] ids[j].spec_verdict(
                read_prefix(chunks, r),
            ) != IdentifyResult::Positive,
        forall|r: int|
            1 <= r < chunks.len() ==> (#[trigger] read_prefix(chunks, r)).len() < capacity,
        chunks.flatten_alt().len() >= capacity,
    ensures
        replay(ids, init, chunks.drop_last(), capacity).2 is Pending,
        replay(ids, init, chunks, capacity).2 == SniffOutcome::Abandoned,
{
    let k = chunks.len() - 1;
    lemma_open_through(ids, init, chunks, capacity, a, k);
    assert(chunks.take(k) =~= chunks.drop_last());
    assert(chunks.take(k + 1) =~= chunks);
    lemma_handoff_is_every_read(ids, init, chunks, capacity);
    let prev = replay(ids, init, chunks.drop_last(), capacity);
    let data = chunks.flatten_alt();
    assert(ids[a].spec_verdict(read_prefix(chunks, k + 1)) == IdentifyResult::NeedMoreData);
    if has_winner(ids, prev.0, data) {
        let w = choose|w: int| is_winner(ids, prev.0, data, w);
        assert(ids[w].spec_verdict(read_prefix(chunks, k + 1)) != IdentifyResult::Positive);
    }
    assert(survivors(ids, prev.0, data)[a]);
}

/// The bytes of one connection read so far, and the routes still in the running.
pub struct SniffSession {
    buf: Vec<u8>,
    capacity: usize,
    candidates: Vec<bool>,
    outcome: SniffOutcome,
}

impl SniffSession {
    /// The bytes buffered so far.
    pub closed spec fn buffered(&self) -> Seq<u8> {
        self.buf@
    }

    /// The most bytes the session buffers.
    pub closed spec fn spec_capacity(&self) -> nat {
        self.capacity as nat
    }

    /// Which routes are still candidates, by registration index.
    pub closed spec fn spec_candidates(&self) -> Seq<bool> {
        self.candidates@
    }

    /// The outcome of the last round (`Pending` before the first).
    pub closed spec fn spec_outcome(&self) -> SniffOutcome {
        self.outcome
    }

    /// The buffer stays within its capacity.
    pub open spec fn wf(&self) -> bool {
        &&& 0 < self.spec_capacity()
        &&& self.buffered().len() <= self.spec_capacity()
    }

    /// The session has not resolved and still takes bytes.
    pub open spec fn is_open(&self) -> bool {
        self.spec_outcome() == SniffOutcome::Pending
    }

    /// A session over `route_count` routes, all candidates, with an empty buffer
    /// of `capacity` bytes.
    pub fn new(route_count: usize, capacity: usize) -> (s: SniffSession)
        requires
            capacity > 0,
        ensures
            s.wf(),
            s.buffered() == Seq::<u8>::empty(),
            s.spec_capacity() == capacity,
            s.spec_candidates() == Seq::new(route_count as nat, |i: int| true),
            s.spec_outcome() == SniffOutcome::Pending,
    {
        let mut candidates: Vec<bool> = Vec::new();
        let mut i: usize = 0;
        while i < route_count
            invariant
                i <= route_count,
                candidates@ == Seq::new(i as nat, |k: int| true),
            decreases route_count - i,
        {
            candidates.push(true);
            i = i + 1;
            assert(candidates@ =~= Seq::new(i as nat, |k: int| true));
        }
        assert(candidates@ =~= Seq::new(route_count as nat, |k: int| true));
        SniffSession { buf: Vec::new(), capacity, candidates, outcome: SniffOutcome::Pending }
    }

    /// The bytes buffered so far; after a match, the bytes owed to the upstream
    /// before anything else.
    pub fn handoff(&self) -> (r: &[u8])
        ensures
            r@ == self.buffered(),
    {
        self.buf.as_slice()
    }

    /// How many more bytes the buffer takes.
    pub fn free_space(&self) -> (r: usize)
        requires
            self.wf(),
        ensures
            r == self.spec_capacity() - self.buffered().len(),
    {
        self.capacity - self.buf.len()
    }

    /// The outcome of the last round.
    pub fn outcome(&self) -> (r: SniffOutcome)
        ensures
            r == self.spec_outcome(),
    {
        self.outcome
    }

    /// Appends `chunk` and runs one round of identification over the whole
    /// buffer: the first candidate, in registration order, that accepts wins;
    /// candidates that reject are dropped for good.
    pub fn feed(&mut self, registry: &Registry, chunk: &[u8]) -> (r: SniffOutcome)
        requires
            old(self).wf(),
            old(self).is_open(),
            old(self).spec_candidates().len() == registry.routes@.len(),
            chunk@.len() > 0,
            old(self).buffered().len() + chunk@.len() <= old(self).spec_capacity(),
        ensures
            final(self).wf(),
            final(self).buffered() == old(self).buffered() + chunk@,
            final(self).spec_capacity() == old(self).spec_capacity(),
            r == round_outcome(
                registry.identifiers(),
                old(self).spec_candidates(),
                final(self).buffered(),
                final(self).spec_capacity(),
            ),
            final(self).spec_outcome() == r,
            r is Pending ==> final(self).spec_candidates() == survivors(
                registry.identifiers(),
                old(self).spec_candidates(),
                final(self).buffered(),
            ),
            final(self).spec_candidates().len() == old(self).spec_candidates().len(),
            forall|i: int|
                0 <= i < final(self).spec_candidates().len() && !old(self).spec_candidates()[i] ==> (
                #[trigger] final(self).spec_candidates()[i]) == false,
    {
        let ghost ids = registry.identifiers();
        let ghost cands0 = self.candidates@;
        let mut k: usize = 0;
        while k < chunk.len()
            invariant
                k <= chunk@.len(),
                self.buf@ == old(self).buf@ + chunk@.subrange(0, k as int),
                self.capacity == old(self).capacity,
                self.candidates@ == cands0,
                cands0 == old(self).candidates@,
                self.outcome == old(self).outcome,
                old(self).buf@.len() + chunk@.len() <= self.capacity,
            decreases chunk@.len() - k,
        {
            self.buf.push(chunk[k]);
            k = k + 1;
            assert(self.buf@ =~= old(self).buf@ + chunk@.subrange(0, k as int));
        }
        assert(chunk@.subrange(0, chunk@.len() as int) =~= chunk@);
        let ghost data = self.buf@;
        let n = self.candidates.len();
        let mut i: usize = 0;
        while i < n
            invariant
                n == cands0.len(),
                cands0 == old(self).candidates@,
                n == ids.len(),
                ids == registry.identifiers(),
                i <= n,
                self.buf@ == data,
                data == old(self).buf@ + chunk@,
                self.capacity == old(self).capacity,
                0 < self.capacity,
                self.buf@.len() <= self.capacity,
                self.outcome == old(self).outcome,
                self.candidates@.len() == n,
                forall|j: int| 0 <= j < i ==> self.candidates@[j] == survivors(ids, cands0, data)[j],
                forall|j: int| i <= j < n ==> self.candidates@[j] == cands0[j],
                forall|j: int|
                    0 <= j < i && cands0[j] ==> ids[j].spec_verdict(data) != IdentifyResult::Positive,
            decreases n - i,
        {
            if self.candidates[i] {
                let v = registry.routes[i].identifier.identify(self.buf.as_slice());
                assert(ids[i as int] == registry.routes@[i as int].identifier);
                match v {
                    IdentifyResult::Positive => {
                        assert(is_winner(ids, cands0, data, i as int));
                        proof {
                            let w = choose|w: int| is_winner(ids, cands0, data, w);
                            lemma_winner_unique(ids, cands0, data, i as int, w);
                            assert(has_winner(ids, cands0, data));
                            assert(round_outcome(ids, cands0, data, self.capacity as nat) == SniffOutcome::Matched(i));
                        }
                        self.outcome = SniffOutcome::Matched(i);
                        return SniffOutcome::Matched(i);
                    },
                    IdentifyResult::Negative => {
                        self.candidates.set(i, false);
                    },
                    IdentifyResult::NeedMoreData => {},
                }
            }
            i = i + 1;
        }
        assert(!has_winner(ids, cands0, data));
        assert(self.candidates@ =~= survivors(ids, cands0, data));
        let mut any: bool = false;
        let mut j: usize = 0;
        while j < n
            invariant
                j <= n,
                n == self.candidates@.len(),
                any == exists|m: int| 0 <= m < j && self.candidates@[m],
            decreases n - j,
        {
            if self.candidates[j] {
                any = true;
            }
            j = j + 1;
        }
        let r = if !any {
            SniffOutcome::Rejected
        } else if self.buf.len() >= self.capacity {
            SniffOutcome::Abandoned
        } else {
            SniffOutcome::Pending
        };
        self.outcome = r;
        r
    }
}

} // verus!
