use vstd::prelude::*;
use crate::msg::Buffer;

verus! {

/// How many bytes the server asks its socket for in one read.
pub const READ_CHUNK_SIZE: usize = 1024;

/// The server side of a peer: it accepts streams on its socket and turns
/// each finished stream into one [`Buffer`] for the processor.
#[derive(Debug, Clone, Copy)]
pub struct IpcServer {}

/// What the server does with the next connection its listener yields.
pub enum ServeStep<S> {
    /// Collect this stream and pass it on.
    Serve(S),
    /// The listener has ended: stop accepting.
    Stop,
}

/// Where the collection of one stream stands, as bytes.
pub enum CollectState {
    /// Still reading; the bytes so far.
    Reading(Seq<u8>),
    /// The stream ended cleanly; every byte it carried.
    Complete(Seq<u8>),
    /// A read failed: nothing is delivered.
    Failed,
}

/// One read, as seen by the collector: `Some(bytes)` for a successful read
/// (empty at the end of the stream), `None` for a failed read.
pub open spec fn collect_step(acc: Seq<u8>, read: Option<Seq<u8>>) -> CollectState {
    match read {
        None => CollectState::Failed,
        Some(chunk) => if chunk.len() == 0 {
            CollectState::Complete(acc)
        } else {
            CollectState::Reading(acc + chunk)
        },
    }
}

/// The state after feeding a whole series of reads, one after the other;
/// once the stream is complete or failed, later reads change nothing.
pub open spec fn collect_run(state: CollectState, reads: Seq<Option<Seq<u8>>>) -> CollectState
    decreases reads.len(),
{
    if reads.len() == 0 {
        state
    } else {
        match state {
            CollectState::Reading(acc) => collect_run(collect_step(acc, reads[0]), reads.drop_first()),
            _ => state,
        }
    }
}

/// The read result handed to the collector, as bytes.
pub open spec fn read_view<E>(read: Result<&[u8], E>) -> Option<Seq<u8>> {
    match read {
        Ok(chunk) => Some(chunk@),
        Err(_) => None,
    }
}

/// A successful read hands the collector exactly the bytes read, whatever
/// their number; only a read error counts as a failure.
pub proof fn lemma_read_view_keeps_bytes<E>(read: Result<&[u8], E>)
    ensures
        read_view(read) is Some <==> read is Ok,
        read matches Ok(chunk) ==> read_view(read) == Some(chunk@),
{
}

/// Every successful non-empty read, of any length, keeps the stream open and
/// appends exactly the bytes read; an empty read ends the stream and delivers
/// everything collected so far; a failed read delivers nothing.
pub proof fn lemma_collect_step_appends(acc: Seq<u8>, chunk: Seq<u8>)
    ensures
        chunk.len() > 0 ==> collect_step(acc, Some(chunk)) == CollectState::Reading(acc + chunk),
        chunk.len() > 0 ==> (acc + chunk).len() == acc.len() + chunk.len(),
        chunk.len() == 0 ==> collect_step(acc, Some(chunk)) == CollectState::Complete(acc),
        collect_step(acc, None) == CollectState::Failed,
{
}

/// The reads of a series of successfully read chunks.
pub open spec fn successful_reads(chunks: Seq<Seq<u8>>) -> Seq<Option<Seq<u8>>> {
    chunks.map_values(|c: Seq<u8>| Some(c))
}

/// Chunks as a successful read returns them: never empty, since an empty
/// read marks the end of the stream.
pub open spec fn all_nonempty(chunks: Seq<Seq<u8>>) -> bool {
    forall|i: int| 0 <= i < chunks.len() ==> #[trigger] chunks[i].len() > 0
}

proof fn lemma_complete_from(acc: Seq<u8>, chunks: Seq<Seq<u8>>, later: Seq<Option<Seq<u8>>>)
    requires
        all_nonempty(chunks),
    ensures
        collect_run(
            CollectState::Reading(acc),
            successful_reads(chunks) + seq![Some(Seq::<u8>::empty())] + later,
        ) == CollectState::Complete(acc + chunks.flatten()),
    decreases chunks.len(),
{
    let reads = successful_reads(chunks) + seq![Some(Seq::<u8>::empty())] + later;
    if chunks.len() == 0 {
        assert(reads[0] == Some(Seq::<u8>::empty()));
        assert(acc + chunks.flatten() =~= acc);
        assert(collect_run(CollectState::Complete(acc), reads.drop_first())
            == CollectState::Complete(acc));
    } else {
        assert(reads[0] == Some(chunks[0]));
        assert(chunks[0].len() > 0);
        let rest = chunks.drop_first();
        assert(all_nonempty(rest)) by {
            assert forall|i: int| 0 <= i < rest.len() implies #[trigger] rest[i].len() > 0 by {
                assert(rest[i] == chunks[i + 1]);
            }
        }
        assert(reads.drop_first() =~= successful_reads(rest) + seq![Some(Seq::<u8>::empty())] + later);
        lemma_complete_from(acc + chunks[0], rest, later);
        assert(acc + chunks[0] + rest.flatten() =~= acc + chunks.flatten());
    }
}

/// A stream whose reads all succeed until it ends delivers to the processor
/// exactly the concatenation of the chunks read, in order; whatever the
/// socket would yield afterwards is never read.
pub proof fn lemma_complete_stream_delivers_all_bytes(
    chunks: Seq<Seq<u8>>,
    later: Seq<Option<Seq<u8>>>,
)
    requires
        all_nonempty(chunks),
    ensures
        collect_run(
            CollectState::Reading(Seq::empty()),
            successful_reads(chunks) + seq![Some(Seq::<u8>::empty())] + later,
        ) == CollectState::Complete(chunks.flatten()),
{
    lemma_complete_from(Seq::empty(), chunks, later);
    assert(Seq::<u8>::empty() + chunks.flatten() =~= chunks.flatten());
}

proof fn lemma_failed_from(acc: Seq<u8>, chunks: Seq<Seq<u8>>, later: Seq<Option<Seq<u8>>>)
    requires
        all_nonempty(chunks),
    ensures
        collect_run(
            CollectState::Reading(acc),
            successful_reads(chunks) + seq![None] + later,
        ) == CollectState::Failed,
    decreases chunks.len(),
{
    let reads = successful_reads(chunks) + seq![None] + later;
    if chunks.len() == 0 {
        assert(reads[0] == None::<Seq<u8>>);
        assert(collect_run(CollectState::Failed, reads.drop_first()) == CollectState::Failed);
    } else {
        assert(reads[0] == Some(chunks[0]));
        assert(chunks[0].len() > 0);
        let rest = chunks.drop_first();
        assert(all_nonempty(rest)) by {
            assert forall|i: int| 0 <= i < rest.len() implies #[trigger] rest[i].len() > 0 by {
                assert(rest[i] == chunks[i + 1]);
            }
        }
        assert(reads.drop_first() =~= successful_reads(rest) + seq![None] + later);
        lemma_failed_from(acc + chunks[0], rest, later);
    }
}

/// A stream in which a read fails before the end delivers nothing to the
/// processor, however many bytes were read before the failure.
pub proof fn lemma_failed_read_delivers_nothing(
    chunks: Seq<Seq<u8>>,
    later: Seq<Option<Seq<u8>>>,
)
    requires
        all_nonempty(chunks),
    ensures
        collect_run(
            CollectState::Reading(Seq::empty()),
            successful_reads(chunks) + seq![None] + later,
        ) == CollectState::Failed,
{
    lemma_failed_from(Seq::empty(), chunks, later);
}

/// Accumulates the bytes read from one client stream.
pub struct StreamCollector {
    out: Vec<u8>,
}

/// The outcome of feeding one read to a [`StreamCollector`].
pub enum Collected {
    /// Keep reading with the updated collector.
    Reading(StreamCollector),
    /// The stream ended: hand this buffer to the processor.
    Complete(Buffer),
    /// A read failed: drop the stream without delivering anything.
    Failed,
}

impl View for StreamCollector {
    type V = Seq<u8>;

    closed spec fn view(&self) -> Seq<u8> {
        self.out@
    }
}

impl View for Collected {
    type V = CollectState;

    open spec fn view(&self) -> CollectState {
        match self {
            Collected::Reading(c) => CollectState::Reading(c@),
            Collected::Complete(b) => CollectState::Complete(b.inner@),
            Collected::Failed => CollectState::Failed,
        }
    }
}

impl StreamCollector {
    /// A collector that has read nothing yet.
    pub fn new() -> (c: StreamCollector)
        ensures
            c@ == Seq::<u8>::empty(),
    {
        StreamCollector { out: Vec::new() }
    }

    /// The bytes collected so far.
    pub fn collected(&self) -> (bytes: &[u8])
        ensures
            bytes@ == self@,
    {
        self.out.as_slice()
    }

    /// Feeds the result of one read: the bytes read (none at the end of the
    /// stream) or the read error.
    pub fn on_read<E>(self, read: Result<&[u8], E>) -> (next: Collected)
        ensures
            next@ == collect_step(self@, read_view(read)),
            match read {
                Ok(chunk) => if chunk@.len() > 0 {
                    next matches Collected::Reading(c) && c@ == self@ + chunk@
                } else {
                    next matches Collected::Complete(b) && b.inner@ == self@
                },
                Err(_) => next is Failed,
            },
    {
        match read {
            Err(_) => Collected::Failed,
            Ok(chunk) => {
                if chunk.len() == 0 {
                    Collected::Complete(Buffer { inner: self.out })
                } else {
                    let mut out = self.out;
                    out.extend_from_slice(chunk);
                    assert(out@ =~= self@ + chunk@);
                    Collected::Reading(StreamCollector { out })
                }
            },
        }
    }
}

/// The step [`IpcServer::on_incoming`] takes for one item of the listener.
pub open spec fn serve_spec<S, E>(incoming: Option<Result<S, E>>) -> ServeStep<S> {
    match incoming {
        Some(Ok(stream)) => ServeStep::Serve(stream),
        _ => ServeStep::Stop,
    }
}

/// The streams the server serves while its listener yields `incomings`,
/// each handled by [`IpcServer::on_incoming`] in turn, until it stops.
pub open spec fn serve_run<S, E>(incomings: Seq<Option<Result<S, E>>>) -> Seq<S>
    decreases incomings.len(),
{
    if incomings.len() == 0 {
        Seq::empty()
    } else {
        match serve_spec(incomings[0]) {
            ServeStep::Serve(stream) => seq![stream] + serve_run(incomings.drop_first()),
            ServeStep::Stop => Seq::empty(),
        }
    }
}

/// The items a listener yields for a series of accepted streams.
pub open spec fn accepted<S, E>(streams: Seq<S>) -> Seq<Option<Result<S, E>>> {
    streams.map_values(|s: S| Some(Ok(s)))
}

/// The server serves every accepted stream, once and in the order it was
/// accepted, and serves nothing after its listener has ended.
pub proof fn lemma_server_serves_accepted_streams<S, E>(
    streams: Seq<S>,
    later: Seq<Option<Result<S, E>>>,
)
    ensures
        serve_run(accepted::<S, E>(streams) + seq![None] + later) == streams,
    decreases streams.len(),
{
    let items = accepted::<S, E>(streams) + seq![None] + later;
    if streams.len() == 0 {
        assert(items[0] == None::<Result<S, E>>);
        assert(streams =~= Seq::<S>::empty());
    } else {
        let rest = streams.drop_first();
        assert(items[0] == Some(Ok::<S, E>(streams[0])));
        assert(items.drop_first() =~= accepted::<S, E>(rest) + seq![None] + later);
        lemma_server_serves_accepted_streams::<S, E>(rest, later);
        assert(seq![streams[0]] + rest =~= streams);
    }
}

impl IpcServer {
    /// A server that has not accepted anything yet.
    pub fn new() -> (server: IpcServer)
        ensures
            server == (IpcServer {}),
    {
        IpcServer {}
    }

    /// Decides what to do with the next item of the listener: serve an
    /// accepted stream, or stop once the listener has ended.  An accept
    /// error is fatal to the server, so it is not a valid input here.
    pub fn on_incoming<S, E>(&self, incoming: Option<Result<S, E>>) -> (step: ServeStep<S>)
        requires
            !(incoming matches Some(Err(_))),
        ensures
            step == serve_spec(incoming),
    {
        match incoming {
            Some(Ok(stream)) => ServeStep::Serve(stream),
            _ => ServeStep::Stop,
        }
    }
}

} // verus!
