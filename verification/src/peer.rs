use vstd::prelude::*;
use crate::error::EkkeError;

verus! {

/// The outcome of [`accept_first`] for one item of the listener: `None` to
/// keep listening, otherwise what binding the socket returns.
pub open spec fn accept_spec<S, E>(income: Option<Result<S, E>>) -> Option<Result<S, EkkeError>> {
    match income {
        Some(Ok(stream)) => Some(Ok(stream)),
        Some(Err(_)) => None,
        None => Some(Err(EkkeError::NoConnectionsReceived)),
    }
}

/// Binding accepts a single peer: the first stream that is accepted
/// successfully is the connection, a failed accept is skipped, and a
/// listener that ends before any peer connected yields
/// [`EkkeError::NoConnectionsReceived`].
pub fn accept_first<S, E>(income: Option<Result<S, E>>) -> (outcome: Option<Result<S, EkkeError>>)
    ensures
        outcome == accept_spec(income),
{
    match income {
        Some(Ok(stream)) => Some(Ok(stream)),
        Some(Err(_)) => None,
        None => Some(Err(EkkeError::NoConnectionsReceived)),
    }
}

/// What binding returns when the listener yields `incomes` and then ends,
/// each item being handled by [`accept_first`] in turn.
pub open spec fn bind_outcome<S, E>(incomes: Seq<Result<S, E>>) -> Result<S, EkkeError>
    decreases incomes.len(),
{
    if incomes.len() == 0 {
        accept_spec::<S, E>(None)->Some_0
    } else {
        match accept_spec(Some(incomes[0])) {
            Some(outcome) => outcome,
            None => bind_outcome(incomes.drop_first()),
        }
    }
}

/// Binding returns the first stream that was accepted successfully: every
/// failed accept before it is skipped, and nothing after it is waited for.
pub proof fn lemma_bind_takes_first_connection<S, E>(incomes: Seq<Result<S, E>>, i: int)
    requires
        0 <= i < incomes.len(),
        incomes[i] is Ok,
        forall|j: int| 0 <= j < i ==> #[trigger] incomes[j] is Err,
    ensures
        bind_outcome(incomes) == Ok::<S, EkkeError>(incomes[i]->Ok_0),
    decreases i,
{
    if i > 0 {
        assert(incomes[0] is Err);
        let rest = incomes.drop_first();
        assert forall|j: int| 0 <= j < i - 1 implies #[trigger] rest[j] is Err by {
            assert(rest[j] == incomes[j + 1]);
        }
        lemma_bind_takes_first_connection(rest, i - 1);
    }
}

/// When no accept succeeds before the listener ends, binding fails with
/// [`EkkeError::NoConnectionsReceived`].
pub proof fn lemma_bind_without_connection_fails<S, E>(incomes: Seq<Result<S, E>>)
    requires
        forall|j: int| 0 <= j < incomes.len() ==> #[trigger] incomes[j] is Err,
    ensures
        bind_outcome(incomes) == Err::<S, EkkeError>(EkkeError::NoConnectionsReceived),
    decreases incomes.len(),
{
    if incomes.len() > 0 {
        assert(incomes[0] is Err);
        let rest = incomes.drop_first();
        assert forall|j: int| 0 <= j < rest.len() implies #[trigger] rest[j] is Err by {
            assert(rest[j] == incomes[j + 1]);
        }
        lemma_bind_without_connection_fails(rest);
    }
}

/// What a listening peer does with the next item of its framed stream.
pub enum ListenStep<F> {
    /// A message was decoded: forward it to the processor.
    Deliver(F),
    /// A frame could not be decoded: report it and keep listening.
    Skip,
    /// The other peer disconnected: stop listening.
    Disconnected,
}

/// The step [`listen_step`] takes for one item of the stream.
pub open spec fn listen_spec<F, E>(next: Option<Result<F, E>>) -> ListenStep<F> {
    match next {
        Some(Ok(frame)) => ListenStep::Deliver(frame),
        Some(Err(_)) => ListenStep::Skip,
        None => ListenStep::Disconnected,
    }
}

/// Decides what a listening peer does with the next item of its stream.
pub fn listen_step<F, E>(next: Option<Result<F, E>>) -> (step: ListenStep<F>)
    ensures
        step == listen_spec(next),
{
    match next {
        Some(Ok(frame)) => ListenStep::Deliver(frame),
        Some(Err(_)) => ListenStep::Skip,
        None => ListenStep::Disconnected,
    }
}

/// The messages forwarded to the processor while the stream yields `items`,
/// each handled by [`listen_step`] in turn, until it reports a disconnect.
pub open spec fn listen_run<F, E>(items: Seq<Option<Result<F, E>>>) -> Seq<F>
    decreases items.len(),
{
    if items.len() == 0 {
        Seq::empty()
    } else {
        match listen_spec(items[0]) {
            ListenStep::Deliver(frame) => seq![frame] + listen_run(items.drop_first()),
            ListenStep::Skip => listen_run(items.drop_first()),
            ListenStep::Disconnected => Seq::empty(),
        }
    }
}

/// The message a decoded frame carries, if it was decoded.
pub open spec fn frame_of<F, E>(item: Result<F, E>) -> Option<F> {
    match item {
        Ok(frame) => Some(frame),
        Err(_) => None,
    }
}

/// The items a stream yields before it ends.
pub open spec fn stream_items<F, E>(frames: Seq<Result<F, E>>) -> Seq<Option<Result<F, E>>> {
    frames.map_values(|r: Result<F, E>| Some(r))
}

proof fn lemma_filter_map_prepend<A, B>(x: A, s: Seq<A>, f: spec_fn(A) -> Option<B>)
    ensures
        (seq![x] + s).filter_map(f) == (match f(x) {
            Some(b) => seq![b],
            None => Seq::<B>::empty(),
        }) + s.filter_map(f),
    decreases s.len(),
{
    let t = seq![x] + s;
    if s.len() == 0 {
        assert(t =~= seq![x]);
        assert(t.drop_last() =~= Seq::<A>::empty());
        assert(t.last() == x);
        assert(t.drop_last().filter_map(f) =~= Seq::<B>::empty());
        assert(t.filter_map(f) =~= (match f(x) {
            Some(b) => seq![b],
            None => Seq::<B>::empty(),
        }));
        assert(s.filter_map(f) =~= Seq::<B>::empty());
    } else {
        assert(t.drop_last() =~= seq![x] + s.drop_last());
        assert(t.last() == s.last());
        lemma_filter_map_prepend(x, s.drop_last(), f);
        let head = match f(x) {
            Some(b) => seq![b],
            None => Seq::<B>::empty(),
        };
        match f(s.last()) {
            Some(b) => {
                assert(t.filter_map(f) =~= head + s.drop_last().filter_map(f) + seq![b]);
                assert(s.filter_map(f) == s.drop_last().filter_map(f) + seq![b]);
                assert(t.filter_map(f) =~= head + s.filter_map(f));
            },
            None => {},
        }
    }
}

proof fn lemma_listen_run_frames<F, E>(frames: Seq<Result<F, E>>, later: Seq<Option<Result<F, E>>>)
    ensures
        listen_run(stream_items(frames) + seq![None] + later) == frames.filter_map(
            |r: Result<F, E>| frame_of(r),
        ),
    decreases frames.len(),
{
    let f = |r: Result<F, E>| frame_of(r);
    let items = stream_items(frames) + seq![None] + later;
    if frames.len() == 0 {
        assert(items[0] == None::<Result<F, E>>);
        assert(frames.filter_map(f) =~= Seq::<F>::empty());
    } else {
        let rest = frames.drop_first();
        assert(items[0] == Some(frames[0]));
        assert(items.drop_first() =~= stream_items(rest) + seq![None] + later);
        lemma_listen_run_frames(rest, later);
        assert(frames =~= seq![frames[0]] + rest);
        lemma_filter_map_prepend(frames[0], rest, f);
        match frames[0] {
            Ok(frame) => {
                assert(listen_run(items) =~= seq![frame] + rest.filter_map(f));
            },
            Err(_) => {
                assert(listen_run(items) =~= Seq::<F>::empty() + rest.filter_map(f));
            },
        }
    }
}

/// A listening peer forwards to the processor exactly the messages that were
/// decoded from its stream, in the order they arrived: frames that fail to
/// decode are skipped, and nothing is forwarded after the other peer has
/// disconnected.
pub proof fn lemma_listen_forwards_decoded_frames<F, E>(
    frames: Seq<Result<F, E>>,
    later: Seq<Option<Result<F, E>>>,
)
    ensures
        listen_run(stream_items(frames) + seq![None] + later) == frames.filter_map(
            |r: Result<F, E>| frame_of(r),
        ),
{
    lemma_listen_run_frames(frames, later);
}

} // verus!
