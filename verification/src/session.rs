use vstd::prelude::*;

use crate::context::Context;
use crate::proto::DecodeError;
use crate::proto::DecodeErrorV;
use crate::proto::ReqV;
use crate::proto::Request;
use crate::proto::RespV;
use crate::proto::Response;

verus! {

/// One outstanding handler call: the correlation key the peer assigned, the
/// deadline bounding the call, and the context scope that was active when the
/// call was made. The pending handler work itself lives with the execution
/// substrate; this record is what the session tracks until resolution.
#[derive(Clone, Copy, PartialEq, Eq, Structural, Debug)]
pub struct Invocation {
    pub seq: u64,
    pub deadline: u64,
    pub ctx: Context,
}

/// The resolution of one invocation: its sequence number and the handler's
/// success payload or declared error value.
pub struct Completion {
    pub seq: u64,
    pub outcome: Result<Vec<u8>, Vec<u8>>,
}

/// The mathematical value of a `Completion`.
#[verifier::ext_equal]
pub struct CompletionV {
    pub seq: u64,
    pub outcome: Result<Seq<u8>, Seq<u8>>,
}

impl View for Completion {
    type V = CompletionV;

    open spec fn view(&self) -> CompletionV {
        CompletionV {
            seq: self.seq,
            outcome: match &self.outcome {
                Ok(p) => Ok(p@),
                Err(e) => Err(e@),
            },
        }
    }
}

impl Invocation {
    /// The scope to install around each poll of the underlying handler work,
    /// so that ambient lookups inside handler code always see the context of
    /// the call that triggered them, however many invocations are interleaved.
    pub fn scope(&self) -> (c: Context)
        ensures
            c == self.ctx,
    {
        self.ctx
    }

    /// Map one poll of the underlying handler work to this invocation's
    /// terminal value: `None` while the work is still pending, and otherwise
    /// exactly one completion tagged with this invocation's own sequence
    /// number, whether the handler succeeded or failed.
    pub fn poll(&self, polled: Option<Result<Vec<u8>, Vec<u8>>>) -> (r: Option<Completion>)
        ensures
            r is Some <==> polled is Some,
            polled matches Some(outcome) ==> r matches Some(c) && c.seq == self.seq
                && c.outcome == outcome,
    {
        match polled {
            None => None,
            Some(outcome) => Some(Completion { seq: self.seq, outcome }),
        }
    }
}

/// The work one decoded `Invoke` hands to the handler: the request's sequence
/// number, deadline, context scope and opaque payload.
pub struct Dispatch {
    pub seq: u64,
    pub deadline: u64,
    pub ctx: Context,
    pub payload: Vec<u8>,
}

/// The mathematical value of a `Dispatch`.
#[verifier::ext_equal]
pub struct DispatchV {
    pub seq: u64,
    pub deadline: u64,
    pub ctx: Context,
    pub payload: Seq<u8>,
}

impl View for Dispatch {
    type V = DispatchV;

    open spec fn view(&self) -> DispatchV {
        DispatchV { seq: self.seq, deadline: self.deadline, ctx: self.ctx, payload: self.payload@ }
    }
}

/// One item the decode half produced: a well-formed request, or a decode
/// failure.
pub type ItemV = Result<ReqV, DecodeErrorV>;

/// The mathematical state of one session: the in-flight invocation records,
/// the responses queued for the encode half, whether the decode direction has
/// signaled stream end, and whether a connection-fatal error has occurred.
#[verifier::ext_equal]
pub struct SessionV {
    pub inflight: Seq<Invocation>,
    pub outbox: Seq<RespV>,
    pub decode_done: bool,
    pub failed: bool,
}

/// The state of a session that has just been bound to a connection.
pub open spec fn session_init() -> SessionV {
    SessionV {
        inflight: Seq::empty(),
        outbox: Seq::empty(),
        decode_done: false,
        failed: false,
    }
}

pub open spec fn item_view(it: Result<Request, DecodeError>) -> ItemV {
    match it {
        Ok(rq) => Ok(rq@),
        Err(e) => Err(e@),
    }
}

pub open spec fn items_view(items: Seq<Result<Request, DecodeError>>) -> Seq<ItemV> {
    items.map_values(|it: Result<Request, DecodeError>| item_view(it))
}

pub open spec fn comps_view(comps: Seq<Completion>) -> Seq<CompletionV> {
    comps.map_values(|c: Completion| c@)
}

pub open spec fn dispatches_view(ds: Seq<Dispatch>) -> Seq<DispatchV> {
    ds.map_values(|d: Dispatch| d@)
}

pub open spec fn resp_views(rs: Seq<Response>) -> Seq<RespV> {
    rs.map_values(|r: Response| r@)
}

/// Whether a decode item is a connection-fatal framing failure.
pub open spec fn is_frame(it: ItemV) -> bool {
    it matches Err(DecodeErrorV::Frame { .. })
}

/// How one decode item changes the session state. A ping is answered at once;
/// an invoke joins the in-flight set; a user-level decode failure is answered
/// with a failure response for its own sequence number; a frame failure makes
/// the session fatally failed.
pub open spec fn decode_step_state(s: SessionV, it: ItemV) -> SessionV {
    match it {
        Ok(ReqV::Ping { seq }) => SessionV {
            inflight: s.inflight,
            outbox: s.outbox.push(RespV::Ping { seq }),
            decode_done: s.decode_done,
            failed: s.failed,
        },
        Ok(ReqV::Invoke { seq, deadline, ctx, .. }) => SessionV {
            inflight: s.inflight.push(Invocation { seq, deadline, ctx }),
            outbox: s.outbox,
            decode_done: s.decode_done,
            failed: s.failed,
        },
        Err(DecodeErrorV::User { seq, error }) => SessionV {
            inflight: s.inflight,
            outbox: s.outbox.push(RespV::Invoke { seq, outcome: Err(error) }),
            decode_done: s.decode_done,
            failed: s.failed,
        },
        Err(DecodeErrorV::Frame { .. }) => SessionV {
            inflight: s.inflight,
            outbox: s.outbox,
            decode_done: s.decode_done,
            failed: true,
        },
    }
}

/// The handler work one decode item dispatches: exactly the invokes, each with
/// its own context scope and payload.
pub open spec fn item_dispatches(it: ItemV) -> Seq<DispatchV> {
    match it {
        Ok(ReqV::Invoke { seq, deadline, ctx, payload }) => seq![
            DispatchV { seq, deadline, ctx, payload },
        ],
        _ => Seq::empty(),
    }
}

/// The session state after one decode phase over `items`, in arrival order.
/// A fatal failure absorbs everything after it.
pub open spec fn decode_run(s: SessionV, items: Seq<ItemV>) -> SessionV
    decreases items.len(),
{
    if items.len() == 0 {
        s
    } else if s.failed {
        s
    } else {
        decode_run(decode_step_state(s, items[0]), items.drop_first())
    }
}

/// The handler work one decode phase dispatches, in arrival order. Nothing is
/// dispatched once the session has fatally failed.
pub open spec fn decode_dispatches(s: SessionV, items: Seq<ItemV>) -> Seq<DispatchV>
    decreases items.len(),
{
    if items.len() == 0 || s.failed {
        Seq::empty()
    } else {
        item_dispatches(items[0]) + decode_dispatches(decode_step_state(s, items[0]), items.drop_first())
    }
}

/// The whole decode phase: the run over the items, then, where the stream
/// ended without a fatal failure, the record that decoding is complete.
pub open spec fn decode_phase(s: SessionV, items: Seq<ItemV>, stream_end: bool) -> SessionV {
    let s1 = decode_run(s, items);
    if !s1.failed && stream_end {
        SessionV {
            inflight: s1.inflight,
            outbox: s1.outbox,
            decode_done: true,
            failed: false,
        }
    } else {
        s1
    }
}

/// The error of the first connection-fatal item, where there is one.
pub open spec fn first_frame_error(items: Seq<ItemV>) -> Seq<u8>
    decreases items.len(),
{
    if items.len() == 0 {
        Seq::empty()
    } else {
        match items[0] {
            Err(DecodeErrorV::Frame { error }) => error,
            _ => first_frame_error(items.drop_first()),
        }
    }
}

/// Whether some in-flight record carries this sequence number.
pub open spec fn has_seq(inflight: Seq<Invocation>, seq: u64) -> bool {
    exists|i: int| 0 <= i < inflight.len() && inflight[i].seq == seq
}

/// The in-flight set with the earliest record bearing `seq` removed.
pub open spec fn remove_seq(inflight: Seq<Invocation>, seq: u64) -> Seq<Invocation>
    decreases inflight.len(),
{
    if inflight.len() == 0 {
        inflight
    } else if inflight[0].seq == seq {
        inflight.drop_first()
    } else {
        seq![inflight[0]] + remove_seq(inflight.drop_first(), seq)
    }
}

/// How one resolved invocation changes the session state: its record leaves
/// the in-flight set and exactly one correlated response joins the queue. A
/// completion for a sequence number with no record, or on a fatally failed
/// session, changes nothing.
pub open spec fn complete_step(s: SessionV, c: CompletionV) -> SessionV {
    if s.failed {
        s
    } else if has_seq(s.inflight, c.seq) {
        SessionV {
            inflight: remove_seq(s.inflight, c.seq),
            outbox: s.outbox.push(RespV::Invoke { seq: c.seq, outcome: c.outcome }),
            decode_done: s.decode_done,
            failed: s.failed,
        }
    } else {
        s
    }
}

/// The session state after the dispatch-completion phase over `comps`, in
/// resolution order.
pub open spec fn complete_run(s: SessionV, comps: Seq<CompletionV>) -> SessionV
    decreases comps.len(),
{
    if comps.len() == 0 {
        s
    } else {
        complete_run(complete_step(s, comps[0]), comps.drop_first())
    }
}

/// Whether each completion finds a record at its turn: what actually happens
/// on a session, since only in-flight work resolves.
pub open spec fn completions_valid(inflight: Seq<Invocation>, comps: Seq<CompletionV>) -> bool
    decreases comps.len(),
{
    comps.len() == 0 || (has_seq(inflight, comps[0].seq)
        && completions_valid(remove_seq(inflight, comps[0].seq), comps.drop_first()))
}

/// A fatally failed session absorbs every further decode item: nothing more is
/// queued, dispatched, or tracked.
pub proof fn lemma_failed_absorbs(s: SessionV, items: Seq<ItemV>)
    requires
        s.failed,
    ensures
        decode_run(s, items) == s,
        decode_dispatches(s, items) == Seq::<DispatchV>::empty(),
{
}

/// Decoding a concatenation runs the two halves in order.
pub proof fn lemma_run_append(s: SessionV, a: Seq<ItemV>, b: Seq<ItemV>)
    ensures
        decode_run(s, a + b) == decode_run(decode_run(s, a), b),
    decreases a.len(),
{
    if a.len() == 0 {
        assert(a + b =~= b);
    } else if s.failed {
    } else {
        assert((a + b)[0] == a[0]);
        assert((a + b).drop_first() =~= a.drop_first() + b);
        lemma_run_append(decode_step_state(s, a[0]), a.drop_first(), b);
    }
}

/// The dispatches of a concatenation are those of the first half followed by
/// those of the second, started from where the first half left the state.
pub proof fn lemma_dispatches_append(s: SessionV, a: Seq<ItemV>, b: Seq<ItemV>)
    ensures
        decode_dispatches(s, a + b) == decode_dispatches(s, a) + decode_dispatches(decode_run(s, a), b),
    decreases a.len(),
{
    if a.len() == 0 {
        assert(a + b =~= b);
        assert(decode_dispatches(s, a) + decode_dispatches(s, b) =~= decode_dispatches(s, b));
    } else if s.failed {
        assert(decode_dispatches(s, a) + decode_dispatches(s, b) =~= Seq::<DispatchV>::empty());
    } else {
        assert((a + b)[0] == a[0]);
        assert((a + b).drop_first() =~= a.drop_first() + b);
        let s1 = decode_step_state(s, a[0]);
        lemma_dispatches_append(s1, a.drop_first(), b);
        assert(item_dispatches(a[0]) + (decode_dispatches(s1, a.drop_first())
            + decode_dispatches(decode_run(s1, a.drop_first()), b))
            =~= (item_dispatches(a[0]) + decode_dispatches(s1, a.drop_first()))
            + decode_dispatches(decode_run(s1, a.drop_first()), b));
    }
}

/// Decoding a single item is one step of the state, and dispatches exactly
/// that item's handler work.
pub proof fn lemma_run_one(s: SessionV, it: ItemV)
    requires
        !s.failed,
    ensures
        decode_run(s, seq![it]) == decode_step_state(s, it),
        decode_dispatches(s, seq![it]) == item_dispatches(it),
{
    let items = seq![it];
    let s1 = decode_step_state(s, it);
    assert(items.len() == 1);
    assert(items[0] == it);
    assert(items.drop_first() =~= Seq::<ItemV>::empty());
    assert(decode_run(s, items) == decode_run(s1, items.drop_first()));
    assert(decode_run(s1, items.drop_first()) == s1);
    assert(decode_dispatches(s, items)
        == item_dispatches(it) + decode_dispatches(s1, items.drop_first()));
    assert(decode_dispatches(s1, items.drop_first()) =~= Seq::<DispatchV>::empty());
    assert(item_dispatches(it) + Seq::<DispatchV>::empty() =~= item_dispatches(it));
}

/// Completing a single resolution is one step.
pub proof fn lemma_complete_one(s: SessionV, c: CompletionV)
    ensures
        complete_run(s, seq![c]) == complete_step(s, c),
{
    let comps = seq![c];
    let s1 = complete_step(s, c);
    assert(comps.len() == 1);
    assert(comps[0] == c);
    assert(comps.drop_first() =~= Seq::<CompletionV>::empty());
    assert(complete_run(s, comps) == complete_run(s1, comps.drop_first()));
    assert(complete_run(s1, comps.drop_first()) == s1);
}

/// Completing a concatenation runs the two halves in order.
pub proof fn lemma_complete_append(s: SessionV, a: Seq<CompletionV>, b: Seq<CompletionV>)
    ensures
        complete_run(s, a + b) == complete_run(complete_run(s, a), b),
    decreases a.len(),
{
    if a.len() == 0 {
        assert(a + b =~= b);
    } else {
        assert((a + b)[0] == a[0]);
        assert((a + b).drop_first() =~= a.drop_first() + b);
        lemma_complete_append(complete_step(s, a[0]), a.drop_first(), b);
    }
}

/// The dispatch-completion phase never changes the failure or stream-end
/// record: an individual handler failure never fails the session.
pub proof fn lemma_complete_preserves_flags(s: SessionV, comps: Seq<CompletionV>)
    ensures
        complete_run(s, comps).failed == s.failed,
        complete_run(s, comps).decode_done == s.decode_done,
    decreases comps.len(),
{
    if comps.len() > 0 {
        lemma_complete_preserves_flags(complete_step(s, comps[0]), comps.drop_first());
    }
}

/// The error a failed decode phase reports is that of the first framing
/// failure among the items.
pub proof fn lemma_first_frame(prefix: Seq<ItemV>, error: Seq<u8>, rest: Seq<ItemV>)
    requires
        forall|j: int| 0 <= j < prefix.len() ==> !is_frame(#[trigger] prefix[j]),
    ensures
        first_frame_error(prefix + seq![Err(DecodeErrorV::Frame { error })] + rest) == error,
    decreases prefix.len(),
{
    let whole = prefix + seq![Err::<ReqV, DecodeErrorV>(DecodeErrorV::Frame { error })] + rest;
    if prefix.len() == 0 {
        assert(whole[0] == Err::<ReqV, DecodeErrorV>(DecodeErrorV::Frame { error }));
    } else {
        assert(whole[0] == prefix[0]);
        assert(!is_frame(prefix[0]));
        assert(whole.drop_first() =~= prefix.drop_first()
            + seq![Err::<ReqV, DecodeErrorV>(DecodeErrorV::Frame { error })] + rest);
        assert(forall|j: int| 0 <= j < prefix.drop_first().len()
            ==> !is_frame(#[trigger] prefix.drop_first()[j]));
        lemma_first_frame(prefix.drop_first(), error, rest);
    }
}

/// The earliest record bearing `seq` stands at index `at` exactly when nothing
/// before it bears `seq`; removing it is removing that index.
pub proof fn lemma_remove_seq_at(inflight: Seq<Invocation>, seq: u64, at: int)
    requires
        0 <= at < inflight.len(),
        inflight[at].seq == seq,
        forall|j: int| 0 <= j < at ==> inflight[j].seq != seq,
    ensures
        remove_seq(inflight, seq) == inflight.remove(at),
    decreases at,
{
    if at == 0 {
        assert(remove_seq(inflight, seq) =~= inflight.remove(0));
    } else {
        assert(inflight[0].seq != seq);
        let tail = inflight.drop_first();
        assert(tail[at - 1].seq == seq);
        assert(forall|j: int| 0 <= j < at - 1 ==> #[trigger] tail[j].seq != seq);
        lemma_remove_seq_at(tail, seq, at - 1);
        assert(seq![inflight[0]] + tail.remove(at - 1) =~= inflight.remove(at));
    }
}

/// The result of one scheduling pass that made progress: the handler work the
/// decoded invokes dispatch, the responses handed to the encode half, and
/// whether the session is fully done — stream end seen, nothing in flight,
/// and the transport flushed.
pub struct SessionPoll {
    pub dispatches: Vec<Dispatch>,
    pub emit: Vec<Response>,
    pub done: bool,
}

/// One session: owns the in-flight invocation records of one connection and
/// the queue of responses bound for its encode half, and drives the
/// decode → dispatch-completion → encode cycle each scheduling pass.
pub struct Session {
    inflight: Vec<Invocation>,
    outbox: Vec<Response>,
    decode_done: bool,
    failed: bool,
}

impl View for Session {
    type V = SessionV;

    closed spec fn view(&self) -> SessionV {
        SessionV {
            inflight: self.inflight@,
            outbox: resp_views(self.outbox@),
            decode_done: self.decode_done,
            failed: self.failed,
        }
    }
}

impl Session {
    /// Bind a fresh session to one accepted connection: nothing in flight,
    /// nothing queued, stream open, no failure.
    pub fn spawn() -> (s: Session)
        ensures
            s@ == session_init(),
    {
        let s = Session {
            inflight: Vec::new(),
            outbox: Vec::new(),
            decode_done: false,
            failed: false,
        };
        proof {
            assert(s@ =~= session_init());
        }
        s
    }

    /// Whether a connection-fatal error has terminated this session.
    pub fn is_failed(&self) -> (b: bool)
        ensures
            b == self@.failed,
    {
        self.failed
    }

    /// How many invocations are currently in flight.
    pub fn inflight_len(&self) -> (n: usize)
        ensures
            n == self@.inflight.len(),
    {
        self.inflight.len()
    }

    /// The decode phase: process the items the decode half produced this
    /// pass, in arrival order. Pings are answered at once; invokes join the
    /// in-flight set and their handler work is returned for dispatch, each
    /// with its own context scope; a user-level decode failure is answered
    /// with a failure response and decoding continues; a framing failure
    /// terminates the session at once, and everything decoded after it is
    /// discarded. `stream_end` says the decode half signaled completion.
    #[verifier::loop_isolation(false)]
    pub fn poll_decoder(&mut self, items: Vec<Result<Request, DecodeError>>, stream_end: bool)
        -> (r: Result<Vec<Dispatch>, Vec<u8>>)
        requires
            !old(self)@.failed,
        ensures
            final(self)@ == decode_phase(old(self)@, items_view(items@), stream_end),
            r is Err <==> decode_run(old(self)@, items_view(items@)).failed,
            r matches Ok(ds) ==> dispatches_view(ds@)
                == decode_dispatches(old(self)@, items_view(items@)),
            r matches Err(e) ==> e@ == first_frame_error(items_view(items@)),
    {
        let ghost s0 = self@;
        let ghost iv = items_view(items@);
        let mut items = items;
        let mut ds: Vec<Dispatch> = Vec::new();
        let ghost mut processed: Seq<ItemV> = Seq::empty();
        while items.len() > 0
            invariant
                iv == processed + items_view(items@),
                self@ == decode_run(s0, processed),
                !self@.failed,
                dispatches_view(ds@) == decode_dispatches(s0, processed),
                forall|j: int| 0 <= j < processed.len() ==> !is_frame(#[trigger] processed[j]),
            decreases items@.len(),
        {
            let ghost items_before = items@;
            let ghost s_pre = self@;
            let it = items.remove(0);
            let ghost itv = item_view(it);
            proof {
                assert(itv == iv[processed.len() as int]);
                assert(items_view(items_before) =~= seq![itv] + items_view(items@));
                assert(iv =~= processed + seq![itv] + items_view(items@));
            }
            match it {
                Ok(Request::Ping(seq)) => {
                    self.outbox.push(Response::Ping(seq));
                    proof {
                        assert(self@ =~= decode_step_state(s_pre, itv));
                    }
                },
                Ok(Request::Invoke(seq, deadline, ctx, payload)) => {
                    self.inflight.push(Invocation { seq, deadline, ctx });
                    let d = Dispatch { seq, deadline, ctx, payload };
                    ds.push(d);
                    proof {
                        assert(self@ =~= decode_step_state(s_pre, itv));
                    }
                },
                Err(DecodeError::User(seq, error)) => {
                    self.outbox.push(Response::Invoke(seq, Err(error)));
                    proof {
                        assert(self@ =~= decode_step_state(s_pre, itv));
                    }
                },
                Err(DecodeError::Frame(error)) => {
                    self.failed = true;
                    proof {
                        assert(self@ =~= decode_step_state(s_pre, itv));
                        lemma_run_append(s0, processed, seq![itv]);
                        lemma_run_one(s_pre, itv);
                        assert(decode_run(s0, processed + seq![itv]) == self@);
                        lemma_run_append(s0, processed + seq![itv], items_view(items@));
                        lemma_failed_absorbs(self@, items_view(items@));
                        assert((processed + seq![itv]) + items_view(items@) =~= iv);
                        assert(decode_run(s0, iv) == self@);
                        lemma_first_frame(processed, error@, items_view(items@));
                    }
                    return Err(error);
                },
            }
            proof {
                let pre = processed;
                lemma_run_append(s0, pre, seq![itv]);
                lemma_dispatches_append(s0, pre, seq![itv]);
                lemma_run_one(s_pre, itv);
                assert(dispatches_view(ds@) =~= decode_dispatches(s0, pre)
                    + item_dispatches(itv));
                processed = pre.push(itv);
                assert(processed =~= pre + seq![itv]);
                assert(self@ == decode_run(s0, processed));
                assert(dispatches_view(ds@) == decode_dispatches(s0, processed));
                assert(iv =~= processed + items_view(items@));
            }
        }
        proof {
            assert(items_view(items@) =~= Seq::<ItemV>::empty());
            assert(processed =~= iv);
        }
        if stream_end {
            self.decode_done = true;
            proof {
                assert(self@ =~= decode_phase(s0, iv, stream_end));
            }
        }
        Ok(ds)
    }

    /// Locate the earliest in-flight record bearing `seq`.
    fn find_seq(inflight: &Vec<Invocation>, seq: u64) -> (r: Option<usize>)
        ensures
            r matches Some(i) ==> i < inflight@.len() && inflight@[i as int].seq == seq
                && forall|j: int| 0 <= j < i ==> inflight@[j].seq != seq,
            r is None ==> !has_seq(inflight@, seq),
    {
        let mut i: usize = 0;
        while i < inflight.len()
            invariant
                i <= inflight@.len(),
                forall|j: int| 0 <= j < i ==> inflight@[j].seq != seq,
            decreases inflight@.len() - i,
        {
            if inflight[i].seq == seq {
                return Some(i);
            }
            i = i + 1;
        }
        None
    }

    /// One resolved invocation: its record leaves the in-flight set and
    /// exactly one correlated response joins the queue for the encode half.
    /// Returns whether a record bearing the completion's sequence number was
    /// in flight.
    pub fn complete(&mut self, c: Completion) -> (r: bool)
        requires
            !old(self)@.failed,
        ensures
            final(self)@ == complete_step(old(self)@, c@),
            r == has_seq(old(self)@.inflight, c@.seq),
    {
        match Self::find_seq(&self.inflight, c.seq) {
            Some(i) => {
                proof {
                    lemma_remove_seq_at(old(self)@.inflight, c@.seq, i as int);
                }
                self.inflight.remove(i);
                self.outbox.push(Response::Invoke(c.seq, c.outcome));
                proof {
                    assert(self@ =~= complete_step(old(self)@, c@));
                }
                true
            },
            None => {
                proof {
                    assert(self@ =~= complete_step(old(self)@, c@));
                }
                false
            },
        }
    }

    /// The dispatch-completion phase: fold every invocation that resolved
    /// this pass into the session, in resolution order. An individual handler
    /// failure is a normal outcome here, never a session failure.
    #[verifier::loop_isolation(false)]
    pub fn poll_futures(&mut self, completions: Vec<Completion>)
        requires
            !old(self)@.failed,
        ensures
            final(self)@ == complete_run(old(self)@, comps_view(completions@)),
    {
        let ghost s0 = self@;
        let ghost cv = comps_view(completions@);
        let mut completions = completions;
        let ghost mut processed: Seq<CompletionV> = Seq::empty();
        while completions.len() > 0
            invariant
                cv == processed + comps_view(completions@),
                self@ == complete_run(s0, processed),
                !self@.failed,
            decreases completions@.len(),
        {
            let ghost comps_before = completions@;
            let ghost s_pre = self@;
            let c = completions.remove(0);
            let ghost cvv = c@;
            proof {
                assert(comps_view(comps_before) =~= seq![cvv] + comps_view(completions@));
            }
            self.complete(c);
            proof {
                let pre = processed;
                lemma_complete_append(s0, pre, seq![cvv]);
                lemma_complete_one(s_pre, cvv);
                processed = pre.push(cvv);
                assert(processed =~= pre + seq![cvv]);
                assert(self@ == complete_run(s0, processed));
                assert(cv =~= processed + comps_view(completions@));
            }
        }
        proof {
            assert(processed =~= cv);
        }
    }

    /// The encode phase: hand every queued response to the encode half, in
    /// the order it was queued.
    #[verifier::loop_isolation(false)]
    pub fn poll_encoder(&mut self) -> (out: Vec<Response>)
        requires
            !old(self)@.failed,
        ensures
            resp_views(out@) == old(self)@.outbox,
            final(self)@ == (SessionV {
                inflight: old(self)@.inflight,
                outbox: Seq::empty(),
                decode_done: old(self)@.decode_done,
                failed: false,
            }),
    {
        let mut out: Vec<Response> = Vec::new();
        while self.outbox.len() > 0
            invariant
                old(self)@.outbox == resp_views(out@) + resp_views(self.outbox@),
                self.inflight@ == old(self)@.inflight,
                self.decode_done == old(self)@.decode_done,
                !self.failed,
            decreases self.outbox@.len(),
        {
            let ghost outbox_before = self.outbox@;
            let ghost out_before = out@;
            let r = self.outbox.remove(0);
            out.push(r);
            proof {
                assert(resp_views(outbox_before) =~= seq![r@] + resp_views(self.outbox@));
                assert(resp_views(out@) =~= resp_views(out_before).push(r@));
                assert(resp_views(out@) + resp_views(self.outbox@)
                    =~= (resp_views(out_before) + seq![r@]) + resp_views(self.outbox@));
                assert(old(self)@.outbox =~= resp_views(out@) + resp_views(self.outbox@));
            }
        }
        proof {
            assert(resp_views(self.outbox@) =~= Seq::<RespV>::empty());
            assert(resp_views(out@) =~= old(self)@.outbox);
            assert(self@ =~= SessionV {
                inflight: old(self)@.inflight,
                outbox: Seq::empty(),
                decode_done: old(self)@.decode_done,
                failed: false,
            });
        }
        out
    }

    /// One scheduling pass over the whole connection, in the fixed order
    /// decode → dispatch-completion → encode: decode may create work for
    /// dispatch and dispatch for encode, so no phase starves a later one
    /// within the same pass. A framing failure terminates the session at
    /// once: the pass reports the error, hands nothing to the encode half,
    /// and no response is ever emitted for work still in flight. Otherwise
    /// the pass reports the handler work to dispatch, the responses to
    /// encode, and whether the session is fully done — stream end seen,
    /// nothing in flight, and `flushed` reporting that the transport accepted
    /// everything.
    pub fn poll(
        &mut self,
        items: Vec<Result<Request, DecodeError>>,
        stream_end: bool,
        completions: Vec<Completion>,
        flushed: bool,
    ) -> (r: Result<SessionPoll, Vec<u8>>)
        requires
            !old(self)@.failed,
        ensures
            ({
                let s1 = decode_phase(old(self)@, items_view(items@), stream_end);
                let s2 = complete_run(s1, comps_view(completions@));
                &&& (r is Err <==> s1.failed)
                &&& (r matches Err(e) ==> final(self)@ == s1
                    && e@ == first_frame_error(items_view(items@)))
                &&& (r matches Ok(p) ==> {
                    &&& dispatches_view(p.dispatches@)
                        == decode_dispatches(old(self)@, items_view(items@))
                    &&& resp_views(p.emit@) == s2.outbox
                    &&& final(self)@ == SessionV {
                        inflight: s2.inflight,
                        outbox: Seq::empty(),
                        decode_done: s2.decode_done,
                        failed: false,
                    }
                    &&& p.done == (s2.decode_done && s2.inflight.len() == 0 && flushed)
                })
            }),
    {
        let dispatches = match self.poll_decoder(items, stream_end) {
            Ok(ds) => ds,
            Err(e) => {
                return Err(e);
            },
        };
        self.poll_futures(completions);
        proof {
            lemma_complete_preserves_flags(
                decode_phase(old(self)@, items_view(items@), stream_end),
                comps_view(completions@),
            );
        }
        let emit = self.poll_encoder();
        let done = self.decode_done && self.inflight.len() == 0 && flushed;
        Ok(SessionPoll { dispatches, emit, done })
    }
}

} // verus!
