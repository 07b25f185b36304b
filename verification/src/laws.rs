use vstd::prelude::*;

use vstd::multiset::Multiset;

use crate::proto::DecodeErrorV;
use crate::proto::ReqV;
use crate::proto::RespV;
use crate::proto::req_seq;
use crate::proto::resp_seq;
use crate::session::CompletionV;
use crate::session::Invocation;
use crate::session::ItemV;
use crate::session::SessionV;
use crate::session::complete_run;
use crate::session::complete_step;
use crate::session::completions_valid;
use crate::session::decode_dispatches;
use crate::session::decode_run;
use crate::session::decode_step_state;
use crate::session::has_seq;
use crate::session::is_frame;
use crate::session::item_dispatches;
use crate::session::lemma_complete_one;
use crate::session::remove_seq;
use crate::session::session_init;
use crate::session::DispatchV;

verus! {

/// The sequence number one decode item is answered under: a request's own,
/// or, for a malformed request, the one its user-level failure carries.
pub open spec fn item_seq(it: ItemV) -> u64
    recommends
        !is_frame(it),
{
    match it {
        Ok(r) => req_seq(r),
        Err(DecodeErrorV::User { seq, .. }) => seq,
        Err(DecodeErrorV::Frame { .. }) => 0,
    }
}

/// The sequence numbers of a run of decode items, as a multiset.
pub open spec fn item_seqs(items: Seq<ItemV>) -> Multiset<u64>
    decreases items.len(),
{
    if items.len() == 0 {
        Multiset::empty()
    } else {
        item_seqs(items.drop_first()).insert(item_seq(items[0]))
    }
}

/// The sequence numbers a run of responses carries, as a multiset.
pub open spec fn resp_seqs(rs: Seq<RespV>) -> Multiset<u64>
    decreases rs.len(),
{
    if rs.len() == 0 {
        Multiset::empty()
    } else {
        resp_seqs(rs.drop_first()).insert(resp_seq(rs[0]))
    }
}

/// The sequence numbers of the in-flight records, as a multiset.
pub open spec fn inflight_seqs(infl: Seq<Invocation>) -> Multiset<u64>
    decreases infl.len(),
{
    if infl.len() == 0 {
        Multiset::empty()
    } else {
        inflight_seqs(infl.drop_first()).insert(infl[0].seq)
    }
}

pub proof fn lemma_resp_seqs_push(rs: Seq<RespV>, r: RespV)
    ensures
        resp_seqs(rs.push(r)) == resp_seqs(rs).insert(resp_seq(r)),
    decreases rs.len(),
{
    if rs.len() == 0 {
        assert(rs.push(r)[0] == r);
        assert(rs.push(r).drop_first() =~= Seq::<RespV>::empty());
        assert(resp_seqs(rs.push(r))
            == resp_seqs(rs.push(r).drop_first()).insert(resp_seq(rs.push(r)[0])));
        assert(resp_seqs(rs.push(r).drop_first()) == Multiset::<u64>::empty());
        assert(resp_seqs(rs) == Multiset::<u64>::empty());
    } else {
        assert(rs.push(r)[0] == rs[0]);
        assert(rs.push(r).drop_first() =~= rs.drop_first().push(r));
        assert(resp_seqs(rs.push(r))
            == resp_seqs(rs.push(r).drop_first()).insert(resp_seq(rs.push(r)[0])));
        lemma_resp_seqs_push(rs.drop_first(), r);
        assert(resp_seqs(rs) == resp_seqs(rs.drop_first()).insert(resp_seq(rs[0])));
        assert(resp_seqs(rs.drop_first()).insert(resp_seq(r)).insert(resp_seq(rs[0]))
            =~= resp_seqs(rs.drop_first()).insert(resp_seq(rs[0])).insert(resp_seq(r)));
    }
}

pub proof fn lemma_inflight_seqs_push(infl: Seq<Invocation>, inv: Invocation)
    ensures
        inflight_seqs(infl.push(inv)) == inflight_seqs(infl).insert(inv.seq),
    decreases infl.len(),
{
    if infl.len() == 0 {
        assert(infl.push(inv)[0] == inv);
        assert(infl.push(inv).drop_first() =~= Seq::<Invocation>::empty());
        assert(inflight_seqs(infl.push(inv))
            == inflight_seqs(infl.push(inv).drop_first()).insert(infl.push(inv)[0].seq));
        assert(inflight_seqs(infl.push(inv).drop_first()) == Multiset::<u64>::empty());
        assert(inflight_seqs(infl) == Multiset::<u64>::empty());
    } else {
        assert(infl.push(inv)[0] == infl[0]);
        assert(infl.push(inv).drop_first() =~= infl.drop_first().push(inv));
        assert(inflight_seqs(infl.push(inv))
            == inflight_seqs(infl.push(inv).drop_first()).insert(infl.push(inv)[0].seq));
        lemma_inflight_seqs_push(infl.drop_first(), inv);
        assert(inflight_seqs(infl) == inflight_seqs(infl.drop_first()).insert(infl[0].seq));
        assert(inflight_seqs(infl.drop_first()).insert(inv.seq).insert(infl[0].seq)
            =~= inflight_seqs(infl.drop_first()).insert(infl[0].seq).insert(inv.seq));
    }
}

/// A sequence number with an in-flight record occurs in the multiset.
pub proof fn lemma_has_seq_count(infl: Seq<Invocation>, seq: u64)
    requires
        has_seq(infl, seq),
    ensures
        inflight_seqs(infl).count(seq) > 0,
    decreases infl.len(),
{
    let i = choose|i: int| 0 <= i < infl.len() && infl[i].seq == seq;
    if i > 0 {
        assert(infl.drop_first()[i - 1] == infl[i]);
        assert(has_seq(infl.drop_first(), seq));
        lemma_has_seq_count(infl.drop_first(), seq);
    }
}

/// Removing the earliest record bearing `seq` removes one occurrence of `seq`
/// from the multiset.
pub proof fn lemma_inflight_seqs_remove(infl: Seq<Invocation>, seq: u64)
    requires
        has_seq(infl, seq),
    ensures
        inflight_seqs(remove_seq(infl, seq)) == inflight_seqs(infl).remove(seq),
    decreases infl.len(),
{
    let i = choose|i: int| 0 <= i < infl.len() && infl[i].seq == seq;
    if infl[0].seq == seq {
        assert(remove_seq(infl, seq) == infl.drop_first());
        assert(inflight_seqs(infl.drop_first())
            =~= inflight_seqs(infl.drop_first()).insert(seq).remove(seq));
    } else {
        assert(i > 0);
        assert(infl.drop_first()[i - 1] == infl[i]);
        assert(has_seq(infl.drop_first(), seq));
        lemma_inflight_seqs_remove(infl.drop_first(), seq);
        let rem = remove_seq(infl.drop_first(), seq);
        assert(remove_seq(infl, seq) == seq![infl[0]] + rem);
        assert((seq![infl[0]] + rem)[0] == infl[0]);
        assert((seq![infl[0]] + rem).drop_first() =~= rem);
        assert(inflight_seqs(infl.drop_first()).remove(seq).insert(infl[0].seq)
            =~= inflight_seqs(infl.drop_first()).insert(infl[0].seq).remove(seq));
    }
}

/// Through a fatal-error-free decode phase, every item's sequence number goes
/// to exactly one place: the response queue (pings and user-level failures)
/// or the in-flight set (invokes). Nothing else ever enters either.
pub proof fn lemma_decode_conservation(s: SessionV, items: Seq<ItemV>)
    requires
        !s.failed,
        forall|j: int| 0 <= j < items.len() ==> !is_frame(#[trigger] items[j]),
    ensures
        !decode_run(s, items).failed,
        resp_seqs(decode_run(s, items).outbox).add(inflight_seqs(decode_run(s, items).inflight))
            == resp_seqs(s.outbox).add(inflight_seqs(s.inflight)).add(item_seqs(items)),
    decreases items.len(),
{
    let run = decode_run(s, items);
    if items.len() == 0 {
        assert(item_seqs(items) =~= Multiset::<u64>::empty());
        assert(resp_seqs(s.outbox).add(inflight_seqs(s.inflight)).add(Multiset::empty())
            =~= resp_seqs(s.outbox).add(inflight_seqs(s.inflight)));
    } else {
        let it = items[0];
        let s1 = decode_step_state(s, it);
        assert(!is_frame(it));
        assert(!s1.failed);
        assert(forall|j: int| 0 <= j < items.drop_first().len()
            ==> !is_frame(#[trigger] items.drop_first()[j]));
        lemma_decode_conservation(s1, items.drop_first());
        let x = item_seq(it);
        match it {
            Ok(ReqV::Ping { seq }) => {
                lemma_resp_seqs_push(s.outbox, RespV::Ping { seq });
            },
            Ok(ReqV::Invoke { seq, deadline, ctx, .. }) => {
                lemma_inflight_seqs_push(s.inflight, Invocation { seq, deadline, ctx });
            },
            Err(DecodeErrorV::User { seq, error }) => {
                lemma_resp_seqs_push(s.outbox, RespV::Invoke { seq, outcome: Err(error) });
            },
            Err(DecodeErrorV::Frame { .. }) => {
                assert(false);
            },
        }
        assert(resp_seqs(s1.outbox).add(inflight_seqs(s1.inflight))
            =~= resp_seqs(s.outbox).add(inflight_seqs(s.inflight)).insert(x));
        assert(resp_seqs(s.outbox).add(inflight_seqs(s.inflight)).insert(x)
            .add(item_seqs(items.drop_first()))
            =~= resp_seqs(s.outbox).add(inflight_seqs(s.inflight))
            .add(item_seqs(items.drop_first()).insert(x)));
        assert(item_seqs(items) == item_seqs(items.drop_first()).insert(x));
    }
}

/// Through the dispatch-completion phase, sequence numbers only move from the
/// in-flight set to the response queue, one response per resolution: none is
/// lost and none is invented.
pub proof fn lemma_complete_conservation(s: SessionV, comps: Seq<CompletionV>)
    requires
        !s.failed,
        completions_valid(s.inflight, comps),
    ensures
        !complete_run(s, comps).failed,
        resp_seqs(complete_run(s, comps).outbox).add(inflight_seqs(complete_run(s, comps).inflight))
            == resp_seqs(s.outbox).add(inflight_seqs(s.inflight)),
    decreases comps.len(),
{
    if comps.len() > 0 {
        let c = comps[0];
        let s1 = complete_step(s, c);
        assert(has_seq(s.inflight, c.seq));
        lemma_resp_seqs_push(s.outbox, RespV::Invoke { seq: c.seq, outcome: c.outcome });
        lemma_inflight_seqs_remove(s.inflight, c.seq);
        lemma_has_seq_count(s.inflight, c.seq);
        assert(resp_seqs(s1.outbox).add(inflight_seqs(s1.inflight))
            =~= resp_seqs(s.outbox).add(inflight_seqs(s.inflight)));
        lemma_complete_conservation(s1, comps.drop_first());
    }
}

/// Every request decoded on one session — ping, invoke, or a malformed
/// request answered as a user-level failure — yields exactly one response
/// bearing its own sequence number, as long as no connection-fatal error
/// occurs: once every invocation has resolved, the sequence numbers of the
/// queued responses are, as a multiset, exactly those of the decoded items.
/// With distinct sequence numbers this is one response per request, neither
/// lost nor duplicated.
pub proof fn lemma_every_request_answered(items: Seq<ItemV>, comps: Seq<CompletionV>)
    requires
        forall|j: int| 0 <= j < items.len() ==> !is_frame(#[trigger] items[j]),
        completions_valid(decode_run(session_init(), items).inflight, comps),
        complete_run(decode_run(session_init(), items), comps).inflight.len() == 0,
    ensures
        resp_seqs(complete_run(decode_run(session_init(), items), comps).outbox)
            == item_seqs(items),
{
    let s0 = session_init();
    lemma_decode_conservation(s0, items);
    let s1 = decode_run(s0, items);
    lemma_complete_conservation(s1, comps);
    let s2 = complete_run(s1, comps);
    assert(resp_seqs(s0.outbox) =~= Multiset::<u64>::empty());
    assert(inflight_seqs(s0.inflight) =~= Multiset::<u64>::empty());
    assert(inflight_seqs(s2.inflight) =~= Multiset::<u64>::empty());
    assert(resp_seqs(s2.outbox)
        =~= resp_seqs(s2.outbox).add(inflight_seqs(s2.inflight)));
    assert(resp_seqs(s1.outbox).add(inflight_seqs(s1.inflight))
        =~= item_seqs(items));
}

/// A user-level decode failure at any point is answered with exactly one
/// failure response bearing its own sequence number, touches nothing in
/// flight, does not fail the session, and what follows it on the same
/// connection is processed exactly as it would have been.
pub proof fn lemma_user_error_recovered(s: SessionV, seq: u64, error: Seq<u8>, rest: Seq<ItemV>)
    requires
        !s.failed,
    ensures
        ({
            let it: ItemV = Err(DecodeErrorV::User { seq, error });
            let s1 = decode_step_state(s, it);
            &&& s1.outbox == s.outbox.push(RespV::Invoke { seq, outcome: Err(error) })
            &&& s1.inflight == s.inflight
            &&& !s1.failed
            &&& decode_run(s, seq![it] + rest) == decode_run(s1, rest)
        }),
{
    let it: ItemV = Err(DecodeErrorV::User { seq, error });
    assert((seq![it] + rest)[0] == it);
    assert((seq![it] + rest).drop_first() =~= rest);
}

/// A framing failure at any point terminates the session: the state is left
/// exactly as it stood but fatally failed, every item decoded after it is
/// absorbed, no further handler work is dispatched, and no completion — so no
/// response — is ever folded in for the work still in flight.
pub proof fn lemma_frame_error_fatal(
    s: SessionV,
    error: Seq<u8>,
    rest: Seq<ItemV>,
    later: Seq<ItemV>,
    comps: Seq<CompletionV>,
)
    requires
        !s.failed,
    ensures
        ({
            let s1 = decode_run(s, seq![Err(DecodeErrorV::Frame { error })] + rest);
            &&& s1 == (SessionV {
                inflight: s.inflight,
                outbox: s.outbox,
                decode_done: s.decode_done,
                failed: true,
            })
            &&& decode_run(s1, later) == s1
            &&& decode_dispatches(s1, later) == Seq::<DispatchV>::empty()
            &&& complete_run(s1, comps) == s1
        }),
    decreases comps.len(),
{
    let it: ItemV = Err(DecodeErrorV::Frame { error });
    assert((seq![it] + rest)[0] == it);
    assert((seq![it] + rest).drop_first() =~= rest);
    let s1 = decode_step_state(s, it);
    crate::session::lemma_failed_absorbs(s1, rest);
    crate::session::lemma_failed_absorbs(s1, later);
    if comps.len() > 0 {
        assert(complete_step(s1, comps[0]) == s1);
        lemma_frame_error_fatal(s, error, rest, later, comps.drop_first());
    }
}

/// The response each resolution is answered with.
pub open spec fn resps_of(comps: Seq<CompletionV>) -> Seq<RespV> {
    comps.map_values(|c: CompletionV| RespV::Invoke { seq: c.seq, outcome: c.outcome })
}

/// Responses leave in resolution order, whatever the arrival order of their
/// invocations: a dispatch-completion phase appends to the queue exactly one
/// response per resolution, in the order the resolutions came.
pub proof fn lemma_responses_follow_completion_order(s: SessionV, comps: Seq<CompletionV>)
    requires
        !s.failed,
        completions_valid(s.inflight, comps),
    ensures
        complete_run(s, comps).outbox == s.outbox + resps_of(comps),
    decreases comps.len(),
{
    if comps.len() == 0 {
        assert(resps_of(comps) =~= Seq::<RespV>::empty());
        assert(s.outbox + resps_of(comps) =~= s.outbox);
    } else {
        let c = comps[0];
        let s1 = complete_step(s, c);
        lemma_responses_follow_completion_order(s1, comps.drop_first());
        assert(resps_of(comps)
            =~= seq![RespV::Invoke { seq: c.seq, outcome: c.outcome }]
            + resps_of(comps.drop_first()));
        assert(s.outbox.push(RespV::Invoke { seq: c.seq, outcome: c.outcome })
            + resps_of(comps.drop_first())
            =~= s.outbox + resps_of(comps));
    }
}

/// Of two in-flight invocations, whichever resolves first is answered first,
/// even where it was decoded later: the slow one decoded first does not hold
/// back the fast one decoded after it.
pub proof fn lemma_resolution_order_free(s: SessionV, c1: CompletionV, c2: CompletionV)
    requires
        !s.failed,
        has_seq(s.inflight, c1.seq),
        has_seq(remove_seq(s.inflight, c1.seq), c2.seq),
    ensures
        complete_run(s, seq![c1, c2]).outbox == s.outbox
            .push(RespV::Invoke { seq: c1.seq, outcome: c1.outcome })
            .push(RespV::Invoke { seq: c2.seq, outcome: c2.outcome }),
{
    let s1 = complete_step(s, c1);
    assert(seq![c1, c2][0] == c1);
    assert(seq![c1, c2].drop_first() =~= seq![c2]);
    assert(complete_run(s, seq![c1, c2]) == complete_run(s1, seq![c1, c2].drop_first()));
    lemma_complete_one(s1, c2);
}

/// The handler work dispatched for a run of items: exactly its invokes, in
/// arrival order, each carrying its own request's context scope, deadline and
/// payload.
pub open spec fn invokes_of(items: Seq<ItemV>) -> Seq<DispatchV>
    decreases items.len(),
{
    if items.len() == 0 {
        Seq::empty()
    } else {
        item_dispatches(items[0]) + invokes_of(items.drop_first())
    }
}

/// The in-flight record one dispatch leaves behind: the same sequence number,
/// deadline and context scope.
pub open spec fn record_of(d: DispatchV) -> Invocation {
    Invocation { seq: d.seq, deadline: d.deadline, ctx: d.ctx }
}

pub open spec fn records_of(ds: Seq<DispatchV>) -> Seq<Invocation> {
    ds.map_values(|d: DispatchV| record_of(d))
}

/// Context isolation: however many invocations are in flight together, the
/// decode phase hands each handler call exactly the context scope, deadline
/// and payload of its own originating request — the dispatches are precisely
/// the invoke items, in order — and each in-flight record keeps exactly its
/// own dispatch's scope, so every poll of that work is entered under it.
pub proof fn lemma_context_isolation(s: SessionV, items: Seq<ItemV>)
    requires
        !s.failed,
        forall|j: int| 0 <= j < items.len() ==> !is_frame(#[trigger] items[j]),
    ensures
        decode_dispatches(s, items) == invokes_of(items),
        decode_run(s, items).inflight == s.inflight + records_of(invokes_of(items)),
    decreases items.len(),
{
    if items.len() == 0 {
        assert(records_of(invokes_of(items)) =~= Seq::<Invocation>::empty());
        assert(s.inflight + records_of(invokes_of(items)) =~= s.inflight);
    } else {
        let it = items[0];
        let s1 = decode_step_state(s, it);
        assert(!is_frame(it));
        assert(!s1.failed);
        assert(forall|j: int| 0 <= j < items.drop_first().len()
            ==> !is_frame(#[trigger] items.drop_first()[j]));
        lemma_context_isolation(s1, items.drop_first());
        let tail = invokes_of(items.drop_first());
        assert(records_of(item_dispatches(it) + tail)
            =~= records_of(item_dispatches(it)) + records_of(tail));
        match it {
            Ok(ReqV::Invoke { seq, deadline, ctx, payload }) => {
                let d = DispatchV { seq, deadline, ctx, payload };
                assert(records_of(item_dispatches(it)) =~= seq![record_of(d)]);
                assert(s.inflight.push(record_of(d)) + records_of(tail)
                    =~= s.inflight + (seq![record_of(d)] + records_of(tail)));
            },
            _ => {
                assert(records_of(item_dispatches(it)) =~= Seq::<Invocation>::empty());
                assert(s.inflight + (Seq::<Invocation>::empty() + records_of(tail))
                    =~= s.inflight + records_of(tail));
            },
        }
    }
}

} // verus!
