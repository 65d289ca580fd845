use vstd::prelude::*;
use crate::protocol::{Message, MessageBody};
use crate::node::{
    Node, NodeError, step, gossip, gossip_targets, not_named, not_acked_by, distinct_names,
};

verus! {

broadcast use vstd::seq_lib::group_filter_ensures;

/// `states`, `msgs` and `outs` record a node handling `msgs` in turn: handling
/// `msgs[i]` takes it from `states[i]` to `states[i + 1]` and answers `outs[i]`.
pub open spec fn is_run(
    states: Seq<Node>,
    msgs: Seq<Message>,
    outs: Seq<Result<Vec<Message>, NodeError>>,
) -> bool {
    &&& states.len() == msgs.len() + 1
    &&& outs.len() == msgs.len()
    &&& forall|i: int|
        0 <= i < msgs.len() ==> #[trigger] step(states[i], msgs[i], states[i + 1], outs[i])
}

/// Every state of a run has room for the ids that one message may take.
pub open spec fn room_throughout(states: Seq<Node>) -> bool {
    forall|i: int| 0 <= i < states.len() ==> (#[trigger] states[i]).id_room()
}

/// The id carried by the `a`-th message sent at step `i` of a run.
pub open spec fn sent_id(outs: Seq<Result<Vec<Message>, NodeError>>, i: int, a: int) -> Option<usize> {
    outs[i]->Ok_0@[a].body.msg_id_of()
}

/// A handled message takes consecutive fresh ids: the `a`-th message sent carries
/// the counter plus `a + 1`, and the counter ends at the last id handed out.
/// A message turned away changes nothing.
pub proof fn lemma_step_ids(s0: Node, msg: Message, s1: Node, r: Result<Vec<Message>, NodeError>)
    requires
        step(s0, msg, s1, r),
        s0.id_room(),
    ensures
        r is Err ==> s1 == s0,
        r is Ok ==> s1.next_msg_id == s0.next_msg_id + r->Ok_0@.len(),
        r is Ok ==> forall|a: int|
            0 <= a < r->Ok_0@.len() ==> (#[trigger] r->Ok_0@[a]).body.msg_id_of() == Some(
                (s0.next_msg_id + 1 + a) as usize,
            ),
{
    if r is Ok {
        let out = r->Ok_0@;
        match msg.body {
            MessageBody::Broadcast { msg_id, message, .. } => {
                if let Some(n) = s0.neighbor_ids {
                    n@.lemma_filter_len(not_named(msg.src@));
                }
                let targets = gossip_targets(s0, msg.src, message);
                let k = targets.len() as int;
                assert forall|a: int| 0 <= a < out.len() implies (#[trigger] out[a]).body.msg_id_of()
                    == Some((s0.next_msg_id + 1 + a) as usize) by {
                    if a < k {
                        assert(out[a] == gossip(
                            s0.id,
                            targets[a],
                            (s0.next_msg_id + 1 + a) as usize,
                            msg_id,
                            message,
                        ));
                    }
                }
            },
            _ => {},
        }
    }
}

/// The id counter never goes down along a run.
pub proof fn lemma_run_counter(
    states: Seq<Node>,
    msgs: Seq<Message>,
    outs: Seq<Result<Vec<Message>, NodeError>>,
    i: int,
    j: int,
)
    requires
        is_run(states, msgs, outs),
        room_throughout(states),
        0 <= i <= j < states.len(),
    ensures
        states[i].next_msg_id <= states[j].next_msg_id,
    decreases j - i,
{
    if i < j {
        lemma_run_counter(states, msgs, outs, i, j - 1);
        assert(step(states[j - 1], msgs[j - 1], states[j - 1 + 1], outs[j - 1]));
        lemma_step_ids(states[j - 1], msgs[j - 1], states[j], outs[j - 1]);
    }
}

/// No two messages that a node sends carry the same id: any two messages sent in a
/// run, at steps `i` and `j` and positions `a` and `b`, are one message or differ in id.
pub proof fn lemma_ids_unique(
    states: Seq<Node>,
    msgs: Seq<Message>,
    outs: Seq<Result<Vec<Message>, NodeError>>,
    i: int,
    a: int,
    j: int,
    b: int,
)
    requires
        is_run(states, msgs, outs),
        room_throughout(states),
        0 <= i < msgs.len(),
        0 <= j < msgs.len(),
        outs[i] is Ok,
        outs[j] is Ok,
        0 <= a < outs[i]->Ok_0@.len(),
        0 <= b < outs[j]->Ok_0@.len(),
        i != j || a != b,
    ensures
        sent_id(outs, i, a) is Some,
        sent_id(outs, i, a) != sent_id(outs, j, b),
{
    assert(step(states[i], msgs[i], states[i + 1], outs[i]));
    assert(step(states[j], msgs[j], states[j + 1], outs[j]));
    lemma_step_ids(states[i], msgs[i], states[i + 1], outs[i]);
    lemma_step_ids(states[j], msgs[j], states[j + 1], outs[j]);
    assert(outs[i]->Ok_0@[a].body.msg_id_of() == Some((states[i].next_msg_id + 1 + a) as usize));
    assert(outs[j]->Ok_0@[b].body.msg_id_of() == Some((states[j].next_msg_id + 1 + b) as usize));
    if i < j {
        lemma_run_counter(states, msgs, outs, i + 1, j);
    } else if j < i {
        lemma_run_counter(states, msgs, outs, j + 1, i);
    }
}

/// A value received from a peer is never passed back to that peer: no `Broadcast`
/// that a node sends on handling a `Broadcast` goes to its sender.
pub proof fn lemma_no_gossip_to_sender(
    s0: Node,
    msg: Message,
    s1: Node,
    r: Result<Vec<Message>, NodeError>,
    a: int,
)
    requires
        step(s0, msg, s1, r),
        msg.body is Broadcast,
        r is Ok,
        0 <= a < r->Ok_0@.len(),
        r->Ok_0@[a].body is Broadcast,
    ensures
        r->Ok_0@[a].dest@ != msg.src@,
{
    let out = r->Ok_0@;
    let v = msg.body->Broadcast_message;
    let targets = gossip_targets(s0, msg.src, v);
    if a < targets.len() {
        assert(out[a] == gossip(
            s0.id,
            targets[a],
            (s0.next_msg_id + 1 + a) as usize,
            msg.body->Broadcast_msg_id,
            v,
        ));
        if let Some(n) = s0.neighbor_ids {
            n@.lemma_filter_pred(not_named(msg.src@), a);
        }
    }
}

/// A gossip message stays pending, and so is resent by every retry sweep, until a
/// `BroadcastOk` for its own id is handled.
pub proof fn lemma_pending_until_acked(
    s0: Node,
    msg: Message,
    s1: Node,
    r: Result<Vec<Message>, NodeError>,
    p: Message,
)
    requires
        step(s0, msg, s1, r),
        s0.pending@.contains(p),
        !(msg.body is BroadcastOk && msg.body->BroadcastOk_in_reply_to == p.body.msg_id_of()),
    ensures
        s1.pending@.contains(p),
{
    if r is Ok {
        let out = r->Ok_0@;
        let i = choose|i: int| 0 <= i < s0.pending@.len() && s0.pending@[i] == p;
        match msg.body {
            MessageBody::Broadcast { message, .. } => {
                let k = gossip_targets(s0, msg.src, message).len() as int;
                assert(s1.pending@[i] == p);
            },
            MessageBody::BroadcastOk { in_reply_to, .. } => {
                if let Some(k) = in_reply_to {
                    s0.pending@.lemma_filter_contains(not_acked_by(k), i);
                }
            },
            _ => {},
        }
    }
}

/// The record of seen values after delivering `v` to a node that had seen `seen`.
pub open spec fn seen_after(seen: Seq<usize>, v: usize) -> Seq<usize> {
    if seen.contains(v) {
        seen
    } else {
        seen.push(v)
    }
}

/// A `Broadcast` of a value already seen, to an initialized node, records nothing,
/// leaves the pending table alone, and is only acknowledged.
pub proof fn lemma_seen_broadcast_is_acknowledged_only(
    s0: Node,
    msg: Message,
    s1: Node,
    r: Result<Vec<Message>, NodeError>,
)
    requires
        step(s0, msg, s1, r),
        s0.initialized,
        msg.body is Broadcast,
        s0.messages@.contains(msg.body->Broadcast_message),
    ensures
        r is Ok,
        r->Ok_0@.len() == 1,
        r->Ok_0@[0].body is BroadcastOk,
        s1.messages@ == s0.messages@,
        s1.pending@ == s0.pending@,
        s1.initialized,
{
    assert(r->Ok_0@.take(0) =~= Seq::<Message>::empty());
    assert(s0.pending@ + Seq::<Message>::empty() =~= s0.pending@);
}

proof fn lemma_filter_distinct(s: Seq<String>, x: Seq<char>)
    requires
        distinct_names(s),
    ensures
        distinct_names(s.filter(not_named(x))),
    decreases s.len(),
{
    reveal(Seq::filter);
    if s.len() > 0 {
        let d = s.drop_last();
        assert forall|i: int, j: int| 0 <= i < d.len() && 0 <= j < d.len() && i != j implies d[i]@
            != d[j]@ by {
            assert(d[i] == s[i] && d[j] == s[j]);
        }
        lemma_filter_distinct(d, x);
        let f = d.filter(not_named(x));
        let r = s.filter(not_named(x));
        if not_named(x)(s.last()) {
            assert(r == f.push(s.last()));
            assert forall|i: int| 0 <= i < f.len() implies (#[trigger] f[i])@ != s.last()@ by {
                assert(f.contains(f[i]));
                d.lemma_filter_contains_rev(not_named(x), f[i]);
                let j = choose|j: int| 0 <= j < d.len() && d[j] == f[i];
                assert(s[j] == d[j]);
            }
            assert forall|i: int, j: int| 0 <= i < r.len() && 0 <= j < r.len() && i != j implies r[i]@
                != r[j]@ by {
                if i < f.len() && j < f.len() {
                    assert(r[i] == f[i] && r[j] == f[j]);
                } else if i < f.len() {
                    assert(r[i] == f[i]);
                } else {
                    assert(r[j] == f[j]);
                }
            }
        }
    }
}

/// Delivering a `Broadcast` of one value `v` to an initialized node any number of
/// times (at least once) records `v` exactly once, and passes it on at the first
/// delivery only, once to each of the peers it goes to: every later delivery is
/// only acknowledged.
pub proof fn lemma_broadcast_dedup(
    states: Seq<Node>,
    msgs: Seq<Message>,
    outs: Seq<Result<Vec<Message>, NodeError>>,
    v: usize,
)
    requires
        is_run(states, msgs, outs),
        msgs.len() >= 1,
        states[0].wf(),
        states[0].initialized,
        forall|i: int|
            0 <= i < msgs.len() ==> (#[trigger] msgs[i]).body is Broadcast
                && msgs[i].body->Broadcast_message == v,
    ensures
        states.last().messages@ == seen_after(states[0].messages@, v),
        outs[0] is Ok,
        outs[0]->Ok_0@.len() == gossip_targets(states[0], msgs[0].src, v).len() + 1,
        forall|a: int, b: int|
            0 <= a < b < outs[0]->Ok_0@.len() - 1 ==> outs[0]->Ok_0@[a].dest@
                != outs[0]->Ok_0@[b].dest@,
        forall|i: int|
            1 <= i < msgs.len() ==> (#[trigger] outs[i]) is Ok && outs[i]->Ok_0@.len() == 1
                && states[i + 1].pending@ == states[i].pending@,
{
    let first: int = 0;
    assert(msgs[first].body is Broadcast);
    assert(step(states[first], msgs[first], states[first + 1], outs[first]));
    let out = outs[0]->Ok_0@;
    let targets = gossip_targets(states[0], msgs[0].src, v);
    if let Some(n) = states[0].neighbor_ids {
        lemma_filter_distinct(n@, msgs[0].src@);
    }
    assert forall|a: int, b: int| 0 <= a < b < out.len() - 1 implies out[a].dest@ != out[b].dest@ by {
        assert(out[a].dest == targets[a]);
        assert(out[b].dest == targets[b]);
    }
    lemma_dedup_prefix(states, msgs, outs, v, msgs.len() as int);
    assert forall|i: int| 1 <= i < msgs.len() implies (#[trigger] outs[i]) is Ok
        && outs[i]->Ok_0@.len() == 1 && states[i + 1].pending@ == states[i].pending@ by {
        lemma_dedup_prefix(states, msgs, outs, v, i);
        assert(msgs[i].body is Broadcast);
        assert(step(states[i], msgs[i], states[i + 1], outs[i]));
        lemma_seen_broadcast_is_acknowledged_only(states[i], msgs[i], states[i + 1], outs[i]);
    }
}

proof fn lemma_dedup_prefix(
    states: Seq<Node>,
    msgs: Seq<Message>,
    outs: Seq<Result<Vec<Message>, NodeError>>,
    v: usize,
    m: int,
)
    requires
        is_run(states, msgs, outs),
        1 <= m <= msgs.len(),
        states[0].initialized,
        forall|i: int|
            0 <= i < msgs.len() ==> (#[trigger] msgs[i]).body is Broadcast
                && msgs[i].body->Broadcast_message == v,
    ensures
        states[m].messages@ == seen_after(states[0].messages@, v),
        states[m].messages@.contains(v),
        states[m].initialized,
    decreases m,
{
    assert(msgs[m - 1].body is Broadcast);
    assert(step(states[m - 1], msgs[m - 1], states[m - 1 + 1], outs[m - 1]));
    if m == 1 {
        if !states[0].messages@.contains(v) {
            assert(states[0].messages@.push(v)[states[0].messages@.len() as int] == v);
        }
    } else {
        lemma_dedup_prefix(states, msgs, outs, v, m - 1);
        lemma_seen_broadcast_is_acknowledged_only(states[m - 1], msgs[m - 1], states[m], outs[m - 1]);
    }
}

/// Once the acknowledgment of an id `k` that the node handed out is handled, no
/// message pending in any later state carries `k`: no retry sweep resends it again.
pub proof fn lemma_ack_suppresses_retry(
    states: Seq<Node>,
    msgs: Seq<Message>,
    outs: Seq<Result<Vec<Message>, NodeError>>,
    k: usize,
    m: int,
)
    requires
        is_run(states, msgs, outs),
        room_throughout(states),
        msgs.len() >= 1,
        msgs[0].body is BroadcastOk,
        msgs[0].body->BroadcastOk_in_reply_to == Some(k),
        states[0].initialized,
        k <= states[0].next_msg_id,
        1 <= m < states.len(),
    ensures
        forall|p: int|
            0 <= p < states[m].pending@.len() ==> (#[trigger] states[m].pending@[p]).body.msg_id_of()
                != Some(k),
    decreases m,
{
    let s0 = states[m - 1];
    let s1 = states[m];
    assert(step(states[m - 1], msgs[m - 1], states[m - 1 + 1], outs[m - 1]));
    if m == 1 {
        assert forall|p: int| 0 <= p < s1.pending@.len() implies (#[trigger] s1.pending@[p]).body.msg_id_of()
            != Some(k) by {
            s0.pending@.lemma_filter_pred(not_acked_by(k), p);
        }
    } else {
        lemma_ack_suppresses_retry(states, msgs, outs, k, m - 1);
        lemma_run_counter(states, msgs, outs, 0, m - 1);
        lemma_step_ids(s0, msgs[m - 1], s1, outs[m - 1]);
        if outs[m - 1] is Ok {
            let out = outs[m - 1]->Ok_0@;
            match msgs[m - 1].body {
                MessageBody::Broadcast { message, .. } => {
                    let n = gossip_targets(s0, msgs[m - 1].src, message).len() as int;
                    assert forall|p: int| 0 <= p < s1.pending@.len() implies (#[trigger] s1.pending@[p]).body.msg_id_of()
                        != Some(k) by {
                        if p >= s0.pending@.len() {
                            assert(s1.pending@[p] == out[p - s0.pending@.len()]);
                        } else {
                            assert(s1.pending@[p] == s0.pending@[p]);
                        }
                    }
                },
                MessageBody::BroadcastOk { in_reply_to, .. } => {
                    if let Some(k2) = in_reply_to {
                        assert forall|p: int| 0 <= p < s1.pending@.len() implies (#[trigger] s1.pending@[p]).body.msg_id_of()
                            != Some(k) by {
                            assert(s1.pending@.contains(s1.pending@[p]));
                            s0.pending@.lemma_filter_contains_rev(not_acked_by(k2), s1.pending@[p]);
                        }
                    }
                },
                _ => {},
            }
        }
    }
}

} // verus!