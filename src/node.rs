use vstd::prelude::*;
use crate::protocol::{Message, MessageBody};

verus! {

/// Why a node declined to handle a message.
#[derive(Debug, Clone, Copy, PartialEq, Eq, Structural)]
pub enum NodeError {
    /// The message's kind has no handler.
    UnsupportedMessageKind,
    /// A request other than `Init` arrived before the node learned its id.
    NotInitialized,
}

/// The state of one node of the cluster.
pub struct Node {
    /// This node's id, set by the first `Init`.
    pub id: String,
    /// Every node id of the cluster, set by the first `Init`.
    pub ids: Vec<String>,
    /// The peers this node gossips to; absent until a `Topology` names them.
    pub neighbor_ids: Option<Vec<String>>,
    /// The last local message id handed out; the next one is one more.
    pub next_msg_id: usize,
    /// The broadcast values seen so far, each once.
    pub messages: Vec<usize>,
    /// Gossip messages sent and not yet acknowledged, in the order they were sent.
    pub pending: Vec<Message>,
    /// Whether an `Init` has been handled.
    pub initialized: bool,
}

/// The id that a gossip message is retried and acknowledged under (0 when it has none).
pub open spec fn gossip_id(m: Message) -> int {
    match m.body.msg_id_of() {
        Some(k) => k as int,
        None => 0,
    }
}

/// A pending-acknowledgment table: gossip messages with ids handed out so far,
/// in strictly increasing id order.
pub open spec fn pending_ok(p: Seq<Message>, next: usize) -> bool {
    &&& forall|i: int|
        0 <= i < p.len() ==> (#[trigger] p[i]).body is Broadcast && 0 < gossip_id(p[i]) <= next
    &&& forall|i: int, j: int| 0 <= i < j < p.len() ==> gossip_id(p[i]) < gossip_id(p[j])
}

/// The gossip message that carries value `v` from `src` to `dest` under id `id`.
pub open spec fn gossip(src: String, dest: String, id: usize, in_reply_to: Option<usize>, v: usize) -> Message {
    Message {
        src,
        dest,
        body: MessageBody::Broadcast { msg_id: Some(id), in_reply_to, message: v },
    }
}

/// Holds of the strings that do not read `x`.
pub open spec fn not_named(x: Seq<char>) -> spec_fn(String) -> bool {
    |s: String| s@ != x
}

/// Holds of the messages that do not carry the id `k`.
pub open spec fn not_acked_by(k: usize) -> spec_fn(Message) -> bool {
    |m: Message| m.body.msg_id_of() != Some(k)
}

/// No two strings of `s` read the same.
pub open spec fn distinct_names(s: Seq<String>) -> bool {
    forall|i: int, j: int| 0 <= i < s.len() && 0 <= j < s.len() && i != j ==> s[i]@ != s[j]@
}

/// The peers a value received from `sender` is passed on to: every neighbor but the sender.
pub open spec fn fanout_targets(neighbors: Option<Vec<String>>, sender: String) -> Seq<String> {
    match neighbors {
        Some(n) => n@.filter(not_named(sender@)),
        None => Seq::empty(),
    }
}

/// The neighbor list that a topology gives node `id`: the first entry for `id`.
pub open spec fn topology_lookup(t: Seq<(String, Vec<String>)>, id: String) -> Option<Seq<String>>
    decreases t.len(),
{
    if t.len() == 0 {
        None
    } else if t[0].0@ == id@ {
        Some(t[0].1@)
    } else {
        topology_lookup(t.subrange(1, t.len() as int), id)
    }
}

/// Whether `s` holds a string that reads `x`.
pub open spec fn names(s: Seq<String>, x: Seq<char>) -> bool {
    exists|i: int| 0 <= i < s.len() && (#[trigger] s[i])@ == x
}

/// A neighbor list as a set: each peer once, in order of first mention, never `own`.
pub open spec fn neighbor_set(s: Seq<String>, own: String) -> Seq<String>
    decreases s.len(),
{
    if s.len() == 0 {
        Seq::empty()
    } else {
        let prev = neighbor_set(s.drop_last(), own);
        if s.last()@ == own@ || names(prev, s.last()@) {
            prev
        } else {
            prev.push(s.last())
        }
    }
}

/// The kinds that are answered with a reply.
pub open spec fn has_reply(b: MessageBody) -> bool {
    match b {
        MessageBody::Init { .. } | MessageBody::Echo { .. } | MessageBody::Topology { .. }
        | MessageBody::Broadcast { .. } | MessageBody::Read { .. } => true,
        _ => false,
    }
}

/// `reply` is the acknowledgment of `req` sent by `node_id` under id `id`,
/// with `seen` as the values a `ReadOk` reports.
pub open spec fn is_ok_reply(req: Message, reply: Message, node_id: String, id: usize, seen: Seq<usize>) -> bool {
    &&& reply.src == node_id
    &&& reply.dest == req.src
    &&& match req.body {
        MessageBody::Init { msg_id, .. } => reply.body
            == MessageBody::InitOk { msg_id: Some(id), in_reply_to: msg_id },
        MessageBody::Echo { msg_id, echo, .. } => reply.body
            == MessageBody::EchoOk { msg_id: Some(id), in_reply_to: msg_id, echo },
        MessageBody::Topology { msg_id, .. } => reply.body
            == MessageBody::TopologyOk { msg_id: Some(id), in_reply_to: msg_id },
        MessageBody::Broadcast { msg_id, .. } => reply.body
            == MessageBody::BroadcastOk { msg_id: Some(id), in_reply_to: msg_id },
        MessageBody::Read { msg_id, .. } => match reply.body {
            MessageBody::ReadOk { msg_id: m, in_reply_to: r, messages } => m == Some(id) && r
                == msg_id && messages@ == seen,
            _ => false,
        },
        _ => false,
    }
}

proof fn lemma_neighbor_set_wf(s: Seq<String>, own: String)
    ensures
        distinct_names(neighbor_set(s, own)),
        !names(neighbor_set(s, own), own@),
    decreases s.len(),
{
    if s.len() > 0 {
        lemma_neighbor_set_wf(s.drop_last(), own);
        let prev = neighbor_set(s.drop_last(), own);
        let r = neighbor_set(s, own);
        if !(s.last()@ == own@ || names(prev, s.last()@)) {
            assert(r == prev.push(s.last()));
            assert forall|i: int, j: int| 0 <= i < r.len() && 0 <= j < r.len() && i != j implies r[i]@
                != r[j]@ by {
                if i < prev.len() && j < prev.len() {
                    assert(r[i] == prev[i] && r[j] == prev[j]);
                } else if i < prev.len() {
                    assert(r[i] == prev[i]);
                } else {
                    assert(r[j] == prev[j]);
                }
            }
            assert forall|i: int| 0 <= i < r.len() implies (#[trigger] r[i])@ != own@ by {
                if i < prev.len() {
                    assert(r[i] == prev[i]);
                }
            }
        }
    }
}

fn copy_strings(v: &Vec<String>) -> (r: Vec<String>)
    ensures
        r@ == v@,
{
    let mut r: Vec<String> = Vec::new();
    let mut i: usize = 0;
    while i < v.len()
        invariant
            i <= v.len(),
            r@ == v@.take(i as int),
        decreases v.len() - i,
    {
        r.push(v[i].clone());
        i += 1;
        assert(r@ =~= v@.take(i as int));
    }
    assert(v@.take(v.len() as int) =~= v@);
    r
}

fn copy_values(v: &Vec<usize>) -> (r: Vec<usize>)
    ensures
        r@ == v@,
{
    let mut r: Vec<usize> = Vec::new();
    let mut i: usize = 0;
    while i < v.len()
        invariant
            i <= v.len(),
            r@ == v@.take(i as int),
        decreases v.len() - i,
    {
        r.push(v[i]);
        i += 1;
        assert(r@ =~= v@.take(i as int));
    }
    assert(v@.take(v.len() as int) =~= v@);
    r
}

fn contains_value(v: &Vec<usize>, x: usize) -> (r: bool)
    ensures
        r == v@.contains(x),
{
    let mut i: usize = 0;
    while i < v.len()
        invariant
            i <= v.len(),
            forall|j: int| 0 <= j < i ==> v@[j] != x,
        decreases v.len() - i,
    {
        if v[i] == x {
            return true;
        }
        i += 1;
    }
    false
}

fn contains_string(v: &Vec<String>, x: &String) -> (r: bool)
    ensures
        r == names(v@, x@),
{
    let mut i: usize = 0;
    while i < v.len()
        invariant
            i <= v.len(),
            forall|j: int| 0 <= j < i ==> v@[j]@ != x@,
        decreases v.len() - i,
    {
        if v[i] == *x {
            return true;
        }
        i += 1;
    }
    false
}

/// A copy of a gossip message, field for field.
fn copy_gossip(m: &Message) -> (r: Message)
    requires
        m.body is Broadcast,
    ensures
        r == *m,
{
    match &m.body {
        MessageBody::Broadcast { msg_id, in_reply_to, message } => Message {
            src: m.src.clone(),
            dest: m.dest.clone(),
            body: MessageBody::Broadcast {
                msg_id: *msg_id,
                in_reply_to: *in_reply_to,
                message: *message,
            },
        },
        _ => {
            proof {
                assert(false);
            }
            Message {
                src: m.src.clone(),
                dest: m.dest.clone(),
                body: MessageBody::BroadcastOk { msg_id: None, in_reply_to: None },
            }
        },
    }
}

/// The neighbor set that `s` names for node `own`.
fn neighbor_list(s: &Vec<String>, own: &String) -> (r: Vec<String>)
    ensures
        r@ == neighbor_set(s@, *own),
{
    let mut r: Vec<String> = Vec::new();
    let mut i: usize = 0;
    while i < s.len()
        invariant
            i <= s.len(),
            r@ == neighbor_set(s@.take(i as int), *own),
        decreases s.len() - i,
    {
        proof {
            assert(s@.take(i + 1).drop_last() =~= s@.take(i as int));
        }
        let x = &s[i];
        if !(*x == *own) && !contains_string(&r, x) {
            r.push(x.clone());
        }
        i += 1;
    }
    assert(s@.take(s.len() as int) =~= s@);
    r
}

/// The neighbor set that `topology` gives node `own`, if it has an entry for it.
fn neighbors_of(topology: &Vec<(String, Vec<String>)>, own: &String) -> (r: Option<Vec<String>>)
    ensures
        match topology_lookup(topology@, *own) {
            None => r is None,
            Some(n) => r is Some && r->Some_0@ == neighbor_set(n, *own),
        },
{
    let mut i: usize = 0;
    assert(topology@.subrange(0, topology@.len() as int) =~= topology@);
    while i < topology.len()
        invariant
            i <= topology.len(),
            topology_lookup(topology@, *own) == topology_lookup(
                topology@.subrange(i as int, topology@.len() as int),
                *own,
            ),
        decreases topology.len() - i,
    {
        let ghost rest = topology@.subrange(i as int, topology@.len() as int);
        assert(rest[0] == topology@[i as int]);
        if topology[i].0 == *own {
            return Some(neighbor_list(&topology[i].1, own));
        }
        assert(rest.subrange(1, rest.len() as int) =~= topology@.subrange(
            i + 1,
            topology@.len() as int,
        ));
        i += 1;
    }
    None
}

/// The peers that a value received from `sender` goes to.
fn fanout(neighbors: &Option<Vec<String>>, sender: &String) -> (r: Vec<String>)
    ensures
        r@ == fanout_targets(*neighbors, *sender),
{
    match neighbors {
        None => Vec::new(),
        Some(n) => {
            let mut r: Vec<String> = Vec::new();
            let mut i: usize = 0;
            while i < n.len()
                invariant
                    i <= n.len(),
                    r@ == n@.take(i as int).filter(not_named(sender@)),
                decreases n.len() - i,
            {
                proof {
                    reveal(Seq::filter);
                    assert(n@.take(i + 1).drop_last() =~= n@.take(i as int));
                }
                if !(n[i] == *sender) {
                    r.push(n[i].clone());
                }
                i += 1;
            }
            assert(n@.take(n.len() as int) =~= n@);
            r
        },
    }
}

/// Why a node in state `s` turns `body` away, if it does.
pub open spec fn rejection(s: Node, body: MessageBody) -> Option<NodeError> {
    if !body.is_handled_kind() {
        Some(NodeError::UnsupportedMessageKind)
    } else if !s.initialized && !(body is Init) {
        Some(NodeError::NotInitialized)
    } else {
        None
    }
}

/// The peers that a `Broadcast` of `v` from `sender` is passed on to by a node
/// in state `s`: none when `v` was seen already.
pub open spec fn gossip_targets(s: Node, sender: String, v: usize) -> Seq<String> {
    if s.messages@.contains(v) {
        Seq::empty()
    } else {
        fanout_targets(s.neighbor_ids, sender)
    }
}

/// A node in state `s0` that accepts `msg` comes to state `s1` and sends `out`, in order.
pub open spec fn accepted_step(s0: Node, msg: Message, s1: Node, out: Seq<Message>) -> bool {
    match msg.body {
        MessageBody::Init { node_id, node_ids, .. } => {
            &&& out.len() == 1
            &&& s1.initialized
            &&& s1.id == (if s0.initialized { s0.id } else { node_id })
            &&& s1.ids@ == (if s0.initialized { s0.ids@ } else { node_ids@ })
            &&& s1 == (Node {
                id: s1.id,
                ids: s1.ids,
                initialized: true,
                next_msg_id: (s0.next_msg_id + 1) as usize,
                ..s0
            })
            &&& is_ok_reply(msg, out[0], s1.id, s1.next_msg_id, s1.messages@)
        },
        MessageBody::Topology { topology, .. } => {
            &&& out.len() == 1
            &&& match topology_lookup(topology@, s0.id) {
                None => s1.neighbor_ids is None,
                Some(n) => s1.neighbor_ids is Some && s1.neighbor_ids->Some_0@ == neighbor_set(
                    n,
                    s0.id,
                ),
            }
            &&& s1 == (Node {
                neighbor_ids: s1.neighbor_ids,
                next_msg_id: (s0.next_msg_id + 1) as usize,
                ..s0
            })
            &&& is_ok_reply(msg, out[0], s0.id, s1.next_msg_id, s0.messages@)
        },
        MessageBody::Broadcast { msg_id, message, .. } => {
            let targets = gossip_targets(s0, msg.src, message);
            let k = targets.len();
            &&& out.len() == k + 1
            &&& forall|j: int|
                0 <= j < k ==> #[trigger] out[j] == gossip(
                    s0.id,
                    targets[j],
                    (s0.next_msg_id + 1 + j) as usize,
                    msg_id,
                    message,
                )
            &&& s1.messages@ == (if s0.messages@.contains(message) {
                s0.messages@
            } else {
                s0.messages@.push(message)
            })
            &&& s1.pending@ == s0.pending@ + out.take(k as int)
            &&& s1 == (Node {
                messages: s1.messages,
                pending: s1.pending,
                next_msg_id: (s0.next_msg_id + k + 1) as usize,
                ..s0
            })
            &&& is_ok_reply(msg, out[k as int], s0.id, s1.next_msg_id, s1.messages@)
        },
        MessageBody::BroadcastOk { in_reply_to, .. } => {
            &&& out.len() == 0
            &&& s1.pending@ == match in_reply_to {
                Some(k) => s0.pending@.filter(not_acked_by(k)),
                None => s0.pending@,
            }
            &&& s1 == (Node { pending: s1.pending, ..s0 })
        },
        _ => {
            &&& out.len() == 1
            &&& s1 == (Node { next_msg_id: (s0.next_msg_id + 1) as usize, ..s0 })
            &&& is_ok_reply(msg, out[0], s0.id, s1.next_msg_id, s0.messages@)
        },
    }
}

/// A node in state `s0` handling `msg` comes to state `s1` and answers `r`:
/// the messages it sends, in order, or why it turned `msg` away, unchanged.
pub open spec fn step(s0: Node, msg: Message, s1: Node, r: Result<Vec<Message>, NodeError>) -> bool {
    match rejection(s0, msg.body) {
        Some(e) => r == Err::<Vec<Message>, NodeError>(e) && s1 == s0,
        None => r is Ok && accepted_step(s0, msg, s1, r->Ok_0@),
    }
}

impl Node {
    /// The node's invariant: each seen value once, a well-ordered pending table,
    /// and neighbors (only once initialized) that are distinct and never the node itself.
    pub open spec fn wf(&self) -> bool {
        &&& self.messages@.no_duplicates()
        &&& pending_ok(self.pending@, self.next_msg_id)
        &&& match self.neighbor_ids {
            Some(n) => self.initialized && distinct_names(n@) && !names(n@, self.id@),
            None => true,
        }
    }

    /// How many neighbors the node has.
    pub open spec fn neighbor_count(&self) -> int {
        match self.neighbor_ids {
            Some(n) => n.len() as int,
            None => 0,
        }
    }

    /// Enough local ids are left for any one message: a reply and a gossip to every neighbor.
    pub open spec fn id_room(&self) -> bool {
        self.next_msg_id + self.neighbor_count() < usize::MAX
    }

    /// A node before any message: no id, no neighbors, nothing seen or pending.
    pub fn new() -> (r: Node)
        ensures
            r.wf(),
            !r.initialized,
            r.id@ == Seq::<char>::empty(),
            r.ids@ == Seq::<String>::empty(),
            r.neighbor_ids is None,
            r.next_msg_id == 0,
            r.messages@ == Seq::<usize>::empty(),
            r.pending@ == Seq::<Message>::empty(),
    {
        Node {
            id: String::new(),
            ids: Vec::new(),
            neighbor_ids: None,
            next_msg_id: 0,
            messages: Vec::new(),
            pending: Vec::new(),
            initialized: false,
        }
    }

    /// Whether enough local ids are left to handle any one message.
    pub fn has_id_room(&self) -> (r: bool)
        ensures
            r == self.id_room(),
    {
        let count: usize = match &self.neighbor_ids {
            Some(n) => n.len(),
            None => 0,
        };
        count < usize::MAX - self.next_msg_id
    }

    /// Hands out the next local message id.
    fn allocate_id(&mut self) -> (r: usize)
        requires
            old(self).next_msg_id < usize::MAX,
        ensures
            r == old(self).next_msg_id + 1,
            *final(self) == (Node { next_msg_id: r, ..*old(self) }),
    {
        self.next_msg_id = self.next_msg_id + 1;
        self.next_msg_id
    }

    /// The acknowledgment of `request`, stamped with a freshly allocated id;
    /// `UnsupportedMessageKind` for a kind that gets no reply.
    pub fn reply_to(&mut self, request: &Message) -> (r: Result<Message, NodeError>)
        requires
            old(self).next_msg_id < usize::MAX,
        ensures
            has_reply(request.body) ==> r is Ok && is_ok_reply(
                *request,
                r->Ok_0,
                old(self).id,
                (old(self).next_msg_id + 1) as usize,
                old(self).messages@,
            ) && *final(self) == (Node {
                next_msg_id: (old(self).next_msg_id + 1) as usize,
                ..*old(self)
            }),
            !has_reply(request.body) ==> r == Err::<Message, NodeError>(
                NodeError::UnsupportedMessageKind,
            ) && *final(self) == *old(self),
    {
        match &request.body {
            MessageBody::Init { msg_id, .. } => {
                let id = self.allocate_id();
                Ok(Message {
                    src: self.id.clone(),
                    dest: request.src.clone(),
                    body: MessageBody::InitOk { msg_id: Some(id), in_reply_to: *msg_id },
                })
            },
            MessageBody::Echo { msg_id, echo, .. } => {
                let id = self.allocate_id();
                Ok(Message {
                    src: self.id.clone(),
                    dest: request.src.clone(),
                    body: MessageBody::EchoOk {
                        msg_id: Some(id),
                        in_reply_to: *msg_id,
                        echo: echo.clone(),
                    },
                })
            },
            MessageBody::Topology { msg_id, .. } => {
                let id = self.allocate_id();
                Ok(Message {
                    src: self.id.clone(),
                    dest: request.src.clone(),
                    body: MessageBody::TopologyOk { msg_id: Some(id), in_reply_to: *msg_id },
                })
            },
            MessageBody::Broadcast { msg_id, .. } => {
                let id = self.allocate_id();
                Ok(Message {
                    src: self.id.clone(),
                    dest: request.src.clone(),
                    body: MessageBody::BroadcastOk { msg_id: Some(id), in_reply_to: *msg_id },
                })
            },
            MessageBody::Read { msg_id, .. } => {
                let id = self.allocate_id();
                Ok(Message {
                    src: self.id.clone(),
                    dest: request.src.clone(),
                    body: MessageBody::ReadOk {
                        msg_id: Some(id),
                        in_reply_to: *msg_id,
                        messages: copy_values(&self.messages),
                    },
                })
            },
            _ => Err(NodeError::UnsupportedMessageKind),
        }
    }

    /// Every gossip message still waiting for its acknowledgment, unchanged, for resending.
    pub fn retry_sweep(&self) -> (r: Vec<Message>)
        requires
            self.wf(),
        ensures
            r@ == self.pending@,
    {
        let mut r: Vec<Message> = Vec::new();
        let mut i: usize = 0;
        while i < self.pending.len()
            invariant
                self.wf(),
                i <= self.pending.len(),
                r@ == self.pending@.take(i as int),
            decreases self.pending.len() - i,
        {
            r.push(copy_gossip(&self.pending[i]));
            i += 1;
            assert(r@ =~= self.pending@.take(i as int));
        }
        assert(self.pending@.take(self.pending.len() as int) =~= self.pending@);
        r
    }

    /// Drops the pending gossip message with id `k`, and only that one.
    pub fn acknowledge(&mut self, k: usize)
        requires
            old(self).wf(),
        ensures
            final(self).wf(),
            final(self).pending@ == old(self).pending@.filter(not_acked_by(k)),
            *final(self) == (Node { pending: final(self).pending, ..*old(self) }),
    {
        let ghost p = self.pending@;
        let mut kept: Vec<Message> = Vec::new();
        let mut i: usize = 0;
        while i < self.pending.len()
            invariant
                self.wf(),
                self.pending@ == p,
                i <= p.len(),
                kept@ == p.take(i as int).filter(not_acked_by(k)),
                forall|a: int|
                    0 <= a < kept@.len() ==> (#[trigger] kept@[a]).body is Broadcast && 0
                        < gossip_id(kept@[a]) <= self.next_msg_id,
                forall|a: int, b: int|
                    0 <= a < b < kept@.len() ==> gossip_id(kept@[a]) < gossip_id(kept@[b]),
                forall|a: int, j: int|
                    0 <= a < kept@.len() && i <= j < p.len() ==> gossip_id(kept@[a]) < gossip_id(
                        p[j],
                    ),
            decreases p.len() - i,
        {
            proof {
                reveal(Seq::filter);
                assert(p.take(i + 1).drop_last() =~= p.take(i as int));
            }
            let keep = match self.pending[i].get_msg_id() {
                Some(x) => x != k,
                None => true,
            };
            if keep {
                let m = copy_gossip(&self.pending[i]);
                kept.push(m);
            }
            i += 1;
        }
        assert(p.take(p.len() as int) =~= p);
        self.pending = kept;
    }
    /// Handles one incoming message: updates the state and returns what to send, in order.
    pub fn handle(&mut self, msg: Message) -> (r: Result<Vec<Message>, NodeError>)
        requires
            old(self).wf(),
            old(self).id_room(),
        ensures
            final(self).wf(),
            step(*old(self), msg, *final(self), r),
    {
        let ghost s0 = *self;
        let handled = match &msg.body {
            MessageBody::Init { .. } | MessageBody::Echo { .. } | MessageBody::Topology { .. }
            | MessageBody::Broadcast { .. } | MessageBody::BroadcastOk { .. }
            | MessageBody::Read { .. } => true,
            _ => false,
        };
        if !handled {
            return Err(NodeError::UnsupportedMessageKind);
        }
        let is_init = match &msg.body {
            MessageBody::Init { .. } => true,
            _ => false,
        };
        if !self.initialized && !is_init {
            return Err(NodeError::NotInitialized);
        }
        let mut out: Vec<Message> = Vec::new();
        match &msg.body {
            MessageBody::Init { node_id, node_ids, .. } => {
                if !self.initialized {
                    self.id = node_id.clone();
                    self.ids = copy_strings(node_ids);
                    self.initialized = true;
                }
            },
            MessageBody::Topology { topology, .. } => {
                self.neighbor_ids = neighbors_of(topology, &self.id);
                proof {
                    if let Some(n) = topology_lookup(topology@, s0.id) {
                        lemma_neighbor_set_wf(n, s0.id);
                    }
                }
            },
            MessageBody::Broadcast { msg_id, message, .. } => {
                let v = *message;
                if !contains_value(&self.messages, v) {
                    let targets = fanout(&self.neighbor_ids, &msg.src);
                    proof {
                        if let Some(n) = s0.neighbor_ids {
                            n@.lemma_filter_len(not_named(msg.src@));
                        }
                    }
                    self.messages.push(v);
                    let mut i: usize = 0;
                    while i < targets.len()
                        invariant
                            s0.wf(),
                            s0.id_room(),
                            !s0.messages@.contains(v),
                            targets@ == gossip_targets(s0, msg.src, v),
                            targets.len() <= s0.neighbor_count(),
                            i <= targets.len(),
                            self.next_msg_id == s0.next_msg_id + i,
                            self.messages@ == s0.messages@.push(v),
                            self.pending@ == s0.pending@ + out@,
                            *self == (Node {
                                messages: self.messages,
                                pending: self.pending,
                                next_msg_id: self.next_msg_id,
                                ..s0
                            }),
                            out.len() == i,
                            forall|j: int|
                                0 <= j < i ==> #[trigger] out@[j] == gossip(
                                    s0.id,
                                    targets@[j],
                                    (s0.next_msg_id + 1 + j) as usize,
                                    *msg_id,
                                    v,
                                ),
                            pending_ok(self.pending@, self.next_msg_id),
                        decreases targets.len() - i,
                    {
                        let id = self.allocate_id();
                        let g = Message {
                            src: self.id.clone(),
                            dest: targets[i].clone(),
                            body: MessageBody::Broadcast { msg_id: Some(id), in_reply_to: *msg_id, message: v },
                        };
                        let g2 = copy_gossip(&g);
                        self.pending.push(g);
                        out.push(g2);
                        i += 1;
                    }
                    proof {
                        assert(out@.take(out@.len() as int) =~= out@);
                        assert(self.messages@.no_duplicates());
                    }
                }
            },
            MessageBody::BroadcastOk { in_reply_to, .. } => {
                if let Some(k) = in_reply_to {
                    self.acknowledge(*k);
                }
                return Ok(out);
            },
            _ => {},
        }
        let ghost gossips = out@;
        assert(s0.pending@ + gossips =~= self.pending@);
        match self.reply_to(&msg) {
            Ok(reply) => {
                out.push(reply);
                assert(out@.take(gossips.len() as int) =~= gossips);
                Ok(out)
            },
            Err(e) => Err(e),
        }
    }
}

} // verus!