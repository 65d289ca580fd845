use vstd::prelude::*;

verus! {

/// The body of a protocol message: a closed set of request and reply kinds.
///
/// Every kind may carry `msg_id` (set on messages that a node originates) and
/// `in_reply_to` (set on replies, equal to the request's `msg_id`).
#[derive(Debug, Clone, PartialEq, Eq)]
pub enum MessageBody {
    Init {
        msg_id: Option<usize>,
        in_reply_to: Option<usize>,
        node_id: String,
        node_ids: Vec<String>,
    },
    InitOk {
        msg_id: Option<usize>,
        in_reply_to: Option<usize>,
    },
    Echo {
        msg_id: Option<usize>,
        in_reply_to: Option<usize>,
        echo: String,
    },
    EchoOk {
        msg_id: Option<usize>,
        in_reply_to: Option<usize>,
        echo: String,
    },
    /// `topology` maps each node id to its neighbor ids, one entry per node.
    Topology {
        msg_id: Option<usize>,
        in_reply_to: Option<usize>,
        topology: Vec<(String, Vec<String>)>,
    },
    TopologyOk {
        msg_id: Option<usize>,
        in_reply_to: Option<usize>,
    },
    Broadcast {
        msg_id: Option<usize>,
        in_reply_to: Option<usize>,
        message: usize,
    },
    BroadcastOk {
        msg_id: Option<usize>,
        in_reply_to: Option<usize>,
    },
    Read {
        msg_id: Option<usize>,
        in_reply_to: Option<usize>,
    },
    ReadOk {
        msg_id: Option<usize>,
        in_reply_to: Option<usize>,
        messages: Vec<usize>,
    },
}

/// A message envelope: who sent it, to whom, and what it says.
#[derive(Debug, Clone, PartialEq, Eq)]
pub struct Message {
    pub src: String,
    pub dest: String,
    pub body: MessageBody,
}

impl MessageBody {
    /// The `msg_id` field, whatever the kind.
    pub open spec fn msg_id_of(self) -> Option<usize> {
        match self {
            MessageBody::Init { msg_id, .. } => msg_id,
            MessageBody::InitOk { msg_id, .. } => msg_id,
            MessageBody::Echo { msg_id, .. } => msg_id,
            MessageBody::EchoOk { msg_id, .. } => msg_id,
            MessageBody::Topology { msg_id, .. } => msg_id,
            MessageBody::TopologyOk { msg_id, .. } => msg_id,
            MessageBody::Broadcast { msg_id, .. } => msg_id,
            MessageBody::BroadcastOk { msg_id, .. } => msg_id,
            MessageBody::Read { msg_id, .. } => msg_id,
            MessageBody::ReadOk { msg_id, .. } => msg_id,
        }
    }

    /// The `in_reply_to` field, whatever the kind.
    pub open spec fn in_reply_to_of(self) -> Option<usize> {
        match self {
            MessageBody::Init { in_reply_to, .. } => in_reply_to,
            MessageBody::InitOk { in_reply_to, .. } => in_reply_to,
            MessageBody::Echo { in_reply_to, .. } => in_reply_to,
            MessageBody::EchoOk { in_reply_to, .. } => in_reply_to,
            MessageBody::Topology { in_reply_to, .. } => in_reply_to,
            MessageBody::TopologyOk { in_reply_to, .. } => in_reply_to,
            MessageBody::Broadcast { in_reply_to, .. } => in_reply_to,
            MessageBody::BroadcastOk { in_reply_to, .. } => in_reply_to,
            MessageBody::Read { in_reply_to, .. } => in_reply_to,
            MessageBody::ReadOk { in_reply_to, .. } => in_reply_to,
        }
    }

    /// Whether a node has a handler for this kind: the requests, and the
    /// acknowledgment of a gossiped value.
    pub open spec fn is_handled_kind(self) -> bool {
        match self {
            MessageBody::Init { .. } | MessageBody::Echo { .. } | MessageBody::Topology { .. }
            | MessageBody::Broadcast { .. } | MessageBody::BroadcastOk { .. }
            | MessageBody::Read { .. } => true,
            _ => false,
        }
    }
}

impl Message {
    /// The message's own id, if it carries one.
    pub fn get_msg_id(&self) -> (r: Option<usize>)
        ensures
            r == self.body.msg_id_of(),
    {
        match &self.body {
            MessageBody::Init { msg_id, .. } => *msg_id,
            MessageBody::InitOk { msg_id, .. } => *msg_id,
            MessageBody::Echo { msg_id, .. } => *msg_id,
            MessageBody::EchoOk { msg_id, .. } => *msg_id,
            MessageBody::Topology { msg_id, .. } => *msg_id,
            MessageBody::TopologyOk { msg_id, .. } => *msg_id,
            MessageBody::Broadcast { msg_id, .. } => *msg_id,
            MessageBody::BroadcastOk { msg_id, .. } => *msg_id,
            MessageBody::Read { msg_id, .. } => *msg_id,
            MessageBody::ReadOk { msg_id, .. } => *msg_id,
        }
    }
}

} // verus!
