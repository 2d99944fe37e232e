//! The broker's state and its decisions: accepting connections, handling
//! inbound frames, and delivery ticks. Sockets and timers live with the caller.
use vstd::prelude::*;
use vstd::string::*;

use crate::channel::{broadcasts, spec_enqueue, ChannelMode, ChannelView, Delivery};
use crate::group::{with_channel, GroupMode, GroupView, Groups};
use crate::msg::{
    spec_dto_bytes, spec_to_dto, spec_to_message, ConsumerType, Message, MessageStatus,
    MessageType, MessageView,
};
use crate::protocol::{
    spec_end_flag, spec_frame_bytes, spec_identifier, spec_read_frame, FrameError, FrameView,
    Protocol,
};
use crate::types::{keys_with_value, ConnectionPool, ConnectionPoolAndGroupBind, RouteView};

verus! {

/// The text a failed pull replies with.
pub open spec fn no_message_text() -> Seq<char> {
    seq![
        'N', 'o', ' ', 'm', 'e', 's', 's', 'a', 'g', 'e', ' ', 'e', 'x', 'i', 's', 't', 's', '.',
    ]
}

fn no_message_string() -> (r: String)
    ensures
        r@ == no_message_text(),
{
    let s = String::from_str("No message exists.");
    proof {
        reveal_strlit("No message exists.");
    }
    assert(s@ =~= no_message_text());
    s
}

/// The frame that carries message `m`, ready to send.
pub open spec fn reply_frame(m: MessageView) -> FrameView {
    FrameView {
        identifier: spec_identifier(),
        data_size: spec_dto_bytes(spec_to_dto(m)).len() as u32,
        message: spec_to_dto(m),
        flag: spec_end_flag(),
    }
}

/// What handling message `m` from connection `token` does to the groups and
/// the bindings, and the reply it gives:
/// a system message binds the token to the message's (group id, topic);
/// a business send enqueues the message on its channel;
/// a business pull on a pull channel dequeues the head message and replies
/// with it, marked a success, or replies with `m` itself, marked a failure
/// and carrying `no_message_text()`, when the channel is empty;
/// anything else changes nothing and has no reply.
pub open spec fn handled(
    m: Message,
    token: u64,
    g0: Map<Seq<char>, GroupView>,
    b0: Map<u64, (u64, RouteView)>,
    g1: Map<Seq<char>, GroupView>,
    b1: Map<u64, (u64, RouteView)>,
    r: Option<Message>,
) -> bool {
    let gid = m.group_id@;
    let t = m.topic.name@;
    let has_channel = g0.contains_key(gid) && g0[gid].channels.contains_key(t);
    match m.msg_type {
        MessageType::System => b1 == b0.insert(token, (token, (gid, t))) && g1 == g0 && r is None,
        MessageType::Business => match m.consumer_type {
            ConsumerType::Send => {
                &&& b1 == b0
                &&& r is None
                &&& has_channel ==> g1 == g0.insert(
                    gid,
                    with_channel(
                        g0[gid],
                        t,
                        ChannelView { queue: spec_enqueue(g0[gid].channels[t].queue, m), ..g0[gid].channels[t] },
                    ),
                )
                &&& !has_channel ==> g1 == g0
            },
            ConsumerType::Pull => {
                &&& b1 == b0
                &&& !(has_channel && g0[gid].channels[t].mode == ChannelMode::Pull) ==> g1 == g0
                    && r is None
                &&& (has_channel && g0[gid].channels[t].mode == ChannelMode::Pull) ==> {
                    let c = g0[gid].channels[t];
                    if c.queue.len() > 0 {
                        &&& g1 == g0.insert(
                            gid,
                            with_channel(g0[gid], t, ChannelView { queue: c.queue.drop_first(), ..c }),
                        )
                        &&& r matches Some(x) && x@ == (MessageView {
                            status: MessageStatus::Success,
                            ..c.queue[0]@
                        })
                    } else {
                        &&& g1 == g0
                        &&& r matches Some(x) && x@ == (MessageView {
                            status: MessageStatus::Fail,
                            data: no_message_text(),
                            ..m@
                        })
                    }
                }
            },
            ConsumerType::Unspecified => g1 == g0 && b1 == b0 && r is None,
        },
        MessageType::Unspecified => g1 == g0 && b1 == b0 && r is None,
    }
}

impl Message {
    /// Handles this message, received from connection `token`; see `handled`.
    pub fn handle(self, token: u64, groups: &mut Groups, binds: &mut ConnectionPoolAndGroupBind) -> (r:
        Option<Message>)
        requires
            old(groups).wf(),
            old(binds).wf(),
        ensures
            final(groups).wf(),
            final(binds).wf(),
            handled(self, token, old(groups)@, old(binds)@, final(groups)@, final(binds)@, r),
    {
        match self.msg_type {
            MessageType::System => {
                binds.insert(token, (self.group_id.clone(), self.topic.name.clone()));
                None
            },
            MessageType::Business => match self.consumer_type {
                ConsumerType::Send => {
                    let g = self.group_id.clone();
                    let t = self.topic.name.clone();
                    groups.insert_message(g, t, self);
                    None
                },
                ConsumerType::Pull => {
                    let mode = groups.get_channel_mode(self.group_id.clone(), self.topic.name.clone());
                    if mode != ChannelMode::Pull {
                        return None;
                    }
                    match groups.get_a_message(self.group_id.clone(), self.topic.name.clone()) {
                        Ok(mut msg) => {
                            msg.status = MessageStatus::Success;
                            Some(msg)
                        },
                        Err(_) => {
                            let mut reply = self;
                            reply.status = MessageStatus::Fail;
                            reply.data = no_message_string();
                            Some(reply)
                        },
                    }
                },
                ConsumerType::Unspecified => None,
            },
            MessageType::Unspecified => None,
        }
    }

    /// The bytes of a frame carrying this message. Fails with `Oversize`
    /// only where the encoded message is too long for the head's 32-bit
    /// size field.
    pub fn frame_bytes(&self) -> (r: Result<Vec<u8>, FrameError>)
        ensures
            spec_dto_bytes(spec_to_dto(self@)).len() <= u32::MAX ==> (r matches Ok(b) && b@
                == spec_frame_bytes(reply_frame(self@))),
            spec_dto_bytes(spec_to_dto(self@)).len() > u32::MAX ==> r == Err::<
                Vec<u8>,
                FrameError,
            >(FrameError::Oversize),
    {
        let mut protocol = Protocol::default();
        protocol.insert_message(self.to_messagedto());
        match protocol.ready() {
            Ok(()) => Ok(protocol.to_byte_vec()),
            Err(e) => Err(e),
        }
    }
}

/// What the caller does after a read: drop `consumed` bytes from its buffer,
/// write `reply` back if there is one, and close the connection if `close`.
pub struct ReadOutcome {
    pub consumed: usize,
    pub reply: Option<Vec<u8>>,
    pub close: bool,
}

/// The broker: groups, bindings and live connections, and the next token.
/// Token 0 is the listener's; connections get 1, 2, ... and no token is
/// given twice.
pub struct LuminMQServer<C> {
    groups: Groups,
    binds: ConnectionPoolAndGroupBind,
    pool: ConnectionPool<C>,
    next: u64,
}

impl<C> LuminMQServer<C> {
    pub closed spec fn wf(&self) -> bool {
        &&& self.groups.wf()
        &&& self.binds.wf()
        &&& self.next >= 1
        &&& forall|k: u64| #[trigger] self.pool@.contains_key(k) ==> 1 <= k < self.next
    }

    pub closed spec fn groups_view(&self) -> Map<Seq<char>, GroupView> {
        self.groups@
    }

    pub closed spec fn binds_view(&self) -> Map<u64, (u64, RouteView)> {
        self.binds@
    }

    pub closed spec fn pool_view(&self) -> Map<u64, C> {
        self.pool@
    }

    /// The token the next accepted connection gets.
    pub closed spec fn next_token_view(&self) -> u64 {
        self.next
    }

    pub fn new() -> (r: Self)
        ensures
            r.wf(),
            r.groups_view() == Map::<Seq<char>, GroupView>::empty(),
            r.binds_view() == Map::<u64, (u64, RouteView)>::empty(),
            r.pool_view() == Map::<u64, C>::empty(),
            r.next_token_view() == 1,
    {
        LuminMQServer {
            groups: Groups::new(),
            binds: ConnectionPoolAndGroupBind::new(),
            pool: ConnectionPool::new(),
            next: 1,
        }
    }

    pub fn groups(&self) -> (r: &Groups)
        requires
            self.wf(),
        ensures
            r@ == self.groups_view(),
            r.wf(),
    {
        &self.groups
    }

    pub fn groups_mut(&mut self) -> (r: &mut Groups)
        requires
            old(self).wf(),
        ensures
            final(r).wf() ==> final(self).wf(),
            (*r)@ == old(self).groups_view(),
            r.wf(),
            final(self).groups_view() == final(r)@,
            final(self).binds_view() == old(self).binds_view(),
            final(self).pool_view() == old(self).pool_view(),
            final(self).next_token_view() == old(self).next_token_view(),
    {
        &mut self.groups
    }

    pub fn binds(&self) -> (r: &ConnectionPoolAndGroupBind)
        requires
            self.wf(),
        ensures
            r@ == self.binds_view(),
            r.wf(),
    {
        &self.binds
    }

    pub fn pool(&self) -> (r: &ConnectionPool<C>)
        requires
            self.wf(),
        ensures
            r@ == self.pool_view(),
    {
        &self.pool
    }

    /// The token the next accepted connection gets.
    pub fn upcoming_token(&self) -> (r: u64)
        ensures
            r == self.next_token_view(),
    {
        self.next
    }

    /// Hands out the next token; `None` once every token has been given.
    pub fn next_token(&mut self) -> (r: Option<u64>)
        requires
            old(self).wf(),
        ensures
            final(self).wf(),
            final(self).groups_view() == old(self).groups_view(),
            final(self).binds_view() == old(self).binds_view(),
            final(self).pool_view() == old(self).pool_view(),
            old(self).next_token_view() < u64::MAX ==> r == Some(old(self).next_token_view())
                && final(self).next_token_view() == old(self).next_token_view() + 1,
            old(self).next_token_view() == u64::MAX ==> r is None && final(self).next_token_view()
                == old(self).next_token_view(),
    {
        if self.next == u64::MAX {
            return None;
        }
        let t = self.next;
        self.next = self.next + 1;
        Some(t)
    }

    /// Registers an accepted connection under a fresh token and returns the
    /// token; `None`, with nothing registered, once tokens are exhausted.
    pub fn accept(&mut self, conn: C) -> (r: Option<u64>)
        requires
            old(self).wf(),
        ensures
            final(self).wf(),
            final(self).groups_view() == old(self).groups_view(),
            final(self).binds_view() == old(self).binds_view(),
            old(self).next_token_view() < u64::MAX ==> ({
                let t = old(self).next_token_view();
                &&& r == Some(t)
                &&& !old(self).pool_view().contains_key(t)
                &&& final(self).pool_view() == old(self).pool_view().insert(t, conn)
                &&& final(self).next_token_view() == t + 1
            }),
            old(self).next_token_view() == u64::MAX ==> r is None && final(self).pool_view()
                == old(self).pool_view() && final(self).next_token_view() == u64::MAX,
    {
        match self.next_token() {
            Some(t) => {
                self.pool.insert(t, conn);
                Some(t)
            },
            None => None,
        }
    }

    /// Forgets connection `token` and its binding; removing it again changes
    /// nothing.
    pub fn remove(&mut self, token: u64)
        requires
            old(self).wf(),
        ensures
            final(self).wf(),
            final(self).groups_view() == old(self).groups_view(),
            final(self).binds_view() == old(self).binds_view().remove(token),
            final(self).pool_view() == old(self).pool_view().remove(token),
            final(self).next_token_view() == old(self).next_token_view(),
    {
        self.pool.remove(token);
        self.binds.remove(token);
    }

    /// Handles readable data `buf` of connection `token`: reads one frame
    /// and hands its message to the handler. Where `buf` ends inside the
    /// frame nothing is consumed: the caller waits for more bytes, and closes
    /// the connection if the peer ends the stream there. On any other framing
    /// error the connection is removed and must be closed.
    pub fn on_readable(&mut self, token: u64, buf: &[u8]) -> (r: ReadOutcome)
        requires
            old(self).wf(),
        ensures
            final(self).wf(),
            final(self).next_token_view() == old(self).next_token_view(),
            match spec_read_frame(buf@) {
                Err((FrameError::ShortRead, _)) => {
                    &&& !r.close && r.consumed == 0 && r.reply is None
                    &&& final(self).groups_view() == old(self).groups_view()
                    &&& final(self).binds_view() == old(self).binds_view()
                    &&& final(self).pool_view() == old(self).pool_view()
                },
                Err((_, n)) => {
                    &&& r.close && r.consumed == n && r.reply is None
                    &&& final(self).groups_view() == old(self).groups_view()
                    &&& final(self).binds_view() == old(self).binds_view().remove(token)
                    &&& final(self).pool_view() == old(self).pool_view().remove(token)
                },
                Ok((f, n)) => {
                    &&& !r.close && r.consumed == n
                    &&& final(self).pool_view() == old(self).pool_view()
                    &&& exists|m: Message, out: Option<Message>|
                        #![trigger handled(m, token, old(self).groups_view(), old(self).binds_view(), final(self).groups_view(), final(self).binds_view(), out)]
                        m@ == spec_to_message(f.message) && handled(
                            m,
                            token,
                            old(self).groups_view(),
                            old(self).binds_view(),
                            final(self).groups_view(),
                            final(self).binds_view(),
                            out,
                        ) && (r.reply matches Some(b) ==> (out matches Some(x) && b@ == spec_frame_bytes(reply_frame(x@))))
                        && (out matches Some(x) && spec_dto_bytes(spec_to_dto(x@)).len() <= u32::MAX ==> r.reply is Some)
                },
            },
    {
        match Protocol::reader(buf) {
            Ok((frame, n)) => {
                let message = frame.body.message.to_message();
                let ghost m = message;
                let out = message.handle(token, &mut self.groups, &mut self.binds);
                let reply = match &out {
                    Some(x) => match x.frame_bytes() {
                        Ok(b) => Some(b),
                        Err(_) => None,
                    },
                    None => None,
                };
                assert(handled(m, token, old(self).groups_view(), old(self).binds_view(), self.groups_view(), self.binds_view(), out));
                ReadOutcome { consumed: n, reply, close: false }
            },
            Err((FrameError::ShortRead, _)) => ReadOutcome { consumed: 0, reply: None, close: false },
            Err((_, n)) => {
                self.remove(token);
                ReadOutcome { consumed: n, reply: None, close: true }
            },
        }
    }

    /// The tokens bound to (`group_id`, `topic`), in binding order.
    pub closed spec fn bound_tokens(&self, group_id: Seq<char>, topic: Seq<char>) -> Seq<u64> {
        keys_with_value(self.binds.entries(), (group_id, topic))
    }

    /// One delivery tick of channel (`group_id`, `topic`) against the current
    /// bindings (see `Groups::tick`): in a broadcast group every bound token
    /// gets the head message, in a cluster group one bound token drawn at
    /// random gets it; nothing happens in pull mode, without a bound token or
    /// on an empty queue.
    pub fn tick(&mut self, group_id: String, topic: String) -> (r: Vec<Delivery>)
        requires
            old(self).wf(),
        ensures
            final(self).wf(),
            final(self).binds_view() == old(self).binds_view(),
            final(self).pool_view() == old(self).pool_view(),
            final(self).next_token_view() == old(self).next_token_view(),
            !(old(self).groups_view().contains_key(group_id@) && old(self).groups_view()[group_id@].channels.contains_key(
                topic@,
            )) ==> final(self).groups_view() == old(self).groups_view() && r@.len() == 0,
            old(self).groups_view().contains_key(group_id@) && old(self).groups_view()[group_id@].channels.contains_key(
                topic@,
            ) ==> ({
                let g = old(self).groups_view()[group_id@];
                let c = g.channels[topic@];
                let tokens = old(self).bound_tokens(c.group_id, c.topic);
                let after = old(self).groups_view().insert(
                    group_id@,
                    with_channel(g, topic@, ChannelView { queue: c.queue.drop_first(), ..c }),
                );
                &&& tokens.no_duplicates()
                &&& broadcasts(c, tokens) ==> {
                    &&& final(self).groups_view() == after
                    &&& r@.len() == tokens.len()
                    &&& forall|i: int|
                        0 <= i < r@.len() ==> #[trigger] r@[i].token == tokens[i]
                            && r@[i].message@ == c.queue[0]@
                }
                &&& (c.mode == ChannelMode::Push && c.group_mode == GroupMode::Cluster
                    && tokens.len() > 0 && c.queue.len() > 0) ==> {
                    &&& final(self).groups_view() == after
                    &&& r@.len() == 1
                    &&& old(self).binds_view().contains_key(r@[0].token)
                    &&& old(self).binds_view()[r@[0].token].1 == (c.group_id, c.topic)
                    &&& r@[0].message == c.queue[0]
                }
                &&& (c.mode != ChannelMode::Push || tokens.len() == 0 || c.queue.len() == 0)
                    ==> final(self).groups_view() == old(self).groups_view() && r@.len() == 0
            }),
    {
        self.groups.tick(group_id, topic, &self.binds)
    }
}

} // verus!
