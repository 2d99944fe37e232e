//! Per-(group, topic) FIFO channels and their delivery decisions.
use std::collections::VecDeque;
use vstd::prelude::*;

use crate::group::GroupMode;
use crate::msg::Message;
use crate::topic::Topic;
use crate::types::{keys_with_value, lemma_bound_tokens_distinct, ConnectionPoolAndGroupBind};

verus! {

/// How the messages of a channel reach its consumers.
#[derive(Debug, Clone, Copy, PartialEq, Eq, Structural)]
pub enum ChannelMode {
    /// The broker writes messages to the bound consumers on each tick.
    Push,
    /// Consumers ask for messages one at a time.
    Pull,
    Unspecified,
}

/// The queue after an enqueue.
pub open spec fn spec_enqueue(q: Seq<Message>, m: Message) -> Seq<Message> {
    q.push(m)
}

/// The queue after a dequeue, and the message it hands out.
pub open spec fn spec_dequeue(q: Seq<Message>) -> (Seq<Message>, Option<Message>) {
    if q.len() == 0 {
        (q, None)
    } else {
        (q.drop_first(), Some(q[0]))
    }
}

/// A FIFO queue of messages.
pub struct Queue {
    queue: VecDeque<Message>,
}

impl View for Queue {
    type V = Seq<Message>;

    closed spec fn view(&self) -> Seq<Message> {
        self.queue@
    }
}

impl Queue {
    pub fn new() -> (r: Self)
        ensures
            r@ == Seq::<Message>::empty(),
    {
        Queue { queue: VecDeque::new() }
    }

    /// Adds `message` at the tail.
    pub fn enqueue(&mut self, message: Message)
        ensures
            final(self)@ == spec_enqueue(old(self)@, message),
    {
        self.queue.push_back(message);
    }

    /// Takes the message at the head, if any.
    pub fn dequeue(&mut self) -> (r: Option<Message>)
        ensures
            (final(self)@, r) == spec_dequeue(old(self)@),
    {
        let r = self.queue.pop_front();
        proof {
            if old(self)@.len() > 0 {
                assert(final(self)@ =~= old(self)@.drop_first());
            }
        }
        r
    }

    pub fn is_empty(&self) -> (r: bool)
        ensures
            r == (self@.len() == 0),
    {
        self.queue.len() == 0
    }

    pub fn len(&self) -> (r: usize)
        ensures
            r == self@.len(),
    {
        self.queue.len()
    }
}

impl Default for Queue {
    fn default() -> (r: Self)
        ensures
            r@ == Seq::<Message>::empty(),
    {
        Queue::new()
    }
}

/// One write of the delivery worker: a frame carrying `message` to the
/// connection of `token`.
pub struct Delivery {
    pub token: u64,
    pub message: Message,
}

/// The queue of a (group, topic) with its modes.
pub struct Channel {
    pub topic: Topic,
    pub group_id: String,
    pub mode: ChannelMode,
    group_mode: GroupMode,
    message_queue: Queue,
}

pub struct ChannelView {
    pub topic: Seq<char>,
    pub group_id: Seq<char>,
    pub mode: ChannelMode,
    pub group_mode: GroupMode,
    pub queue: Seq<Message>,
}

impl View for Channel {
    type V = ChannelView;

    closed spec fn view(&self) -> ChannelView {
        ChannelView {
            topic: self.topic.name@,
            group_id: self.group_id@,
            mode: self.mode,
            group_mode: self.group_mode,
            queue: self.message_queue@,
        }
    }
}

/// Whether a tick of channel `c` sends its head message to every token of
/// `tokens`.
pub open spec fn broadcasts(c: ChannelView, tokens: Seq<u64>) -> bool {
    c.mode == ChannelMode::Push && c.group_mode == GroupMode::Broadcast && tokens.len() > 0
        && c.queue.len() > 0
}

/// Whether a tick of channel `c` sends its head message to the one chosen
/// token.
pub open spec fn sends_to_one(c: ChannelView, chosen: Option<u64>) -> bool {
    c.mode == ChannelMode::Push && c.group_mode == GroupMode::Cluster && chosen is Some
        && c.queue.len() > 0
}

impl Channel {
    pub fn new(topic: String, group_id: String, mode: ChannelMode, group_mode: GroupMode) -> (r:
        Self)
        ensures
            r@ == (ChannelView {
                topic: topic@,
                group_id: group_id@,
                mode,
                group_mode,
                queue: Seq::empty(),
            }),
    {
        Channel { topic: Topic::new(topic), group_id, mode, group_mode, message_queue: Queue::new() }
    }

    pub fn topic_name(&self) -> (r: &String)
        ensures
            r@ == self@.topic,
    {
        &self.topic.name
    }

    pub fn mode(&self) -> (r: ChannelMode)
        ensures
            r == self@.mode,
    {
        self.mode
    }

    /// The mode of the owning group, as cached when the channel was made.
    pub fn group_mode(&self) -> (r: GroupMode)
        ensures
            r == self@.group_mode,
    {
        self.group_mode
    }

    pub fn enqueue(&mut self, message: Message)
        ensures
            final(self)@ == (ChannelView {
                queue: spec_enqueue(old(self)@.queue, message),
                ..old(self)@
            }),
    {
        self.message_queue.enqueue(message);
    }

    pub fn dequeue(&mut self) -> (r: Option<Message>)
        ensures
            (final(self)@.queue, r) == spec_dequeue(old(self)@.queue),
            final(self)@ == (ChannelView { queue: final(self)@.queue, ..old(self)@ }),
    {
        self.message_queue.dequeue()
    }

    pub fn is_empty(&self) -> (r: bool)
        ensures
            r == (self@.queue.len() == 0),
    {
        self.message_queue.is_empty()
    }

    /// Number of queued messages.
    pub fn message_num(&self) -> (r: u64)
        ensures
            r == self@.queue.len(),
    {
        self.message_queue.len() as u64
    }

    /// One tick of the delivery worker, given the tokens bound to this
    /// channel and, for a cluster group, the token drawn among them.
    /// Broadcast: the head message is dequeued once and goes to every token.
    /// Cluster: the head message is dequeued and goes to the drawn token.
    /// Nothing happens in pull mode, with no token, or on an empty queue.
    pub fn tick_with(&mut self, tokens: &Vec<u64>, chosen: Option<u64>) -> (r: Vec<Delivery>)
        ensures
            final(self)@ == (ChannelView { queue: final(self)@.queue, ..old(self)@ }),
            broadcasts(old(self)@, tokens@) ==> {
                &&& final(self)@.queue == old(self)@.queue.drop_first()
                &&& r@.len() == tokens@.len()
                &&& forall|i: int|
                    0 <= i < r@.len() ==> #[trigger] r@[i].token == tokens@[i] && r@[i].message@
                        == old(self)@.queue[0]@
            },
            sends_to_one(old(self)@, chosen) ==> {
                &&& final(self)@.queue == old(self)@.queue.drop_first()
                &&& r@.len() == 1
                &&& r@[0].token == chosen->0
                &&& r@[0].message == old(self)@.queue[0]
            },
            !broadcasts(old(self)@, tokens@) && !sends_to_one(old(self)@, chosen) ==> final(self)@
                == old(self)@ && r@.len() == 0,
    {
        let mut out: Vec<Delivery> = Vec::new();
        match self.mode {
            ChannelMode::Push => match self.group_mode {
                GroupMode::Broadcast => {
                    if tokens.len() == 0 {
                        return out;
                    }
                    match self.dequeue() {
                        Some(message) => {
                            let mut i: usize = 0;
                            while i < tokens.len()
                                invariant
                                    i <= tokens@.len(),
                                    out@.len() == i,
                                    forall|j: int|
                                        0 <= j < i ==> #[trigger] out@[j].token == tokens@[j]
                                            && out@[j].message@ == message@,
                                decreases tokens@.len() - i,
                            {
                                out.push(Delivery { token: tokens[i], message: message.duplicate() });
                                i = i + 1;
                            }
                        },
                        None => {},
                    }
                },
                GroupMode::Cluster => {
                    if let Some(token) = chosen {
                        match self.dequeue() {
                            Some(message) => {
                                out.push(Delivery { token, message });
                            },
                            None => {},
                        }
                    }
                },
            },
            _ => {},
        }
        out
    }

    /// One tick of the delivery worker against the current bindings: the
    /// tokens bound to this channel's (group id, topic) are looked up, and in
    /// a cluster group one of them is drawn at random.
    pub fn tick(&mut self, binds: &ConnectionPoolAndGroupBind) -> (r: Vec<Delivery>)
        requires
            binds.wf(),
        ensures
            ({
                let tokens = keys_with_value(binds.entries(), (old(self)@.group_id, old(self)@.topic));
                let c = old(self)@;
                &&& tokens.no_duplicates()
                &&& final(self)@ == (ChannelView { queue: final(self)@.queue, ..c })
                &&& broadcasts(c, tokens) ==> {
                    &&& final(self)@.queue == c.queue.drop_first()
                    &&& r@.len() == tokens.len()
                    &&& forall|i: int|
                        0 <= i < r@.len() ==> #[trigger] r@[i].token == tokens[i]
                            && r@[i].message@ == c.queue[0]@
                }
                &&& (c.mode == ChannelMode::Push && c.group_mode == GroupMode::Cluster
                    && tokens.len() > 0 && c.queue.len() > 0) ==> {
                    &&& final(self)@.queue == c.queue.drop_first()
                    &&& r@.len() == 1
                    &&& binds@.contains_key(r@[0].token)
                    &&& binds@[r@[0].token].1 == (c.group_id, c.topic)
                    &&& r@[0].message == c.queue[0]
                }
                &&& (c.mode != ChannelMode::Push || tokens.len() == 0 || c.queue.len() == 0)
                    ==> final(self)@ == c && r@.len() == 0
            }),
    {
        proof {
            lemma_bound_tokens_distinct(binds, (self.group_id@, self.topic.name@));
        }
        let route = (self.group_id.clone(), self.topic.name.clone());
        let tokens = binds.get_token_list((self.group_id.clone(), self.topic.name.clone()));
        let chosen = match self.group_mode {
            GroupMode::Cluster => binds.get_random_token(route),
            GroupMode::Broadcast => None,
        };
        self.tick_with(&tokens, chosen)
    }
}

/// Runs a sequence of queue operations from queue `q`: `Some(m)` enqueues
/// `m`, `None` dequeues. Gives the final queue and the messages dequeued.
pub open spec fn run_ops(q: Seq<Message>, ops: Seq<Option<Message>>) -> (Seq<Message>, Seq<Message>)
    decreases ops.len(),
{
    if ops.len() == 0 {
        (q, Seq::empty())
    } else {
        let (q0, out0) = run_ops(q, ops.drop_last());
        match ops.last() {
            Some(m) => (spec_enqueue(q0, m), out0),
            None => match spec_dequeue(q0).1 {
                Some(m) => (spec_dequeue(q0).0, out0.push(m)),
                None => (q0, out0),
            },
        }
    }
}

/// The messages enqueued by a sequence of operations, in order.
pub open spec fn enqueued(ops: Seq<Option<Message>>) -> Seq<Message>
    decreases ops.len(),
{
    if ops.len() == 0 {
        Seq::empty()
    } else {
        match ops.last() {
            Some(m) => enqueued(ops.drop_last()).push(m),
            None => enqueued(ops.drop_last()),
        }
    }
}

/// First in, first out: from any queue `q`, under any interleaving of
/// enqueues and dequeues, the messages dequeued followed by those still
/// queued are `q` followed by the messages enqueued, in order. So the
/// dequeued messages are a prefix of `q` followed by the enqueued ones, and
/// from an empty queue a prefix of the enqueued ones.
pub proof fn lemma_fifo(q: Seq<Message>, ops: Seq<Option<Message>>)
    ensures
        run_ops(q, ops).1 + run_ops(q, ops).0 == q + enqueued(ops),
        (q + enqueued(ops)).subrange(0, run_ops(q, ops).1.len() as int) == run_ops(q, ops).1,
    decreases ops.len(),
{
    if ops.len() > 0 {
        lemma_fifo(q, ops.drop_last());
        let (q0, out0) = run_ops(q, ops.drop_last());
        match ops.last() {
            Some(m) => {
                assert(out0 + q0.push(m) =~= (out0 + q0).push(m));
                assert(q + enqueued(ops.drop_last()).push(m) =~= (q + enqueued(ops.drop_last())).push(m));
            },
            None => {
                if q0.len() > 0 {
                    assert(out0.push(q0[0]) + q0.drop_first() =~= out0 + q0);
                }
            },
        }
    } else {
        assert(q + enqueued(ops) =~= q);
        assert(Seq::<Message>::empty() + q =~= q);
    }
    let (qn, out) = run_ops(q, ops);
    assert((q + enqueued(ops)).subrange(0, out.len() as int) =~= out);
}

/// Broadcast fan-out: on a push channel of a broadcast group whose queue is
/// empty, one enqueue of `m` followed by a tick with bound tokens `tokens`
/// (at least one) makes exactly `tokens.len()` writes, all carrying `m`, and
/// leaves the queue empty again (with `Channel::tick_with`'s contract).
pub proof fn lemma_broadcast_after_enqueue(c: ChannelView, tokens: Seq<u64>, m: Message)
    requires
        c.mode == ChannelMode::Push,
        c.group_mode == GroupMode::Broadcast,
        c.queue.len() == 0,
        tokens.len() >= 1,
    ensures
        ({
            let c1 = ChannelView { queue: spec_enqueue(c.queue, m), ..c };
            &&& broadcasts(c1, tokens)
            &&& c1.queue[0] == m
            &&& c1.queue.drop_first() == Seq::<Message>::empty()
        }),
{
    let c1 = ChannelView { queue: spec_enqueue(c.queue, m), ..c };
    assert(c1.queue.drop_first() =~= Seq::<Message>::empty());
}

/// Cluster delivery: on a push channel of a cluster group whose queue is
/// empty, one enqueue of `m` followed by a tick that drew a token makes
/// exactly one write, of `m`, and one dequeue (with `Channel::tick_with`'s
/// contract; `Channel::tick` draws a token whenever one is bound).
pub proof fn lemma_cluster_after_enqueue(c: ChannelView, chosen: u64, m: Message)
    requires
        c.mode == ChannelMode::Push,
        c.group_mode == GroupMode::Cluster,
        c.queue.len() == 0,
    ensures
        ({
            let c1 = ChannelView { queue: spec_enqueue(c.queue, m), ..c };
            &&& sends_to_one(c1, Some(chosen))
            &&& !broadcasts(c1, Seq::<u64>::empty())
            &&& c1.queue[0] == m
            &&& c1.queue.drop_first() == Seq::<Message>::empty()
        }),
{
    let c1 = ChannelView { queue: spec_enqueue(c.queue, m), ..c };
    assert(c1.queue.drop_first() =~= Seq::<Message>::empty());
}

} // verus!
