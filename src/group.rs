//! Groups of channels and the registry of groups.
use vstd::prelude::*;

use crate::channel::{
    broadcasts, spec_dequeue, spec_enqueue, Channel, ChannelMode, ChannelView, Delivery,
};
use crate::keyed::{
    keys_unique, lemma_map_domain, lemma_map_index, lemma_map_len, lemma_map_push,
    lemma_map_remove, lemma_map_update, seq_to_map,
};
use crate::msg::Message;
use crate::types::{keys_with_value, ConnectionPoolAndGroupBind};

verus! {

/// Delivery discipline of a group.
#[derive(Debug, Clone, Copy, PartialEq, Eq, Structural)]
pub enum GroupMode {
    /// Each message goes to exactly one consumer of the group.
    Cluster,
    /// Each message goes to every consumer of the group.
    Broadcast,
}

fn strings_equal(a: &String, b: &String) -> (r: bool)
    ensures
        r == (a@ == b@),
{
    *a == *b
}

pub open spec fn topic_key() -> spec_fn(ChannelView) -> Seq<char> {
    |c: ChannelView| c.topic
}

/// A group: its id, its mode, fixed at creation, and one channel per topic.
pub struct Group {
    id: String,
    channels: Vec<Channel>,
    mode: GroupMode,
}

pub struct GroupView {
    pub id: Seq<char>,
    pub mode: GroupMode,
    /// Topic name to channel.
    pub channels: Map<Seq<char>, ChannelView>,
}

/// A new channel of group `g` for `topic`.
pub open spec fn fresh_channel(g: GroupView, topic: Seq<char>, mode: ChannelMode) -> ChannelView {
    ChannelView { topic, group_id: g.id, mode, group_mode: g.mode, queue: Seq::empty() }
}

impl Group {
    pub closed spec fn chans(&self) -> Seq<ChannelView> {
        self.channels@.map_values(|c: Channel| c@)
    }

    /// Topics are unique, and each channel belongs to this group and caches
    /// its mode.
    pub closed spec fn wf(&self) -> bool {
        &&& keys_unique(self.chans(), topic_key())
        &&& forall|i: int|
            0 <= i < self.chans().len() ==> (#[trigger] self.chans()[i]).group_mode == self.mode
                && self.chans()[i].group_id == self.id@
    }
}

impl View for Group {
    type V = GroupView;

    closed spec fn view(&self) -> GroupView {
        GroupView { id: self.id@, mode: self.mode, channels: seq_to_map(self.chans(), topic_key()) }
    }
}

impl Group {
    pub fn new(id: String, mode: GroupMode) -> (r: Self)
        ensures
            r.wf(),
            r@ == (GroupView { id: id@, mode, channels: Map::empty() }),
    {
        let r = Group { id, channels: Vec::new(), mode };
        assert(r.chans() =~= Seq::<ChannelView>::empty());
        assert(r@.channels =~= Map::<Seq<char>, ChannelView>::empty());
        r
    }

    pub fn id(&self) -> (r: &String)
        ensures
            r@ == self@.id,
    {
        &self.id
    }

    pub fn mode(&self) -> (r: GroupMode)
        ensures
            r == self@.mode,
    {
        self.mode
    }

    fn find(&self, topic: &String) -> (r: Option<usize>)
        requires
            self.wf(),
        ensures
            r matches Some(i) ==> i < self.channels@.len() && self.chans()[i as int].topic
                == topic@ && self@.channels.contains_key(topic@) && self@.channels[topic@]
                == self.chans()[i as int],
            r is None ==> !self@.channels.contains_key(topic@),
    {
        let mut i: usize = 0;
        while i < self.channels.len()
            invariant
                self.wf(),
                i <= self.channels@.len(),
                forall|j: int| 0 <= j < i ==> self.chans()[j].topic != topic@,
            decreases self.channels@.len() - i,
        {
            if strings_equal(self.channels[i].topic_name(), topic) {
                proof {
                    lemma_map_index(self.chans(), topic_key(), i as int);
                }
                return Some(i);
            }
            i = i + 1;
        }
        proof {
            lemma_map_domain(self.chans(), topic_key(), topic@);
        }
        None
    }

    /// Adds a channel for `topic`; a topic that already has one is left as it is.
    pub fn insert_channel(&mut self, topic: String, mode: ChannelMode)
        requires
            old(self).wf(),
        ensures
            final(self).wf(),
            old(self)@.channels.contains_key(topic@) ==> final(self)@ == old(self)@,
            !old(self)@.channels.contains_key(topic@) ==> final(self)@ == (GroupView {
                channels: old(self)@.channels.insert(topic@, fresh_channel(old(self)@, topic@, mode)),
                ..old(self)@
            }),
    {
        if self.find(&topic).is_some() {
            return;
        }
        let channel = Channel::new(topic, self.id.clone(), mode, self.mode);
        let ghost cv = channel@;
        proof {
            lemma_map_push(self.chans(), topic_key(), cv);
        }
        self.channels.push(channel);
        assert(self.chans() =~= old(self).chans().push(cv));
    }

    /// Removes the channel of `topic`, if there is one.
    pub fn remove_channel(&mut self, topic: String)
        requires
            old(self).wf(),
        ensures
            final(self).wf(),
            final(self)@ == (GroupView { channels: old(self)@.channels.remove(topic@), ..old(self)@ }),
    {
        match self.find(&topic) {
            Some(i) => {
                proof {
                    lemma_map_remove(self.chans(), topic_key(), i as int);
                }
                self.channels.remove(i);
                assert(self.chans() =~= old(self).chans().remove(i as int));
                assert forall|j: int| 0 <= j < self.chans().len() implies (
                #[trigger] self.chans()[j]).group_mode == self.mode && self.chans()[j].group_id
                    == self.id@ by {
                    if j < i {
                        assert(self.chans()[j] == old(self).chans()[j]);
                    } else {
                        assert(self.chans()[j] == old(self).chans()[j + 1]);
                    }
                }
            },
            None => {
                assert(old(self)@.channels.remove(topic@) =~= old(self)@.channels);
            },
        }
    }

    /// The channel of `topic`.
    pub fn get_channel(&self, topic: String) -> (r: Option<&Channel>)
        requires
            self.wf(),
        ensures
            r is None <==> !self@.channels.contains_key(topic@),
            r matches Some(c) ==> c@ == self@.channels[topic@],
    {
        match self.find(&topic) {
            Some(i) => Some(&self.channels[i]),
            None => None,
        }
    }

    pub fn contains_channel(&self, topic: String) -> (r: bool)
        requires
            self.wf(),
        ensures
            r == self@.channels.contains_key(topic@),
    {
        self.find(&topic).is_some()
    }

    /// Putting back at `i` a channel with the same topic, group and mode
    /// keeps the invariant and replaces that topic's entry in the map.
    proof fn lemma_replace(&self, i: int, c: ChannelView)
        requires
            self.wf(),
            0 <= i < self.chans().len(),
            c.topic == self.chans()[i].topic,
            c.group_mode == self.mode,
            c.group_id == self.id@,
        ensures
            keys_unique(self.chans().update(i, c), topic_key()),
            seq_to_map(self.chans().update(i, c), topic_key()) == self@.channels.insert(c.topic, c),
    {
        lemma_map_update(self.chans(), topic_key(), i, c);
    }

    /// Enqueues `message` on the channel of `topic`; does nothing where the
    /// group has no such channel.
    pub fn insert_message(&mut self, topic: String, message: Message)
        requires
            old(self).wf(),
        ensures
            final(self).wf(),
            old(self)@.channels.contains_key(topic@) ==> final(self)@ == (GroupView {
                channels: old(self)@.channels.insert(
                    topic@,
                    ChannelView {
                        queue: spec_enqueue(old(self)@.channels[topic@].queue, message),
                        ..old(self)@.channels[topic@]
                    },
                ),
                ..old(self)@
            }),
            !old(self)@.channels.contains_key(topic@) ==> final(self)@ == old(self)@,
    {
        match self.find(&topic) {
            Some(i) => {
                let mut channel = self.channels.remove(i);
                channel.enqueue(message);
                let ghost cv = channel@;
                proof {
                    old(self).lemma_replace(i as int, cv);
                }
                self.channels.insert(i, channel);
                assert(self.chans() =~= old(self).chans().update(i as int, cv));
            },
            None => {},
        }
    }

    /// Dequeues the head message of the channel of `topic`.
    pub fn dequeue_message(&mut self, topic: String) -> (r: Option<Message>)
        requires
            old(self).wf(),
        ensures
            final(self).wf(),
            old(self)@.channels.contains_key(topic@) ==> ({
                let c = old(self)@.channels[topic@];
                &&& r == spec_dequeue(c.queue).1
                &&& final(self)@ == (GroupView {
                    channels: old(self)@.channels.insert(
                        topic@,
                        ChannelView { queue: spec_dequeue(c.queue).0, ..c },
                    ),
                    ..old(self)@
                })
            }),
            !old(self)@.channels.contains_key(topic@) ==> final(self)@ == old(self)@ && r is None,
    {
        match self.find(&topic) {
            Some(i) => {
                let mut channel = self.channels.remove(i);
                let r = channel.dequeue();
                let ghost cv = channel@;
                proof {
                    old(self).lemma_replace(i as int, cv);
                }
                self.channels.insert(i, channel);
                assert(self.chans() =~= old(self).chans().update(i as int, cv));
                r
            },
            None => None,
        }
    }

    /// One delivery tick of the channel of `topic` (see `Channel::tick`).
    pub fn tick_channel(&mut self, topic: String, binds: &ConnectionPoolAndGroupBind) -> (r: Vec<
        Delivery,
    >)
        requires
            old(self).wf(),
            binds.wf(),
        ensures
            final(self).wf(),
            final(self)@.id == old(self)@.id && final(self)@.mode == old(self)@.mode,
            !old(self)@.channels.contains_key(topic@) ==> final(self)@ == old(self)@ && r@.len()
                == 0,
            old(self)@.channels.contains_key(topic@) ==> ({
                let c = old(self)@.channels[topic@];
                let tokens = keys_with_value(binds.entries(), (c.group_id, c.topic));
                &&& tokens.no_duplicates()
                &&& final(self)@.channels.dom() == old(self)@.channels.dom()
                &&& final(self)@.channels == old(self)@.channels.insert(topic@, final(self)@.channels[topic@])
                &&& final(self)@.channels[topic@] == (ChannelView { queue: final(self)@.channels[topic@].queue, ..c })
                &&& broadcasts(c, tokens) ==> {
                    &&& final(self)@.channels[topic@].queue == c.queue.drop_first()
                    &&& r@.len() == tokens.len()
                    &&& forall|i: int|
                        0 <= i < r@.len() ==> #[trigger] r@[i].token == tokens[i]
                            && r@[i].message@ == c.queue[0]@
                }
                &&& (c.mode == ChannelMode::Push && c.group_mode == GroupMode::Cluster
                    && tokens.len() > 0 && c.queue.len() > 0) ==> {
                    &&& final(self)@.channels[topic@].queue == c.queue.drop_first()
                    &&& r@.len() == 1
                    &&& binds@.contains_key(r@[0].token)
                    &&& binds@[r@[0].token].1 == (c.group_id, c.topic)
                    &&& r@[0].message == c.queue[0]
                }
                &&& (c.mode != ChannelMode::Push || tokens.len() == 0 || c.queue.len() == 0)
                    ==> final(self)@ == old(self)@ && r@.len() == 0
            }),
    {
        match self.find(&topic) {
            Some(i) => {
                let mut channel = self.channels.remove(i);
                let r = channel.tick(binds);
                let ghost cv = channel@;
                proof {
                    old(self).lemma_replace(i as int, cv);
                }
                self.channels.insert(i, channel);
                assert(self.chans() =~= old(self).chans().update(i as int, cv));
                proof {
                    let c = old(self)@.channels[topic@];
                    if c == cv {
                        assert(old(self)@.channels.insert(topic@, cv) =~= old(self)@.channels);
                    }
                }
                r
            },
            None => Vec::new(),
        }
    }

    /// The topics of this group, in the order their channels were made.
    pub fn topics(&self) -> (r: Vec<String>)
        requires
            self.wf(),
        ensures
            r@.len() == self.chans().len(),
            forall|k: Seq<char>| self@.channels.contains_key(k) <==> exists|i: int|
                0 <= i < r@.len() && (#[trigger] r@[i])@ == k,
    {
        let mut out: Vec<String> = Vec::new();
        let mut i: usize = 0;
        while i < self.channels.len()
            invariant
                i <= self.channels@.len(),
                out@.len() == i,
                forall|j: int| 0 <= j < i ==> (#[trigger] out@[j])@ == self.chans()[j].topic,
            decreases self.channels@.len() - i,
        {
            out.push(self.channels[i].topic_name().clone());
            i = i + 1;
        }
        proof {
            assert forall|k: Seq<char>| self@.channels.contains_key(k) <==> exists|j: int|
                0 <= j < out@.len() && (#[trigger] out@[j])@ == k by {
                lemma_map_domain(self.chans(), topic_key(), k);
                if self@.channels.contains_key(k) {
                    let j = choose|j: int| 0 <= j < self.chans().len() && self.chans()[j].topic == k;
                    assert(out@[j]@ == k);
                }
            }
        }
        out
    }
}

pub open spec fn group_key() -> spec_fn(GroupView) -> Seq<char> {
    |g: GroupView| g.id
}

/// Group `g` with the channel of `topic` replaced by `c`.
pub open spec fn with_channel(g: GroupView, topic: Seq<char>, c: ChannelView) -> GroupView {
    GroupView { channels: g.channels.insert(topic, c), ..g }
}

/// The registry of groups, by id.
pub struct Groups {
    groups: Vec<Group>,
}

impl Groups {
    pub closed spec fn views(&self) -> Seq<GroupView> {
        self.groups@.map_values(|g: Group| g@)
    }

    /// Ids are unique and every group is well formed.
    pub closed spec fn wf(&self) -> bool {
        &&& keys_unique(self.views(), group_key())
        &&& forall|i: int| 0 <= i < self.groups@.len() ==> (#[trigger] self.groups@[i]).wf()
    }
}

impl View for Groups {
    type V = Map<Seq<char>, GroupView>;

    closed spec fn view(&self) -> Map<Seq<char>, GroupView> {
        seq_to_map(self.views(), group_key())
    }
}

impl Groups {
    pub fn new() -> (r: Self)
        ensures
            r.wf(),
            r@ == Map::<Seq<char>, GroupView>::empty(),
            r@.dom().finite(),
    {
        let r = Groups { groups: Vec::new() };
        assert(r.views() =~= Seq::<GroupView>::empty());
        r
    }

    fn find(&self, group_id: &String) -> (r: Option<usize>)
        requires
            self.wf(),
        ensures
            r matches Some(i) ==> i < self.groups@.len() && self.groups@[i as int].wf()
                && self@.contains_key(group_id@) && self@[group_id@] == self.groups@[i as int]@
                && self.groups@[i as int]@.id == group_id@,
            r is None ==> !self@.contains_key(group_id@),
    {
        let mut i: usize = 0;
        while i < self.groups.len()
            invariant
                self.wf(),
                i <= self.groups@.len(),
                forall|j: int| 0 <= j < i ==> self.views()[j].id != group_id@,
            decreases self.groups@.len() - i,
        {
            if strings_equal(self.groups[i].id(), group_id) {
                proof {
                    lemma_map_index(self.views(), group_key(), i as int);
                }
                return Some(i);
            }
            i = i + 1;
        }
        proof {
            lemma_map_domain(self.views(), group_key(), group_id@);
        }
        None
    }

    proof fn lemma_replace(&self, i: int, g: Group)
        requires
            self.wf(),
            0 <= i < self.groups@.len(),
            g@.id == self.groups@[i]@.id,
            g.wf(),
        ensures
            ({
                let t = self.groups@.update(i, g);
                &&& keys_unique(t.map_values(|x: Group| x@), group_key())
                &&& forall|j: int| 0 <= j < t.len() ==> (#[trigger] t[j]).wf()
                &&& seq_to_map(t.map_values(|x: Group| x@), group_key()) == self@.insert(g@.id, g@)
            }),
    {
        let t = self.groups@.update(i, g);
        assert(t.map_values(|x: Group| x@) =~= self.views().update(i, g@));
        lemma_map_update(self.views(), group_key(), i, g@);
    }

    /// Creates group `group_id` with `mode`; an existing group is left as it is.
    pub fn default_insert_group(&mut self, group_id: String, mode: GroupMode)
        requires
            old(self).wf(),
        ensures
            final(self).wf(),
            final(self)@.dom().finite(),
            old(self)@.contains_key(group_id@) ==> final(self)@ == old(self)@,
            !old(self)@.contains_key(group_id@) ==> final(self)@ == old(self)@.insert(
                group_id@,
                GroupView { id: group_id@, mode, channels: Map::empty() },
            ),
    {
        if self.find(&group_id).is_some() {
            proof {
                lemma_map_len(self.views(), group_key());
            }
            return;
        }
        let group = Group::new(group_id, mode);
        let ghost gv = group@;
        proof {
            lemma_map_push(self.views(), group_key(), gv);
        }
        self.groups.push(group);
        assert(self.views() =~= old(self).views().push(gv));
        proof {
            lemma_map_len(self.views(), group_key());
        }
    }

    /// Puts `group` under its id, replacing any group that had that id.
    pub fn insert_group(&mut self, group: Group)
        requires
            old(self).wf(),
            group.wf(),
        ensures
            final(self).wf(),
            final(self)@.dom().finite(),
            final(self)@ == old(self)@.insert(group@.id, group@),
    {
        let ghost gv = group@;
        match self.find(group.id()) {
            Some(i) => {
                proof {
                    self.lemma_replace(i as int, group);
                }
                self.groups.set(i, group);
                assert(self.views() =~= old(self).views().update(i as int, gv));
            },
            None => {
                proof {
                    lemma_map_push(self.views(), group_key(), gv);
                }
                self.groups.push(group);
                assert(self.views() =~= old(self).views().push(gv));
            },
        }
        proof {
            lemma_map_len(self.views(), group_key());
        }
    }

    /// Removes group `group_id` with its channels, if it exists.
    pub fn remove_group(&mut self, group_id: String)
        requires
            old(self).wf(),
        ensures
            final(self).wf(),
            final(self)@.dom().finite(),
            final(self)@ == old(self)@.remove(group_id@),
    {
        match self.find(&group_id) {
            Some(i) => {
                proof {
                    lemma_map_remove(self.views(), group_key(), i as int);
                }
                self.groups.remove(i);
                assert(self.views() =~= old(self).views().remove(i as int));
                assert forall|j: int| 0 <= j < self.groups@.len() implies (
                #[trigger] self.groups@[j]).wf() by {
                    if j < i {
                        assert(self.groups@[j] == old(self).groups@[j]);
                    } else {
                        assert(self.groups@[j] == old(self).groups@[j + 1]);
                    }
                }
            },
            None => {
                assert(old(self)@.remove(group_id@) =~= old(self)@);
            },
        }
        proof {
            lemma_map_len(self.views(), group_key());
        }
    }

    /// Enqueues `message` on channel (`group_id`, `topic`); dropped where
    /// that channel does not exist.
    pub fn insert_message(&mut self, group_id: String, topic: String, message: Message)
        requires
            old(self).wf(),
        ensures
            final(self).wf(),
            old(self)@.contains_key(group_id@) && old(self)@[group_id@].channels.contains_key(
                topic@,
            ) ==> ({
                let g = old(self)@[group_id@];
                let c = g.channels[topic@];
                final(self)@ == old(self)@.insert(
                    group_id@,
                    with_channel(g, topic@, ChannelView { queue: spec_enqueue(c.queue, message), ..c }),
                )
            }),
            !(old(self)@.contains_key(group_id@) && old(self)@[group_id@].channels.contains_key(
                topic@,
            )) ==> final(self)@ == old(self)@,
    {
        match self.find(&group_id) {
            Some(i) => {
                let mut group = self.groups.remove(i);
                group.insert_message(topic, message);
                proof {
                    old(self).lemma_replace(i as int, group);
                }
                self.groups.insert(i, group);
                assert(self.groups@ =~= old(self).groups@.update(i as int, group));
                proof {
                    if !old(self)@[group_id@].channels.contains_key(topic@) {
                        assert(old(self)@.insert(group_id@, old(self)@[group_id@]) =~= old(self)@);
                    }
                }
            },
            None => {},
        }
    }

    /// Number of groups.
    pub fn group_num(&self) -> (r: u64)
        requires
            self.wf(),
        ensures
            r == self@.len(),
            self@.dom().finite(),
    {
        proof {
            lemma_map_len(self.views(), group_key());
        }
        self.groups.len() as u64
    }

    /// Number of messages queued on channel (`group_id`, `topic`); 0 where it
    /// does not exist.
    pub fn get_message_num_by_topic(&self, group_id: String, topic: String) -> (r: u64)
        requires
            self.wf(),
        ensures
            r == (if self@.contains_key(group_id@) && self@[group_id@].channels.contains_key(topic@) {
                self@[group_id@].channels[topic@].queue.len()
            } else {
                0
            }),
    {
        match self.find(&group_id) {
            Some(i) => match self.groups[i].get_channel(topic) {
                Some(channel) => channel.message_num(),
                None => 0,
            },
            None => 0,
        }
    }

    pub fn contains_id(&self, group_id: String) -> (r: bool)
        requires
            self.wf(),
        ensures
            r == self@.contains_key(group_id@),
    {
        self.find(&group_id).is_some()
    }

    pub fn contains_topic(&self, group_id: String, topic: String) -> (r: bool)
        requires
            self.wf(),
        ensures
            r == (self@.contains_key(group_id@) && self@[group_id@].channels.contains_key(topic@)),
    {
        match self.find(&group_id) {
            Some(i) => self.groups[i].contains_channel(topic),
            None => false,
        }
    }

    pub fn get_group_by_id(&self, group_id: String) -> (r: Option<&Group>)
        requires
            self.wf(),
        ensures
            r is None <==> !self@.contains_key(group_id@),
            r matches Some(g) ==> g@ == self@[group_id@] && g.wf(),
    {
        match self.find(&group_id) {
            Some(i) => Some(&self.groups[i]),
            None => None,
        }
    }

    /// Adds a channel for `topic` to group `group_id`; nothing happens where
    /// the group does not exist or already has that topic.
    pub fn insert_channel(&mut self, group_id: String, topic: String, channel_mode: ChannelMode)
        requires
            old(self).wf(),
        ensures
            final(self).wf(),
            old(self)@.contains_key(group_id@) && !old(self)@[group_id@].channels.contains_key(
                topic@,
            ) ==> ({
                let g = old(self)@[group_id@];
                final(self)@ == old(self)@.insert(
                    group_id@,
                    with_channel(g, topic@, fresh_channel(g, topic@, channel_mode)),
                )
            }),
            !(old(self)@.contains_key(group_id@) && !old(self)@[group_id@].channels.contains_key(
                topic@,
            )) ==> final(self)@ == old(self)@,
    {
        match self.find(&group_id) {
            Some(i) => {
                let mut group = self.groups.remove(i);
                group.insert_channel(topic, channel_mode);
                proof {
                    old(self).lemma_replace(i as int, group);
                }
                self.groups.insert(i, group);
                assert(self.groups@ =~= old(self).groups@.update(i as int, group));
                proof {
                    if old(self)@[group_id@].channels.contains_key(topic@) {
                        assert(old(self)@.insert(group_id@, old(self)@[group_id@]) =~= old(self)@);
                    }
                }
            },
            None => {},
        }
    }

    /// Mode of channel (`group_id`, `topic`); `Unspecified` where it does not
    /// exist.
    pub fn get_channel_mode(&self, group_id: String, topic: String) -> (r: ChannelMode)
        requires
            self.wf(),
        ensures
            r == (if self@.contains_key(group_id@) && self@[group_id@].channels.contains_key(topic@) {
                self@[group_id@].channels[topic@].mode
            } else {
                ChannelMode::Unspecified
            }),
    {
        match self.find(&group_id) {
            Some(i) => match self.groups[i].get_channel(topic) {
                Some(channel) => channel.mode(),
                None => ChannelMode::Unspecified,
            },
            None => ChannelMode::Unspecified,
        }
    }

    /// Dequeues the head message of channel (`group_id`, `topic`); fails
    /// where the channel does not exist or is empty.
    pub fn get_a_message(&mut self, group_id: String, topic: String) -> (r: Result<Message, ()>)
        requires
            old(self).wf(),
        ensures
            final(self).wf(),
            old(self)@.contains_key(group_id@) && old(self)@[group_id@].channels.contains_key(
                topic@,
            ) && old(self)@[group_id@].channels[topic@].queue.len() > 0 ==> ({
                let g = old(self)@[group_id@];
                let c = g.channels[topic@];
                &&& r == Ok::<Message, ()>(c.queue[0])
                &&& final(self)@ == old(self)@.insert(
                    group_id@,
                    with_channel(g, topic@, ChannelView { queue: c.queue.drop_first(), ..c }),
                )
            }),
            !(old(self)@.contains_key(group_id@) && old(self)@[group_id@].channels.contains_key(
                topic@,
            ) && old(self)@[group_id@].channels[topic@].queue.len() > 0) ==> r is Err
                && final(self)@ == old(self)@,
    {
        match self.find(&group_id) {
            Some(i) => {
                let mut group = self.groups.remove(i);
                let m = group.dequeue_message(topic);
                proof {
                    old(self).lemma_replace(i as int, group);
                }
                self.groups.insert(i, group);
                assert(self.groups@ =~= old(self).groups@.update(i as int, group));
                proof {
                    let g = old(self)@[group_id@];
                    if !(g.channels.contains_key(topic@) && g.channels[topic@].queue.len() > 0) {
                        if g.channels.contains_key(topic@) {
                            assert(g.channels.insert(topic@, g.channels[topic@]) =~= g.channels);
                        }
                        assert(old(self)@.insert(group_id@, g) =~= old(self)@);
                    }
                }
                match m {
                    Some(msg) => Ok(msg),
                    None => Err(()),
                }
            },
            None => Err(()),
        }
    }

    /// One delivery tick of channel (`group_id`, `topic`) (see `Channel::tick`).
    pub fn tick(&mut self, group_id: String, topic: String, binds: &ConnectionPoolAndGroupBind) -> (r:
        Vec<Delivery>)
        requires
            old(self).wf(),
            binds.wf(),
        ensures
            final(self).wf(),
            !(old(self)@.contains_key(group_id@) && old(self)@[group_id@].channels.contains_key(
                topic@,
            )) ==> final(self)@ == old(self)@ && r@.len() == 0,
            old(self)@.contains_key(group_id@) && old(self)@[group_id@].channels.contains_key(
                topic@,
            ) ==> ({
                let g = old(self)@[group_id@];
                let c = g.channels[topic@];
                let tokens = keys_with_value(binds.entries(), (c.group_id, c.topic));
                &&& tokens.no_duplicates()
                &&& broadcasts(c, tokens) ==> {
                    &&& final(self)@ == old(self)@.insert(
                        group_id@,
                        with_channel(g, topic@, ChannelView { queue: c.queue.drop_first(), ..c }),
                    )
                    &&& r@.len() == tokens.len()
                    &&& forall|i: int|
                        0 <= i < r@.len() ==> #[trigger] r@[i].token == tokens[i]
                            && r@[i].message@ == c.queue[0]@
                }
                &&& (c.mode == ChannelMode::Push && c.group_mode == GroupMode::Cluster
                    && tokens.len() > 0 && c.queue.len() > 0) ==> {
                    &&& final(self)@ == old(self)@.insert(
                        group_id@,
                        with_channel(g, topic@, ChannelView { queue: c.queue.drop_first(), ..c }),
                    )
                    &&& r@.len() == 1
                    &&& binds@.contains_key(r@[0].token)
                    &&& binds@[r@[0].token].1 == (c.group_id, c.topic)
                    &&& r@[0].message == c.queue[0]
                }
                &&& (c.mode != ChannelMode::Push || tokens.len() == 0 || c.queue.len() == 0)
                    ==> final(self)@ == old(self)@ && r@.len() == 0
            }),
    {
        match self.find(&group_id) {
            Some(i) => {
                let mut group = self.groups.remove(i);
                let r = group.tick_channel(topic, binds);
                proof {
                    old(self).lemma_replace(i as int, group);
                }
                self.groups.insert(i, group);
                assert(self.groups@ =~= old(self).groups@.update(i as int, group));
                proof {
                    let g = old(self)@[group_id@];
                    if g == group@ {
                        assert(old(self)@.insert(group_id@, g) =~= old(self)@);
                    }
                    if g.channels.contains_key(topic@) {
                        let c = g.channels[topic@];
                        let c2 = group@.channels[topic@];
                        if c2.queue == c.queue.drop_first() {
                            assert(group@ =~= with_channel(g, topic@, ChannelView { queue: c.queue.drop_first(), ..c }));
                        }
                    }
                }
                r
            },
            None => Vec::new(),
        }
    }

    /// The ids of all groups.
    pub fn group_ids(&self) -> (r: Vec<String>)
        requires
            self.wf(),
        ensures
            r@.len() == self.views().len(),
            forall|k: Seq<char>| self@.contains_key(k) <==> exists|i: int|
                0 <= i < r@.len() && (#[trigger] r@[i])@ == k,
    {
        let mut out: Vec<String> = Vec::new();
        let mut i: usize = 0;
        while i < self.groups.len()
            invariant
                i <= self.groups@.len(),
                out@.len() == i,
                forall|j: int| 0 <= j < i ==> (#[trigger] out@[j])@ == self.views()[j].id,
            decreases self.groups@.len() - i,
        {
            out.push(self.groups[i].id().clone());
            i = i + 1;
        }
        proof {
            assert forall|k: Seq<char>| self@.contains_key(k) <==> exists|j: int|
                0 <= j < out@.len() && (#[trigger] out@[j])@ == k by {
                lemma_map_domain(self.views(), group_key(), k);
                if self@.contains_key(k) {
                    let j = choose|j: int| 0 <= j < self.views().len() && self.views()[j].id == k;
                    assert(out@[j]@ == k);
                }
            }
        }
        out
    }
}

} // verus!
