//! The consumer side: pull requests and the choice of consumer for a
//! delivered message.
use vstd::prelude::*;

use crate::msg::{ConsumerType, Message, MessageStatus, MessageType, MessageView, spec_dto_bytes, spec_to_dto};
use crate::protocol::{spec_frame_bytes, FrameError};
use crate::server::reply_frame;
use crate::types::{ConsumerBinder, RouteView};

verus! {

/// The business pull request for (`group_id`, `topic`).
pub open spec fn pull_message(group_id: Seq<char>, topic: Seq<char>) -> MessageView {
    MessageView {
        group_id,
        topic,
        data: Seq::empty(),
        msg_type: MessageType::Business,
        consumer_type: ConsumerType::Pull,
        status: MessageStatus::Unspecified,
    }
}

/// A consumer: the names of the consumers it runs, by (group id, topic).
pub struct LuminMQClient {
    binder: ConsumerBinder,
}

impl LuminMQClient {
    pub closed spec fn wf(&self) -> bool {
        self.binder.wf()
    }

    pub closed spec fn consumers(&self) -> Map<RouteView, (RouteView, Seq<char>)> {
        self.binder@
    }

    pub fn new() -> (r: Self)
        ensures
            r.wf(),
            r.consumers() == Map::<RouteView, (RouteView, Seq<char>)>::empty(),
    {
        LuminMQClient { binder: ConsumerBinder::new() }
    }

    /// Registers consumer `name` for (`group_id`, `topic`).
    pub fn register(&mut self, group_id: String, topic: String, name: String)
        requires
            old(self).wf(),
        ensures
            final(self).wf(),
            final(self).consumers() == old(self).consumers().insert(
                (group_id@, topic@),
                ((group_id@, topic@), name@),
            ),
    {
        self.binder.insert((group_id, topic), name);
    }

    /// The frame that asks the broker for one message of (`group_id`, `topic`).
    pub fn pull_request(group_id: String, topic: String) -> (r: Result<Vec<u8>, FrameError>)
        ensures
            spec_dto_bytes(spec_to_dto(pull_message(group_id@, topic@))).len() <= u32::MAX
                ==> (r matches Ok(b) && b@ == spec_frame_bytes(
                reply_frame(pull_message(group_id@, topic@)),
            )),
            spec_dto_bytes(spec_to_dto(pull_message(group_id@, topic@))).len() > u32::MAX
                ==> r is Err,
    {
        let m = Message::new(
            group_id,
            topic,
            String::new(),
            MessageType::Business,
            ConsumerType::Pull,
            MessageStatus::Unspecified,
        );
        m.frame_bytes()
    }

    /// The consumer to run for a delivered message: the one registered for
    /// its (group id, topic), where the delivery succeeded.
    pub fn consumer_for(&self, msg: &Message) -> (r: Option<String>)
        requires
            self.wf(),
        ensures
            (msg.status == MessageStatus::Success && self.consumers().contains_key(
                (msg.group_id@, msg.topic.name@),
            )) ==> (r matches Some(n) && n@ == self.consumers()[(msg.group_id@, msg.topic.name@)].1),
            !(msg.status == MessageStatus::Success && self.consumers().contains_key(
                (msg.group_id@, msg.topic.name@),
            )) ==> r is None,
    {
        if msg.status != MessageStatus::Success {
            return None;
        }
        match self.binder.get((msg.group_id.clone(), msg.topic.name.clone())) {
            Ok(name) => Some(name),
            Err(_) => None,
        }
    }
}

} // verus!
