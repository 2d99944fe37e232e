//! Messages: the routing envelope and its wire form.
use vstd::prelude::*;

use crate::codec::{
    read_str, read_u16, spec_read_str, spec_read_u16, spec_str, spec_u16_le, str_fits, write_str,
    write_u16, lemma_read_str, lemma_read_u16, CodecError,
};
use crate::topic::Topic;

verus! {

/// Kind of a message.
#[derive(Debug, Clone, Copy, PartialEq, Eq, Structural)]
pub enum MessageType {
    /// A control message, such as a consumer registering.
    System,
    /// An ordinary queue message.
    Business,
    Unspecified,
}

/// Delivery status carried by a reply.
#[derive(Debug, Clone, Copy, PartialEq, Eq, Structural)]
pub enum MessageStatus {
    Success,
    Fail,
    Unspecified,
}

/// Role of the peer that sent a message.
#[derive(Debug, Clone, Copy, PartialEq, Eq, Structural)]
pub enum ConsumerType {
    /// The peer asks to take a message from the channel.
    Pull,
    /// The peer hands a message to the channel.
    Send,
    Unspecified,
}

/// The wire form of a message: enums travel as their numeric codes.
#[derive(Debug, Clone, PartialEq, Eq)]
pub struct MessageDTO {
    pub group_id: String,
    pub topic: String,
    /// 0 system, 1 business, 2 none.
    pub msg_type: u16,
    /// 0 pull, 1 send, 2 none.
    pub consumer_type: u16,
    /// 0 success, 1 fail, 2 none.
    pub status: u16,
    pub data: String,
}

pub struct MessageDTOView {
    pub group_id: Seq<char>,
    pub topic: Seq<char>,
    pub msg_type: u16,
    pub consumer_type: u16,
    pub status: u16,
    pub data: Seq<char>,
}

impl View for MessageDTO {
    type V = MessageDTOView;

    open spec fn view(&self) -> MessageDTOView {
        MessageDTOView {
            group_id: self.group_id@,
            topic: self.topic@,
            msg_type: self.msg_type,
            consumer_type: self.consumer_type,
            status: self.status,
            data: self.data@,
        }
    }
}

/// A routed message as the broker handles it.
#[derive(Debug, Clone, PartialEq, Eq)]
pub struct Message {
    pub group_id: String,
    pub topic: Topic,
    pub data: String,
    pub msg_type: MessageType,
    pub consumer_type: ConsumerType,
    pub status: MessageStatus,
}

pub struct MessageView {
    pub group_id: Seq<char>,
    pub topic: Seq<char>,
    pub data: Seq<char>,
    pub msg_type: MessageType,
    pub consumer_type: ConsumerType,
    pub status: MessageStatus,
}

impl View for Message {
    type V = MessageView;

    open spec fn view(&self) -> MessageView {
        MessageView {
            group_id: self.group_id@,
            topic: self.topic.name@,
            data: self.data@,
            msg_type: self.msg_type,
            consumer_type: self.consumer_type,
            status: self.status,
        }
    }
}

pub open spec fn msg_type_of(code: u16) -> MessageType {
    if code == 0 {
        MessageType::System
    } else if code == 1 {
        MessageType::Business
    } else {
        MessageType::Unspecified
    }
}

pub open spec fn consumer_type_of(code: u16) -> ConsumerType {
    if code == 0 {
        ConsumerType::Pull
    } else if code == 1 {
        ConsumerType::Send
    } else {
        ConsumerType::Unspecified
    }
}

pub open spec fn status_of(code: u16) -> MessageStatus {
    if code == 0 {
        MessageStatus::Success
    } else if code == 1 {
        MessageStatus::Fail
    } else {
        MessageStatus::Unspecified
    }
}

pub open spec fn msg_type_code(t: MessageType) -> u16 {
    match t {
        MessageType::System => 0,
        MessageType::Business => 1,
        MessageType::Unspecified => 2,
    }
}

pub open spec fn consumer_type_code(t: ConsumerType) -> u16 {
    match t {
        ConsumerType::Pull => 0,
        ConsumerType::Send => 1,
        ConsumerType::Unspecified => 2,
    }
}

pub open spec fn status_code(s: MessageStatus) -> u16 {
    match s {
        MessageStatus::Success => 0,
        MessageStatus::Fail => 1,
        MessageStatus::Unspecified => 2,
    }
}

/// The message that a wire record stands for.
pub open spec fn spec_to_message(d: MessageDTOView) -> MessageView {
    MessageView {
        group_id: d.group_id,
        topic: d.topic,
        data: d.data,
        msg_type: msg_type_of(d.msg_type),
        consumer_type: consumer_type_of(d.consumer_type),
        status: status_of(d.status),
    }
}

/// The wire record of a message.
pub open spec fn spec_to_dto(m: MessageView) -> MessageDTOView {
    MessageDTOView {
        group_id: m.group_id,
        topic: m.topic,
        msg_type: msg_type_code(m.msg_type),
        consumer_type: consumer_type_code(m.consumer_type),
        status: status_code(m.status),
        data: m.data,
    }
}

/// The encoding of a wire record: its fields in declaration order.
pub open spec fn spec_dto_bytes(d: MessageDTOView) -> Seq<u8> {
    spec_str(d.group_id) + spec_str(d.topic) + spec_u16_le(d.msg_type) + spec_u16_le(
        d.consumer_type,
    ) + spec_u16_le(d.status) + spec_str(d.data)
}

/// Every string of the record fits the wire.
pub open spec fn dto_fits(d: MessageDTOView) -> bool {
    str_fits(d.group_id) && str_fits(d.topic) && str_fits(d.data)
}

pub open spec fn rest(b: Seq<u8>, n: nat) -> Seq<u8> {
    b.subrange(n as int, b.len() as int)
}

/// Decoding a wire record from the front of `b`: the record and the bytes it took.
pub open spec fn spec_read_dto(b: Seq<u8>) -> Result<(MessageDTOView, nat), CodecError> {
    match spec_read_str(b) {
        Err(e) => Err(e),
        Ok((g, n1)) => match spec_read_str(rest(b, n1)) {
            Err(e) => Err(e),
            Ok((t, n2)) => match spec_read_u16(rest(b, n1 + n2)) {
                Err(e) => Err(e),
                Ok((mt, n3)) => match spec_read_u16(rest(b, n1 + n2 + n3)) {
                    Err(e) => Err(e),
                    Ok((ct, n4)) => match spec_read_u16(rest(b, n1 + n2 + n3 + n4)) {
                        Err(e) => Err(e),
                        Ok((st, n5)) => match spec_read_str(rest(b, n1 + n2 + n3 + n4 + n5)) {
                            Err(e) => Err(e),
                            Ok((d, n6)) => Ok(
                                (
                                    MessageDTOView {
                                        group_id: g,
                                        topic: t,
                                        msg_type: mt,
                                        consumer_type: ct,
                                        status: st,
                                        data: d,
                                    },
                                    n1 + n2 + n3 + n4 + n5 + n6,
                                ),
                            ),
                        },
                    },
                },
            },
        },
    }
}

proof fn lemma_rest_append(a: Seq<u8>, b: Seq<u8>)
    ensures
        rest(a + b, a.len()) == b,
{
    assert(rest(a + b, a.len()) =~= b);
}

/// Decoding the encoding of a wire record gives back that record, whatever
/// bytes follow it.
#[verifier::rlimit(50)]
pub proof fn lemma_dto_round_trip(d: MessageDTOView, tail: Seq<u8>)
    requires
        dto_fits(d),
    ensures
        spec_read_dto(spec_dto_bytes(d) + tail) == Ok::<(MessageDTOView, nat), CodecError>(
            (d, spec_dto_bytes(d).len()),
        ),
{
    let a = spec_str(d.group_id);
    let b = spec_str(d.topic);
    let c = spec_u16_le(d.msg_type);
    let e = spec_u16_le(d.consumer_type);
    let f = spec_u16_le(d.status);
    let g = spec_str(d.data);
    let all = spec_dto_bytes(d) + tail;
    assert(all =~= a + (b + c + e + f + g + tail));
    lemma_read_str(d.group_id, b + c + e + f + g + tail);
    lemma_rest_append(a, b + c + e + f + g + tail);
    assert(all =~= (a + b) + (c + e + f + g + tail));
    assert(b + c + e + f + g + tail =~= b + (c + e + f + g + tail));
    lemma_read_str(d.topic, c + e + f + g + tail);
    lemma_rest_append(a + b, c + e + f + g + tail);
    assert(all =~= (a + b + c) + (e + f + g + tail));
    assert(c + e + f + g + tail =~= c + (e + f + g + tail));
    lemma_read_u16(d.msg_type, e + f + g + tail);
    lemma_rest_append(a + b + c, e + f + g + tail);
    assert(all =~= (a + b + c + e) + (f + g + tail));
    assert(e + f + g + tail =~= e + (f + g + tail));
    lemma_read_u16(d.consumer_type, f + g + tail);
    lemma_rest_append(a + b + c + e, f + g + tail);
    assert(all =~= (a + b + c + e + f) + (g + tail));
    assert(f + g + tail =~= f + (g + tail));
    lemma_read_u16(d.status, g + tail);
    lemma_rest_append(a + b + c + e + f, g + tail);
    lemma_read_str(d.data, tail);
}

/// Decoding the encoding of a wire record gives back exactly that record.
pub proof fn lemma_decode_encode(d: MessageDTOView)
    requires
        dto_fits(d),
    ensures
        spec_read_dto(spec_dto_bytes(d)) == Ok::<(MessageDTOView, nat), CodecError>(
            (d, spec_dto_bytes(d).len()),
        ),
{
    lemma_dto_round_trip(d, Seq::empty());
    assert(spec_dto_bytes(d) + Seq::<u8>::empty() =~= spec_dto_bytes(d));
}

impl MessageDTO {
    pub fn new(
        group_id: String,
        topic: String,
        msg_type: u16,
        consumer_type: u16,
        status: u16,
        data: String,
    ) -> (r: Self)
        ensures
            r@ == (MessageDTOView {
                group_id: group_id@,
                topic: topic@,
                msg_type,
                consumer_type,
                status,
                data: data@,
            }),
    {
        Self { group_id, topic, msg_type, consumer_type, status, data }
    }

    /// A record with the same fields.
    pub fn duplicate(&self) -> (r: Self)
        ensures
            r@ == self@,
    {
        MessageDTO {
            group_id: self.group_id.clone(),
            topic: self.topic.clone(),
            msg_type: self.msg_type,
            consumer_type: self.consumer_type,
            status: self.status,
            data: self.data.clone(),
        }
    }

    /// Appends the encoding of this record.
    pub fn write(&self, out: &mut Vec<u8>)
        ensures
            final(out)@ == old(out)@ + spec_dto_bytes(self@),
    {
        write_str(out, self.group_id.as_str());
        write_str(out, self.topic.as_str());
        write_u16(out, self.msg_type);
        write_u16(out, self.consumer_type);
        write_u16(out, self.status);
        write_str(out, self.data.as_str());
        assert(final(out)@ =~= old(out)@ + spec_dto_bytes(self@));
    }

    /// Decodes a record at `pos`; on success returns it with the position after it.
    pub fn read(b: &[u8], pos: usize) -> (r: Result<(MessageDTO, usize), CodecError>)
        requires
            pos <= b@.len(),
        ensures
            match spec_read_dto(rest(b@, pos as nat)) {
                Ok((d, n)) => r matches Ok((m, p)) && m@ == d && p == pos + n,
                Err(e) => r == Err::<(MessageDTO, usize), CodecError>(e),
            },
    {
        let ghost s = rest(b@, pos as nat);
        let (group_id, p1) = match read_str(b, pos) {
            Ok(x) => x,
            Err(e) => return Err(e),
        };
        assert(rest(s, (p1 - pos) as nat) =~= rest(b@, p1 as nat));
        let (topic, p2) = match read_str(b, p1) {
            Ok(x) => x,
            Err(e) => return Err(e),
        };
        assert(rest(s, (p2 - pos) as nat) =~= rest(b@, p2 as nat));
        let (msg_type, p3) = match read_u16(b, p2) {
            Ok(x) => x,
            Err(e) => return Err(e),
        };
        assert(p3 == p2 + 2 && p3 <= b@.len());
        assert(rest(s, (p3 - pos) as nat) =~= rest(b@, p3 as nat));
        let (consumer_type, p4) = match read_u16(b, p3) {
            Ok(x) => x,
            Err(e) => return Err(e),
        };
        assert(p4 == p3 + 2 && p4 <= b@.len());
        assert(rest(s, (p4 - pos) as nat) =~= rest(b@, p4 as nat));
        let (status, p5) = match read_u16(b, p4) {
            Ok(x) => x,
            Err(e) => return Err(e),
        };
        assert(p5 == p4 + 2 && p5 <= b@.len());
        assert(rest(s, (p5 - pos) as nat) =~= rest(b@, p5 as nat));
        let (data, p6) = match read_str(b, p5) {
            Ok(x) => x,
            Err(e) => return Err(e),
        };
        Ok((MessageDTO { group_id, topic, msg_type, consumer_type, status, data }, p6))
    }

    /// Decodes a record from the front of `bytes`; bytes after it are ignored.
    pub fn from_bytes(bytes: &[u8]) -> (r: Result<MessageDTO, CodecError>)
        ensures
            match spec_read_dto(bytes@) {
                Ok((d, n)) => r matches Ok(m) && m@ == d,
                Err(e) => r == Err::<MessageDTO, CodecError>(e),
            },
    {
        assert(rest(bytes@, 0) =~= bytes@);
        match MessageDTO::read(bytes, 0) {
            Ok((m, _)) => Ok(m),
            Err(e) => Err(e),
        }
    }

    pub fn to_byte_vec(&self) -> (r: Vec<u8>)
        ensures
            r@ == spec_dto_bytes(self@),
    {
        let mut out: Vec<u8> = Vec::new();
        self.write(&mut out);
        assert(out@ =~= spec_dto_bytes(self@));
        out
    }

    /// Length in bytes of this record's encoding.
    pub fn size(&self) -> (r: usize)
        ensures
            r == spec_dto_bytes(self@).len(),
    {
        self.to_byte_vec().len()
    }

    pub fn to_message(&self) -> (r: Message)
        ensures
            r@ == spec_to_message(self@),
    {
        Message {
            group_id: self.group_id.clone(),
            topic: Topic::new(self.topic.clone()),
            data: self.data.clone(),
            msg_type: if self.msg_type == 0 {
                MessageType::System
            } else if self.msg_type == 1 {
                MessageType::Business
            } else {
                MessageType::Unspecified
            },
            consumer_type: if self.consumer_type == 0 {
                ConsumerType::Pull
            } else if self.consumer_type == 1 {
                ConsumerType::Send
            } else {
                ConsumerType::Unspecified
            },
            status: if self.status == 0 {
                MessageStatus::Success
            } else if self.status == 1 {
                MessageStatus::Fail
            } else {
                MessageStatus::Unspecified
            },
        }
    }
}

impl Default for MessageDTO {
    fn default() -> (r: Self)
        ensures
            r@ == (MessageDTOView {
                group_id: Seq::empty(),
                topic: Seq::empty(),
                msg_type: 0,
                consumer_type: 0,
                status: 0,
                data: Seq::empty(),
            }),
    {
        MessageDTO {
            group_id: String::new(),
            topic: String::new(),
            msg_type: 0,
            consumer_type: 0,
            status: 0,
            data: String::new(),
        }
    }
}

impl Message {
    pub fn new(
        group_id: String,
        topic: String,
        data: String,
        msg_type: MessageType,
        consumer_type: ConsumerType,
        status: MessageStatus,
    ) -> (r: Self)
        ensures
            r@ == (MessageView {
                group_id: group_id@,
                topic: topic@,
                data: data@,
                msg_type,
                consumer_type,
                status,
            }),
    {
        Self { group_id, topic: Topic::new(topic), data, msg_type, consumer_type, status }
    }

    /// A message with the same fields.
    pub fn duplicate(&self) -> (r: Self)
        ensures
            r@ == self@,
    {
        Message {
            group_id: self.group_id.clone(),
            topic: self.topic.duplicate(),
            data: self.data.clone(),
            msg_type: self.msg_type,
            consumer_type: self.consumer_type,
            status: self.status,
        }
    }

    pub fn is_group_id_empty(&self) -> (r: bool)
        ensures
            r == (self.group_id@.len() == 0),
    {
        self.group_id.as_str().is_empty()
    }

    pub fn is_topic_id_empty(&self) -> (r: bool)
        ensures
            r == (self.topic.name@.len() == 0),
    {
        self.topic.is_name_empty()
    }

    pub fn to_messagedto(&self) -> (r: MessageDTO)
        ensures
            r@ == spec_to_dto(self@),
    {
        MessageDTO::new(
            self.group_id.clone(),
            self.topic.name.clone(),
            match self.msg_type {
                MessageType::System => 0,
                MessageType::Business => 1,
                MessageType::Unspecified => 2,
            },
            match self.consumer_type {
                ConsumerType::Pull => 0,
                ConsumerType::Send => 1,
                ConsumerType::Unspecified => 2,
            },
            match self.status {
                MessageStatus::Success => 0,
                MessageStatus::Fail => 1,
                MessageStatus::Unspecified => 2,
            },
            self.data.clone(),
        )
    }
}

impl Default for Message {
    fn default() -> (r: Self)
        ensures
            r@ == (MessageView {
                group_id: Seq::empty(),
                topic: Seq::empty(),
                data: Seq::empty(),
                msg_type: MessageType::Unspecified,
                consumer_type: ConsumerType::Unspecified,
                status: MessageStatus::Unspecified,
            }),
    {
        Message {
            group_id: String::new(),
            topic: Topic::new(String::new()),
            data: String::new(),
            msg_type: MessageType::Unspecified,
            consumer_type: ConsumerType::Unspecified,
            status: MessageStatus::Unspecified,
        }
    }
}

/// A message turned into its wire record and back is the same message.
pub proof fn lemma_message_dto_round_trip(m: MessageView)
    ensures
        spec_to_message(spec_to_dto(m)) == m,
{
}

} // verus!
