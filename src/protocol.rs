//! Frames: head, body and end marker, and reading them back from a byte stream.
use vstd::prelude::*;
use vstd::string::*;

use crate::codec::{
    lemma_read_str, lemma_read_u32, read_str, read_u32, spec_read_str, spec_read_u32, spec_str,
    spec_u32_le, str_fits, write_str, write_u32, CodecError,
};
use crate::msg::{
    dto_fits, lemma_dto_round_trip, rest, spec_dto_bytes, spec_read_dto, spec_to_message, Message,
    MessageDTO, MessageDTOView,
};

verus! {

/// Largest body size, in bytes, that a frame may announce (16 MiB).
pub const MAX_FRAME_SIZE: u32 = 16777216;

/// Why no frame could be read from the front of a buffer.
#[derive(Debug, Clone, Copy, PartialEq, Eq, Structural)]
pub enum FrameError {
    /// The head does not decode or does not carry the protocol identifier.
    BadHead,
    /// The head announces a body larger than `MAX_FRAME_SIZE`, or a body to
    /// send is too long for the head's size field.
    Oversize,
    /// The body does not decode as a message record.
    BadBody,
    /// The end marker does not decode or is not the expected one.
    BadEnd,
    /// The buffer ends inside the frame.
    ShortRead,
}

/// The identifier every head carries.
pub open spec fn spec_identifier() -> Seq<char> {
    seq!['l', 'u', 'm', 'i', 'n', 'm', 'q']
}

/// The end marker every frame closes with.
pub open spec fn spec_end_flag() -> Seq<char> {
    seq!['E', 'N', 'D']
}

/// Frame head: protocol identifier and the byte length of the body.
#[derive(Debug, Clone, PartialEq, Eq)]
pub struct ProtocolHead {
    pub identifier: String,
    pub data_size: u32,
}

/// Frame body: one message record.
#[derive(Debug, Clone, PartialEq, Eq)]
pub struct ProtocolBody {
    pub message: MessageDTO,
}

/// Frame end marker.
#[derive(Debug, Clone, PartialEq, Eq)]
pub struct ProtocolEnd {
    pub flag: String,
}

/// A frame: head, body and end, transmitted in that order.
#[derive(Debug, Clone, PartialEq, Eq)]
pub struct Protocol {
    pub head: ProtocolHead,
    pub body: ProtocolBody,
    pub end: ProtocolEnd,
}

pub struct FrameView {
    pub identifier: Seq<char>,
    pub data_size: u32,
    pub message: MessageDTOView,
    pub flag: Seq<char>,
}

impl View for Protocol {
    type V = FrameView;

    open spec fn view(&self) -> FrameView {
        FrameView {
            identifier: self.head.identifier@,
            data_size: self.head.data_size,
            message: self.body.message@,
            flag: self.end.flag@,
        }
    }
}

pub open spec fn spec_head_bytes(identifier: Seq<char>, data_size: u32) -> Seq<u8> {
    spec_str(identifier) + spec_u32_le(data_size)
}

/// Length of every well-formed head.
pub open spec fn head_len() -> nat {
    spec_head_bytes(spec_identifier(), 0).len()
}

/// Length of the end marker.
pub open spec fn end_len() -> nat {
    spec_str(spec_end_flag()).len()
}

/// The bytes of a frame: head, body, end.
pub open spec fn spec_frame_bytes(f: FrameView) -> Seq<u8> {
    spec_head_bytes(f.identifier, f.data_size) + spec_dto_bytes(f.message) + spec_str(f.flag)
}

/// A frame as the writer sends it: the fixed identifier and end marker, and
/// a body size that matches the body and is within the limit.
pub open spec fn well_formed(f: FrameView) -> bool {
    &&& f.identifier == spec_identifier()
    &&& f.flag == spec_end_flag()
    &&& dto_fits(f.message)
    &&& f.data_size == spec_dto_bytes(f.message).len()
    &&& f.data_size <= MAX_FRAME_SIZE
}

/// Decoding a head's two fields from the front of `b`.
pub open spec fn spec_decode_head(b: Seq<u8>) -> Result<((Seq<char>, u32), nat), CodecError> {
    match spec_read_str(b) {
        Err(e) => Err(e),
        Ok((id, n1)) => match spec_read_u32(rest(b, n1)) {
            Err(e) => Err(e),
            Ok((size, n2)) => Ok(((id, size), n1 + n2)),
        },
    }
}

/// Reading the head of a frame: it takes `head_len()` bytes.
pub open spec fn spec_read_head(b: Seq<u8>) -> Result<((Seq<char>, u32), nat), (FrameError, nat)> {
    if b.len() < head_len() {
        Err((FrameError::ShortRead, b.len()))
    } else {
        match spec_decode_head(b.subrange(0, head_len() as int)) {
            Err(_) => Err((FrameError::BadHead, head_len())),
            Ok(((id, size), _)) => if id != spec_identifier() {
                Err((FrameError::BadHead, head_len()))
            } else {
                Ok(((id, size), head_len()))
            },
        }
    }
}

/// Reading a body of `size` bytes.
pub open spec fn spec_read_body(b: Seq<u8>, size: nat) -> Result<(MessageDTOView, nat), (FrameError, nat)> {
    if size > MAX_FRAME_SIZE {
        Err((FrameError::Oversize, 0))
    } else if b.len() < size {
        Err((FrameError::ShortRead, b.len()))
    } else {
        match spec_read_dto(b.subrange(0, size as int)) {
            Err(_) => Err((FrameError::BadBody, size)),
            Ok((d, _)) => Ok((d, size)),
        }
    }
}

/// Reading the end marker.
pub open spec fn spec_read_end(b: Seq<u8>) -> Result<(Seq<char>, nat), (FrameError, nat)> {
    if b.len() < end_len() {
        Err((FrameError::ShortRead, b.len()))
    } else {
        match spec_read_str(b.subrange(0, end_len() as int)) {
            Err(_) => Err((FrameError::BadEnd, end_len())),
            Ok((f, _)) => if f != spec_end_flag() {
                Err((FrameError::BadEnd, end_len()))
            } else {
                Ok((f, end_len()))
            },
        }
    }
}

/// Reading one frame from the front of `b`: the frame and the bytes it took,
/// or the error and the bytes to discard.
pub open spec fn spec_read_frame(b: Seq<u8>) -> Result<(FrameView, nat), (FrameError, nat)> {
    match spec_read_head(b) {
        Err(x) => Err(x),
        Ok(((id, size), h)) => if size > MAX_FRAME_SIZE {
            Err((FrameError::Oversize, h))
        } else {
            match spec_read_body(rest(b, h), size as nat) {
                Err((e, n)) => Err((e, h + n)),
                Ok((d, n1)) => match spec_read_end(rest(b, h + n1)) {
                    Err((e, n)) => Err((e, h + n1 + n)),
                    Ok((f, n2)) => Ok(
                        (
                            FrameView { identifier: id, data_size: size, message: d, flag: f },
                            h + n1 + n2,
                        ),
                    ),
                },
            }
        },
    }
}

/// The frames read one after another from `b`, up to its end or the first
/// error.
pub open spec fn spec_read_frames(b: Seq<u8>) -> Seq<FrameView>
    decreases b.len(),
{
    if b.len() == 0 {
        Seq::empty()
    } else {
        match spec_read_frame(b) {
            Ok((f, n)) => if 0 < n <= b.len() {
                seq![f] + spec_read_frames(rest(b, n))
            } else {
                Seq::empty()
            },
            Err(_) => Seq::empty(),
        }
    }
}

/// The bytes of several frames sent one after another.
pub open spec fn spec_frames_bytes(fs: Seq<FrameView>) -> Seq<u8>
    decreases fs.len(),
{
    if fs.len() == 0 {
        Seq::empty()
    } else {
        spec_frame_bytes(fs[0]) + spec_frames_bytes(fs.drop_first())
    }
}

/// Maps a `Result` of a frame read with an exec frame to the spec outcome.
pub open spec fn frame_read_as(
    r: Result<(Protocol, usize), (FrameError, usize)>,
    s: Result<(FrameView, nat), (FrameError, nat)>,
) -> bool {
    match s {
        Ok((f, n)) => r matches Ok((p, m)) && p@ == f && m == n,
        Err((e, n)) => r matches Err((e2, m)) && e2 == e && m == n,
    }
}

fn identifier() -> (r: String)
    ensures
        r@ == spec_identifier(),
{
    let s = String::from_str("luminmq");
    proof {
        reveal_strlit("luminmq");
    }
    assert(s@ =~= spec_identifier());
    s
}

fn end_flag() -> (r: String)
    ensures
        r@ == spec_end_flag(),
{
    let s = String::from_str("END");
    proof {
        reveal_strlit("END");
    }
    assert(s@ =~= spec_end_flag());
    s
}

fn strings_equal(a: &String, b: &String) -> (r: bool)
    ensures
        r == (a@ == b@),
{
    *a == *b
}

proof fn lemma_head_len(identifier: Seq<char>, size: u32)
    ensures
        spec_head_bytes(identifier, size).len() == spec_str(identifier).len() + 4,
{
}

/// Reading a frame's encoding gives back that frame, whatever follows it.
#[verifier::rlimit(60)]
pub proof fn lemma_frame_round_trip(f: FrameView, tail: Seq<u8>)
    requires
        well_formed(f),
    ensures
        spec_read_frame(spec_frame_bytes(f) + tail) == Ok::<(FrameView, nat), (FrameError, nat)>(
            (f, spec_frame_bytes(f).len()),
        ),
{
    let hb = spec_head_bytes(f.identifier, f.data_size);
    let db = spec_dto_bytes(f.message);
    let eb = spec_str(f.flag);
    let b = spec_frame_bytes(f) + tail;
    lemma_head_len(f.identifier, f.data_size);
    lemma_head_len(spec_identifier(), 0);
    let h = head_len();
    assert(hb.len() == h);
    // head
    assert(b.subrange(0, h as int) =~= spec_str(f.identifier) + (spec_u32_le(f.data_size) + Seq::<u8>::empty()));
    assert(str_fits(f.identifier)) by {
        vstd::utf8::is_ascii_chars_encode_utf8(spec_identifier());
        assert(vstd::utf8::is_ascii_chars(spec_identifier()));
    }
    lemma_read_str(f.identifier, spec_u32_le(f.data_size) + Seq::<u8>::empty());
    let hs = b.subrange(0, h as int);
    assert(rest(hs, spec_str(f.identifier).len()) =~= spec_u32_le(f.data_size) + Seq::<u8>::empty());
    lemma_read_u32(f.data_size, Seq::<u8>::empty());
    // body
    let size = f.data_size as nat;
    assert(rest(b, h) =~= db + (eb + tail));
    assert(rest(b, h).subrange(0, size as int) =~= db);
    lemma_dto_round_trip(f.message, Seq::<u8>::empty());
    assert(db + Seq::<u8>::empty() =~= db);
    // end
    assert(rest(b, h + size) =~= eb + tail);
    assert(str_fits(f.flag)) by {
        vstd::utf8::is_ascii_chars_encode_utf8(spec_end_flag());
        assert(vstd::utf8::is_ascii_chars(spec_end_flag()));
    }
    assert(rest(b, h + size).subrange(0, end_len() as int) =~= eb + Seq::<u8>::empty());
    lemma_read_str(f.flag, Seq::<u8>::empty());
    assert(spec_frame_bytes(f).len() == h + size + end_len());
}

/// Reading a stream made of well-formed frames, one after another, gives back
/// exactly those frames in order.
pub proof fn lemma_frames_round_trip(fs: Seq<FrameView>)
    requires
        forall|i: int| 0 <= i < fs.len() ==> well_formed(#[trigger] fs[i]),
    ensures
        spec_read_frames(spec_frames_bytes(fs)) == fs,
    decreases fs.len(),
{
    if fs.len() == 0 {
        assert(spec_frames_bytes(fs).len() == 0);
        assert(spec_read_frames(spec_frames_bytes(fs)) =~= fs);
    } else {
        let f = fs[0];
        let tail = spec_frames_bytes(fs.drop_first());
        let b = spec_frames_bytes(fs);
        assert(well_formed(fs[0]));
        lemma_frame_round_trip(f, tail);
        let n = spec_frame_bytes(f).len();
        lemma_head_len(spec_identifier(), 0);
        assert(0 < n);
        assert(rest(b, n) =~= tail);
        assert forall|i: int| 0 <= i < fs.drop_first().len() implies well_formed(
            #[trigger] fs.drop_first()[i],
        ) by {
            assert(fs.drop_first()[i] == fs[i + 1]);
        }
        lemma_frames_round_trip(fs.drop_first());
        assert(seq![f] + fs.drop_first() =~= fs);
    }
}

impl ProtocolHead {
    /// A head with the protocol identifier and an empty body announced.
    pub fn new() -> (r: Self)
        ensures
            r.identifier@ == spec_identifier(),
            r.data_size == 0,
    {
        ProtocolHead { identifier: identifier(), data_size: 0 }
    }

    /// Whether `bytes` start with a head that carries the protocol identifier.
    pub fn is(bytes: &[u8]) -> (r: bool)
        ensures
            r == (spec_decode_head(bytes@) matches Ok(((id, _), _)) && id == spec_identifier()),
    {
        match ProtocolHead::from_bytes(bytes) {
            Ok(head) => {
                let ident = identifier();
                strings_equal(&head.identifier, &ident)
            },
            Err(_) => false,
        }
    }

    /// Length in bytes of a head; the same for every head the writer makes.
    pub fn size() -> (r: usize)
        ensures
            r == head_len(),
    {
        ProtocolHead::default().to_byte_vec().len()
    }

    pub fn from_bytes(bytes: &[u8]) -> (r: Result<ProtocolHead, CodecError>)
        ensures
            match spec_decode_head(bytes@) {
                Ok(((id, size), _)) => r matches Ok(h) && h.identifier@ == id && h.data_size
                    == size,
                Err(e) => r == Err::<ProtocolHead, CodecError>(e),
            },
    {
        assert(bytes@.subrange(0, bytes@.len() as int) =~= bytes@);
        let (identifier, p) = match read_str(bytes, 0) {
            Ok(x) => x,
            Err(e) => return Err(e),
        };
        assert(rest(bytes@, p as nat) =~= bytes@.subrange(p as int, bytes@.len() as int));
        let (data_size, _) = match read_u32(bytes, p) {
            Ok(x) => x,
            Err(e) => return Err(e),
        };
        Ok(ProtocolHead { identifier, data_size })
    }

    pub fn to_byte_vec(&self) -> (r: Vec<u8>)
        ensures
            r@ == spec_head_bytes(self.identifier@, self.data_size),
    {
        let mut out: Vec<u8> = Vec::new();
        write_str(&mut out, self.identifier.as_str());
        write_u32(&mut out, self.data_size);
        assert(out@ =~= spec_head_bytes(self.identifier@, self.data_size));
        out
    }

    pub fn set_data_size(&mut self, data_size: u32)
        ensures
            final(self).data_size == data_size,
            final(self).identifier@ == old(self).identifier@,
    {
        self.data_size = data_size;
    }

    /// Decodes a head; fails with `BadHead` where `from_bytes` fails.
    pub fn build(bytes: &[u8]) -> (r: Result<ProtocolHead, FrameError>)
        ensures
            match spec_decode_head(bytes@) {
                Ok(((id, size), _)) => r matches Ok(h) && h.identifier@ == id && h.data_size
                    == size,
                Err(_) => r == Err::<ProtocolHead, FrameError>(FrameError::BadHead),
            },
    {
        match ProtocolHead::from_bytes(bytes) {
            Ok(head) => Ok(head),
            Err(_) => Err(FrameError::BadHead),
        }
    }

    /// Reads the head at the front of `buf`. On success returns it with the
    /// bytes it took; on failure the error with the bytes to discard.
    pub fn reader(buf: &[u8]) -> (r: Result<(ProtocolHead, usize), (FrameError, usize)>)
        ensures
            match spec_read_head(buf@) {
                Ok(((id, size), n)) => r matches Ok((h, m)) && h.identifier@ == id && h.data_size
                    == size && m == n,
                Err((e, n)) => r matches Err((e2, m)) && e2 == e && m == n,
            },
    {
        let head_size = ProtocolHead::size();
        let buf_len = buf.len();
        if buf_len < head_size {
            return Err((FrameError::ShortRead, buf_len));
        }
        let head_buf = &buf[0..head_size];
        match ProtocolHead::build(head_buf) {
            Ok(head) => {
                let ident = identifier();
                if strings_equal(&head.identifier, &ident) {
                    Ok((head, head_size))
                } else {
                    Err((FrameError::BadHead, head_size))
                }
            },
            Err(e) => Err((e, head_size)),
        }
    }
}

impl Default for ProtocolHead {
    fn default() -> (r: Self)
        ensures
            r.identifier@ == spec_identifier(),
            r.data_size == 0,
    {
        ProtocolHead::new()
    }
}

impl ProtocolBody {
    pub fn new(message_dto: MessageDTO) -> (r: Self)
        ensures
            r.message@ == message_dto@,
    {
        Self { message: message_dto }
    }

    /// Length in bytes of the body's encoding.
    pub fn size(&self) -> (r: usize)
        ensures
            r == spec_dto_bytes(self.message@).len(),
    {
        self.message.size()
    }

    pub fn from_bytes(bytes: &[u8]) -> (r: Result<ProtocolBody, CodecError>)
        ensures
            match spec_read_dto(bytes@) {
                Ok((d, _)) => r matches Ok(b) && b.message@ == d,
                Err(e) => r == Err::<ProtocolBody, CodecError>(e),
            },
    {
        match MessageDTO::from_bytes(bytes) {
            Ok(message) => Ok(ProtocolBody { message }),
            Err(e) => Err(e),
        }
    }

    pub fn to_byte_vec(&self) -> (r: Vec<u8>)
        ensures
            r@ == spec_dto_bytes(self.message@),
    {
        self.message.to_byte_vec()
    }

    pub fn insert_message(&mut self, message_dto: MessageDTO)
        ensures
            final(self).message@ == message_dto@,
    {
        self.message = message_dto;
    }

    /// Decodes a body; fails with `BadBody` where `from_bytes` fails.
    pub fn build(bytes: &[u8]) -> (r: Result<ProtocolBody, FrameError>)
        ensures
            match spec_read_dto(bytes@) {
                Ok((d, _)) => r matches Ok(b) && b.message@ == d,
                Err(_) => r == Err::<ProtocolBody, FrameError>(FrameError::BadBody),
            },
    {
        match ProtocolBody::from_bytes(bytes) {
            Ok(body) => Ok(body),
            Err(_) => Err(FrameError::BadBody),
        }
    }

    /// Reads a body of `size` bytes at the front of `buf`. A size above
    /// `MAX_FRAME_SIZE` is refused before anything is read.
    pub fn reader(buf: &[u8], size: usize) -> (r: Result<(ProtocolBody, usize), (FrameError, usize)>)
        ensures
            match spec_read_body(buf@, size as nat) {
                Ok((d, n)) => r matches Ok((b, m)) && b.message@ == d && m == n,
                Err((e, n)) => r matches Err((e2, m)) && e2 == e && m == n,
            },
    {
        if size > MAX_FRAME_SIZE as usize {
            return Err((FrameError::Oversize, 0));
        }
        let buf_len = buf.len();
        if buf_len < size {
            return Err((FrameError::ShortRead, buf_len));
        }
        let body_buf = &buf[0..size];
        match ProtocolBody::build(body_buf) {
            Ok(body) => Ok((body, size)),
            Err(e) => Err((e, size)),
        }
    }
}

impl Default for ProtocolBody {
    fn default() -> (r: Self)
        ensures
            r.message@ == (MessageDTOView {
                group_id: Seq::empty(),
                topic: Seq::empty(),
                msg_type: 0,
                consumer_type: 0,
                status: 0,
                data: Seq::empty(),
            }),
    {
        ProtocolBody { message: MessageDTO::new(String::new(), String::new(), 0, 0, 0, String::new()) }
    }
}

impl ProtocolEnd {
    pub fn new() -> (r: Self)
        ensures
            r.flag@ == spec_end_flag(),
    {
        ProtocolEnd { flag: end_flag() }
    }

    /// Reads the end marker at the front of `buf`.
    pub fn reader(buf: &[u8]) -> (r: Result<(ProtocolEnd, usize), (FrameError, usize)>)
        ensures
            match spec_read_end(buf@) {
                Ok((f, n)) => r matches Ok((e, m)) && e.flag@ == f && m == n,
                Err((e, n)) => r matches Err((e2, m)) && e2 == e && m == n,
            },
    {
        let buf_len = buf.len();
        let mut flag_bytes: Vec<u8> = Vec::new();
        let flag = end_flag();
        write_str(&mut flag_bytes, flag.as_str());
        let end_size = flag_bytes.len();
        if buf_len < end_size {
            return Err((FrameError::ShortRead, buf_len));
        }
        let end_buf = &buf[0..end_size];
        assert(end_buf@.subrange(0, end_buf@.len() as int) =~= end_buf@);
        match read_str(end_buf, 0) {
            Ok((found, _)) => {
                if strings_equal(&found, &flag) {
                    Ok((ProtocolEnd { flag: found }, end_size))
                } else {
                    Err((FrameError::BadEnd, end_size))
                }
            },
            Err(_) => Err((FrameError::BadEnd, end_size)),
        }
    }
}

impl Default for ProtocolEnd {
    fn default() -> (r: Self)
        ensures
            r.flag@ == spec_end_flag(),
    {
        ProtocolEnd::new()
    }
}

impl Protocol {
    /// Whether `bytes` start with a head that carries the protocol identifier.
    pub fn verify_protocol_head(bytes: &[u8]) -> (r: bool)
        ensures
            r == (spec_decode_head(bytes@) matches Ok(((id, _), _)) && id == spec_identifier()),
    {
        ProtocolHead::is(bytes)
    }

    /// Replaces the head by the one decoded from `bytes`, where one decodes.
    pub fn build_protocol_head_by_bytes(&mut self, bytes: &[u8])
        ensures
            match spec_decode_head(bytes@) {
                Ok(((id, size), _)) => final(self)@ == (FrameView {
                    identifier: id,
                    data_size: size,
                    ..old(self)@
                }),
                Err(_) => final(self)@ == old(self)@,
            },
    {
        match ProtocolHead::from_bytes(bytes) {
            Ok(head) => {
                self.head = head;
            },
            Err(_) => {},
        }
    }

    /// Replaces the body by the one decoded from `bytes`; on a decode error
    /// the frame is left as it was.
    pub fn build_protocol_body_by_bytes(&mut self, bytes: &[u8]) -> (r: Result<(), CodecError>)
        ensures
            match spec_read_dto(bytes@) {
                Ok((d, _)) => r is Ok && final(self)@ == (FrameView { message: d, ..old(self)@ }),
                Err(e) => r == Err::<(), CodecError>(e) && final(self)@ == old(self)@,
            },
    {
        match ProtocolBody::from_bytes(bytes) {
            Ok(body) => {
                self.body = body;
                Ok(())
            },
            Err(e) => Err(e),
        }
    }

    /// The frame's bytes: head, body, end.
    pub fn to_byte_vec(&self) -> (r: Vec<u8>)
        ensures
            r@ == spec_frame_bytes(self@),
    {
        let mut out = self.head.to_byte_vec();
        self.body.message.write(&mut out);
        write_str(&mut out, self.end.flag.as_str());
        out
    }

    pub fn protocol_head_size() -> (r: usize)
        ensures
            r == head_len(),
    {
        ProtocolHead::size()
    }

    /// The body size the head announces.
    pub fn protocol_body_size(&self) -> (r: u32)
        ensures
            r == self.head.data_size,
    {
        self.head.data_size
    }

    /// Prepares the frame for sending: writes the body's encoded length into
    /// the head and resets the end marker. Only a body whose length does not
    /// fit the head's 32-bit size field is refused; the frame is then left as
    /// it was.
    pub fn ready(&mut self) -> (r: Result<(), FrameError>)
        ensures
            spec_dto_bytes(old(self)@.message).len() <= u32::MAX ==> r is Ok && final(self)@ == (
            FrameView {
                data_size: spec_dto_bytes(old(self)@.message).len() as u32,
                flag: spec_end_flag(),
                ..old(self)@
            }),
            spec_dto_bytes(old(self)@.message).len() > u32::MAX ==> r == Err::<(), FrameError>(
                FrameError::Oversize,
            ) && final(self)@ == old(self)@,
    {
        let size = self.body.size();
        if size > u32::MAX as usize {
            return Err(FrameError::Oversize);
        }
        self.head.set_data_size(size as u32);
        self.end = ProtocolEnd::new();
        Ok(())
    }

    /// The message the body carries.
    pub fn get_message(&self) -> (r: Result<Message, ()>)
        ensures
            r matches Ok(m) && m@ == spec_to_message(self@.message),
    {
        Ok(self.body.message.to_message())
    }

    pub fn insert_message(&mut self, message_dto: MessageDTO)
        ensures
            final(self)@ == (FrameView { message: message_dto@, ..old(self)@ }),
    {
        self.body.insert_message(message_dto);
    }

    /// Reads one frame from the front of `buf`. On success returns it with
    /// the bytes it took; on failure the error with the bytes to discard.
    pub fn reader(buf: &[u8]) -> (r: Result<(Protocol, usize), (FrameError, usize)>)
        ensures
            frame_read_as(r, spec_read_frame(buf@)),
    {
        let (head, h) = match ProtocolHead::reader(buf) {
            Ok(x) => x,
            Err(e) => return Err(e),
        };
        if head.data_size > MAX_FRAME_SIZE {
            return Err((FrameError::Oversize, h));
        }
        let after_head = &buf[h..buf.len()];
        assert(after_head@ =~= rest(buf@, h as nat));
        let (body, n1) = match ProtocolBody::reader(after_head, head.data_size as usize) {
            Ok(x) => x,
            Err((e, n)) => return Err((e, h + n)),
        };
        let after_body = &buf[h + n1..buf.len()];
        assert(after_body@ =~= rest(buf@, (h + n1) as nat));
        let (end, n2) = match ProtocolEnd::reader(after_body) {
            Ok(x) => x,
            Err((e, n)) => return Err((e, h + n1 + n)),
        };
        Ok((Protocol { head, body, end }, h + n1 + n2))
    }

    /// The frame at the front of `bytes`; bytes after it are ignored.
    pub fn from_bytes(bytes: &[u8]) -> (r: Result<Protocol, FrameError>)
        ensures
            match spec_read_frame(bytes@) {
                Ok((f, _)) => r matches Ok(p) && p@ == f,
                Err((e, _)) => r == Err::<Protocol, FrameError>(e),
            },
    {
        match Protocol::reader(bytes) {
            Ok((p, _)) => Ok(p),
            Err((e, _)) => Err(e),
        }
    }

    /// Reads frames one after another from `buf`, up to its end or the first
    /// frame that fails.
    pub fn handle(buf: &[u8]) -> (r: Vec<Protocol>)
        ensures
            r@.map_values(|p: Protocol| p@) == spec_read_frames(buf@),
    {
        let mut frames: Vec<Protocol> = Vec::new();
        let mut pos: usize = 0;
        assert(rest(buf@, 0) =~= buf@);
        assert(frames@.map_values(|p: Protocol| p@) =~= Seq::<FrameView>::empty());
        assert(Seq::<FrameView>::empty() + spec_read_frames(buf@) =~= spec_read_frames(buf@));
        loop
            invariant
                pos <= buf@.len(),
                frames@.map_values(|p: Protocol| p@) + spec_read_frames(rest(buf@, pos as nat))
                    == spec_read_frames(buf@),
            decreases buf@.len() - pos,
        {
            let ghost b = rest(buf@, pos as nat);
            if pos == buf.len() {
                assert(b.len() == 0);
                assert(frames@.map_values(|p: Protocol| p@) + spec_read_frames(b) =~= frames@.map_values(|p: Protocol| p@));
                return frames;
            }
            let remaining = &buf[pos..buf.len()];
            assert(remaining@ =~= b);
            match Protocol::reader(remaining) {
                Ok((frame, n)) => {
                    if n == 0 || n > remaining.len() {
                        assert(spec_read_frames(b) =~= Seq::<FrameView>::empty());
                        assert(frames@.map_values(|p: Protocol| p@) + spec_read_frames(b) =~= frames@.map_values(|p: Protocol| p@));
                        return frames;
                    }
                    let ghost old_frames = frames@.map_values(|p: Protocol| p@);
                    let ghost fv = frame@;
                    frames.push(frame);
                    assert(frames@.map_values(|p: Protocol| p@) =~= old_frames.push(fv));
                    assert(rest(b, n as nat) =~= rest(buf@, (pos + n) as nat));
                    assert(spec_read_frames(b) == seq![fv] + spec_read_frames(rest(b, n as nat)));
                    assert(old_frames.push(fv) + spec_read_frames(rest(b, n as nat)) =~= old_frames + (
                    seq![fv] + spec_read_frames(rest(b, n as nat))));
                    pos = pos + n;
                },
                Err(_) => {
                    assert(spec_read_frames(b) =~= Seq::<FrameView>::empty());
                    assert(frames@.map_values(|p: Protocol| p@) + spec_read_frames(b) =~= frames@.map_values(|p: Protocol| p@));
                    return frames;
                },
            }
        }
    }
}

impl Default for Protocol {
    fn default() -> (r: Protocol)
        ensures
            well_formed(r@),
            r@.message == (MessageDTOView {
                group_id: Seq::empty(),
                topic: Seq::empty(),
                msg_type: 0,
                consumer_type: 0,
                status: 0,
                data: Seq::empty(),
            }),
    {
        let mut head = ProtocolHead::default();
        let body = ProtocolBody::default();
        let size = body.size();
        proof {
            lemma_empty_str();
        }
        head.set_data_size(size as u32);
        Protocol { head, body, end: ProtocolEnd::new() }
    }
}

proof fn lemma_empty_str()
    ensures
        spec_str(Seq::empty()).len() == 1,
        str_fits(Seq::empty()),
{
    assert(vstd::utf8::encode_utf8(Seq::<char>::empty()) =~= Seq::<u8>::empty());
}

} // verus!
