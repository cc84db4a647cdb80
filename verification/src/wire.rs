//! Wire format of the messages delivered to a process by `next_message`.
//!
//! Every frame starts with a tag byte, then little-endian fields:
//! interface messages (tag 0), response messages (tag 1) and
//! process-destroyed notifications (tag 2). The `index_in_list` field is
//! rewritten by the kernel at delivery time.

use vstd::prelude::*;
use vstd::pervasive::VecAdditionalExecFns;

use crate::ids::{EncodedMessage, InterfaceHash, MessageId, Pid};
use crate::le::{
    le_32, le_64, le_bytes_32, le_bytes_64, lemma_le_bytes_32_of, lemma_le_bytes_64_of, push_le_32,
    push_le_64, read_le_32, read_le_64,
};

verus! {

/// The raw message-id field of a frame: `0` stands for "no answer expected".
pub open spec fn message_id_raw(m: Option<MessageId>) -> u64 {
    match m {
        Some(id) => id.0,
        None => 0,
    }
}

/// Byte layout of an interface message.
pub open spec fn interface_frame(
    interface: Seq<u8>,
    message_id: u64,
    emitter_pid: u64,
    index_in_list: u32,
    data: Seq<u8>,
) -> Seq<u8> {
    seq![0u8] + interface + le_bytes_64(message_id) + le_bytes_64(emitter_pid) + le_bytes_32(
        index_in_list,
    ) + data
}

/// Byte layout of a response message.
pub open spec fn response_frame(message_id: u64, index_in_list: u32, data: Result<Seq<u8>, ()>) -> Seq<
    u8,
> {
    seq![1u8] + le_bytes_64(message_id) + le_bytes_32(index_in_list) + (match data {
        Ok(d) => seq![0u8] + d,
        Err(_) => seq![1u8],
    })
}

/// Byte layout of a process-destroyed notification.
pub open spec fn process_destroyed_frame(pid: u64, index_in_list: u32) -> Seq<u8> {
    seq![2u8] + le_bytes_64(pid) + le_bytes_32(index_in_list)
}

/// `frame` with the four bytes at `at` replaced by the encoding of `idx`.
pub open spec fn frame_with_index(frame: Seq<u8>, at: int, idx: u32) -> Seq<u8> {
    frame.subrange(0, at) + le_bytes_32(idx) + frame.subrange(at + 4, frame.len() as int)
}

/// A buffer can hold an interface frame.
pub open spec fn is_interface_frame(b: Seq<u8>) -> bool {
    b.len() >= 53 && b[0] == 0
}

/// A buffer can hold a response frame.
pub open spec fn is_response_frame(b: Seq<u8>) -> bool {
    b.len() >= 14 && b[0] == 1 && (b[13] == 0 || b.len() == 14)
}

/// A buffer can hold a process-destroyed frame.
pub open spec fn is_process_destroyed_frame(b: Seq<u8>) -> bool {
    b.len() == 13 && b[0] == 2
}

/// `d` holds exactly the fields stored in the interface frame `b`.
pub open spec fn interface_decode_of(d: DecodedInterfaceMessage, b: Seq<u8>) -> bool {
    &&& d.interface@ == b.subrange(1, 33)
    &&& d.message_id == (if le_64(b.subrange(33, 41)) == 0 {
        Option::<MessageId>::None
    } else {
        Some(MessageId(le_64(b.subrange(33, 41))))
    })
    &&& d.emitter_pid == Pid(le_64(b.subrange(41, 49)))
    &&& d.index_in_list == le_32(b.subrange(49, 53))
    &&& d.actual_data@ == b.subrange(53, b.len() as int)
}

/// `d` holds exactly the fields stored in the response frame `b`.
pub open spec fn response_decode_of(d: DecodedResponseMessage, b: Seq<u8>) -> bool {
    &&& d.message_id == MessageId(le_64(b.subrange(1, 9)))
    &&& d.index_in_list == le_32(b.subrange(9, 13))
    &&& (d.actual_data is Ok <==> b[13] == 0)
    &&& (d.actual_data matches Ok(p) ==> p@ == b.subrange(14, b.len() as int))
}

/// `d` holds exactly the fields stored in the process-destroyed frame `b`.
pub open spec fn process_destroyed_decode_of(d: DecodedProcessDestroyedMessage, b: Seq<u8>) -> bool {
    &&& d.pid == Pid(le_64(b.subrange(1, 9)))
    &&& d.index_in_list == le_32(b.subrange(9, 13))
}

/// Prototype for a message about to be delivered.
#[derive(Debug)]
pub enum MessageBuilder {
    /// Prototype for an interface message.
    Interface(InterfaceMessageBuilder),
    /// Prototype for a response message.
    Response(ResponseMessageBuilder),
    /// Prototype for a process destroyed message.
    ProcessDestroyed(ProcessDestroyedMessageBuilder),
}

impl View for MessageBuilder {
    type V = Seq<u8>;

    open spec fn view(&self) -> Seq<u8> {
        match self {
            MessageBuilder::Interface(msg) => msg@,
            MessageBuilder::Response(msg) => msg@,
            MessageBuilder::ProcessDestroyed(msg) => msg@,
        }
    }
}

impl MessageBuilder {
    /// The offset of the `index_in_list` field of this frame.
    pub open spec fn index_offset(&self) -> int {
        match self {
            MessageBuilder::Interface(_) => 49,
            MessageBuilder::Response(_) => 9,
            MessageBuilder::ProcessDestroyed(_) => 9,
        }
    }

    /// The builder holds a complete frame.
    pub open spec fn wf(&self) -> bool {
        match self {
            MessageBuilder::Interface(msg) => msg.wf(),
            MessageBuilder::Response(msg) => msg.wf(),
            MessageBuilder::ProcessDestroyed(msg) => msg.wf(),
        }
    }

    /// Returns the length in bytes of the constructed message.
    pub fn len(&self) -> (r: usize)
        ensures
            r == self@.len(),
    {
        match self {
            MessageBuilder::Interface(msg) => msg.len(),
            MessageBuilder::Response(msg) => msg.len(),
            MessageBuilder::ProcessDestroyed(msg) => msg.len(),
        }
    }

    /// Returns the frame bytes.
    pub fn into_bytes(self) -> (r: Vec<u8>)
        ensures
            r@ == self@,
    {
        match self {
            MessageBuilder::Interface(msg) => msg.into_bytes(),
            MessageBuilder::Response(msg) => msg.into_bytes(),
            MessageBuilder::ProcessDestroyed(msg) => msg.into_bytes(),
        }
    }

    /// Modifies the `index_in_list` field of the message in construction.
    pub fn set_index_in_list(&mut self, value: u32)
        requires
            old(self).wf(),
        ensures
            final(self).wf(),
            final(self)@ == frame_with_index(old(self)@, old(self).index_offset(), value),
            final(self).index_offset() == old(self).index_offset(),
            (*final(self)) is Interface <==> (*old(self)) is Interface,
            (*final(self)) is Response <==> (*old(self)) is Response,
            (*final(self)) is ProcessDestroyed <==> (*old(self)) is ProcessDestroyed,
    {
        match self {
            MessageBuilder::Interface(msg) => msg.set_index_in_list(value),
            MessageBuilder::Response(msg) => msg.set_index_in_list(value),
            MessageBuilder::ProcessDestroyed(msg) => msg.set_index_in_list(value),
        }
    }
}

impl From<InterfaceMessageBuilder> for MessageBuilder {
    fn from(msg: InterfaceMessageBuilder) -> (r: MessageBuilder) {
        MessageBuilder::Interface(msg)
    }
}

impl vstd::std_specs::convert::FromSpecImpl<InterfaceMessageBuilder> for MessageBuilder {
    open spec fn obeys_from_spec() -> bool {
        true
    }

    open spec fn from_spec(msg: InterfaceMessageBuilder) -> MessageBuilder {
        MessageBuilder::Interface(msg)
    }
}

impl From<ResponseMessageBuilder> for MessageBuilder {
    fn from(msg: ResponseMessageBuilder) -> (r: MessageBuilder) {
        MessageBuilder::Response(msg)
    }
}

impl vstd::std_specs::convert::FromSpecImpl<ResponseMessageBuilder> for MessageBuilder {
    open spec fn obeys_from_spec() -> bool {
        true
    }

    open spec fn from_spec(msg: ResponseMessageBuilder) -> MessageBuilder {
        MessageBuilder::Response(msg)
    }
}

impl From<ProcessDestroyedMessageBuilder> for MessageBuilder {
    fn from(msg: ProcessDestroyedMessageBuilder) -> (r: MessageBuilder) {
        MessageBuilder::ProcessDestroyed(msg)
    }
}

impl vstd::std_specs::convert::FromSpecImpl<ProcessDestroyedMessageBuilder> for MessageBuilder {
    open spec fn obeys_from_spec() -> bool {
        true
    }

    open spec fn from_spec(msg: ProcessDestroyedMessageBuilder) -> MessageBuilder {
        MessageBuilder::ProcessDestroyed(msg)
    }
}

/// Message received from the kernel, after decoding.
#[derive(Debug)]
pub enum DecodedMessage {
    /// Interface message.
    Interface(DecodedInterfaceMessage),
    /// Response message.
    Response(DecodedResponseMessage),
    /// Process destroyed message.
    ProcessDestroyed(DecodedProcessDestroyedMessage),
}

/// Either a decoded interface message or a decoded process destroyed message.
#[derive(Debug)]
pub enum DecodedInterfaceOrDestroyed {
    /// Interface message.
    Interface(DecodedInterfaceMessage),
    /// Process destroyed message.
    ProcessDestroyed(DecodedProcessDestroyedMessage),
}

/// Attempt to decode a message of any kind, dispatching on the tag byte.
pub fn decode_message(buffer: &[u8]) -> (r: Result<DecodedMessage, ()>)
    ensures
        r is Ok <==> is_interface_frame(buffer@) || is_response_frame(buffer@)
            || is_process_destroyed_frame(buffer@),
        r matches Ok(DecodedMessage::Interface(d)) ==> is_interface_frame(buffer@)
            && interface_decode_of(d, buffer@),
        r matches Ok(DecodedMessage::Response(d)) ==> is_response_frame(buffer@)
            && response_decode_of(d, buffer@),
        r matches Ok(DecodedMessage::ProcessDestroyed(d)) ==> is_process_destroyed_frame(buffer@)
            && process_destroyed_decode_of(d, buffer@),
        buffer@.len() > 0 && buffer@[0] == 0 && r is Ok ==> r matches Ok(
            DecodedMessage::Interface(_),
        ),
        buffer@.len() > 0 && buffer@[0] == 1 && r is Ok ==> r matches Ok(
            DecodedMessage::Response(_),
        ),
        buffer@.len() > 0 && buffer@[0] == 2 && r is Ok ==> r matches Ok(
            DecodedMessage::ProcessDestroyed(_),
        ),
{
    if buffer.len() == 0 {
        return Err(());
    }
    if buffer[0] == 0 {
        match decode_interface_message(buffer) {
            Ok(d) => Ok(DecodedMessage::Interface(d)),
            Err(_) => Err(()),
        }
    } else if buffer[0] == 1 {
        match decode_response_message(buffer) {
            Ok(d) => Ok(DecodedMessage::Response(d)),
            Err(_) => Err(()),
        }
    } else if buffer[0] == 2 {
        match decode_process_destroyed_message(buffer) {
            Ok(d) => Ok(DecodedMessage::ProcessDestroyed(d)),
            Err(_) => Err(()),
        }
    } else {
        Err(())
    }
}

/// Builds an interface message frame from its raw components.
pub fn build_interface_message(
    interface: &InterfaceHash,
    message_id: Option<MessageId>,
    emitter_pid: Pid,
    index_in_list: u32,
    actual_data: &EncodedMessage,
) -> (r: InterfaceMessageBuilder)
    ensures
        r@ == interface_frame(
            interface@,
            message_id_raw(message_id),
            emitter_pid.0,
            index_in_list,
            actual_data@,
        ),
        r.wf(),
{
    let mut buffer: Vec<u8> = Vec::new();
    buffer.push(0);
    let mut i: usize = 0;
    while i < 32
        invariant
            i <= 32,
            buffer@ == seq![0u8] + interface@.subrange(0, i as int),
        decreases 32 - i,
    {
        buffer.push(interface.0[i]);
        proof {
            assert(buffer@ =~= seq![0u8] + interface@.subrange(0, i + 1 as int));
        }
        i += 1;
    }
    proof {
        assert(buffer@ =~= seq![0u8] + interface@);
    }
    let raw_id: u64 = match message_id {
        Some(id) => id.0,
        None => 0,
    };
    push_le_64(&mut buffer, raw_id);
    push_le_64(&mut buffer, emitter_pid.0);
    push_le_32(&mut buffer, index_in_list);
    crate::le::push_all(&mut buffer, actual_data.0.as_slice());
    proof {
        assert(buffer@ =~= interface_frame(
            interface@,
            message_id_raw(message_id),
            emitter_pid.0,
            index_in_list,
            actual_data@,
        ));
    }
    InterfaceMessageBuilder { data: buffer }
}

/// Frame of an interface message in construction.
#[derive(Debug)]
pub struct InterfaceMessageBuilder {
    data: Vec<u8>,
}

impl View for InterfaceMessageBuilder {
    type V = Seq<u8>;

    closed spec fn view(&self) -> Seq<u8> {
        self.data@
    }
}

impl InterfaceMessageBuilder {
    /// The builder holds a complete interface frame.
    pub open spec fn wf(&self) -> bool {
        self@.len() >= 53
    }

    /// Updates the `index_in_list` field of the message.
    pub fn set_index_in_list(&mut self, value: u32)
        requires
            old(self).wf(),
        ensures
            final(self).wf(),
            final(self)@ == frame_with_index(old(self)@, 49, value),
    {
        set_index_at(&mut self.data, 49, value);
    }

    /// Returns the length in bytes of the frame.
    pub fn len(&self) -> (r: usize)
        ensures
            r == self@.len(),
    {
        self.data.len()
    }

    /// Returns the frame bytes.
    pub fn into_bytes(self) -> (r: Vec<u8>)
        ensures
            r@ == self@,
    {
        self.data
    }
}

/// Attempt to decode an interface message frame.
pub fn decode_interface_message(buffer: &[u8]) -> (r: Result<DecodedInterfaceMessage, ()>)
    ensures
        r is Ok <==> is_interface_frame(buffer@),
        r matches Ok(d) ==> interface_decode_of(d, buffer@),
{
    if buffer.len() < 53 {
        return Err(());
    }
    if buffer[0] != 0 {
        return Err(());
    }

    let mut hash = [0u8; 32];
    let mut i: usize = 0;
    while i < 32
        invariant
            i <= 32,
            buffer@.len() >= 53,
            hash@.len() == 32,
            forall|j: int| 0 <= j < i ==> hash@[j] == buffer@[1 + j],
        decreases 32 - i,
    {
        hash[i] = buffer[1 + i];
        i += 1;
    }
    proof {
        assert(hash@ =~= buffer@.subrange(1, 33));
    }

    let raw_id = read_le_64(buffer, 33);
    let message_id = if raw_id == 0 {
        None
    } else {
        Some(MessageId(raw_id))
    };
    let emitter_pid = Pid(read_le_64(buffer, 41));
    let index_in_list = read_le_32(buffer, 49);

    let mut data: Vec<u8> = Vec::new();
    let mut i: usize = 53;
    while i < buffer.len()
        invariant
            53 <= i <= buffer@.len(),
            data@ == buffer@.subrange(53, i as int),
        decreases buffer@.len() - i,
    {
        data.push(buffer[i]);
        proof {
            assert(data@ =~= buffer@.subrange(53, i + 1 as int));
        }
        i += 1;
    }
    proof {
        assert(data@ =~= buffer@.subrange(53, buffer@.len() as int));
    }

    Ok(
        DecodedInterfaceMessage {
            interface: InterfaceHash(hash),
            message_id,
            emitter_pid,
            index_in_list,
            actual_data: EncodedMessage(data),
        },
    )
}

/// Fields of a decoded interface message.
#[derive(Debug)]
pub struct DecodedInterfaceMessage {
    /// Interface the message concerns.
    pub interface: InterfaceHash,
    /// Id of the message, used for answering. `None` if no answer is expected.
    pub message_id: Option<MessageId>,
    /// Id of the process that emitted the message.
    pub emitter_pid: Pid,
    /// Index within the polled list where this message matched.
    pub index_in_list: u32,
    /// The message body.
    pub actual_data: EncodedMessage,
}

/// Builds a response message frame from its raw components.
pub fn build_response_message(
    message_id: MessageId,
    index_in_list: u32,
    actual_data: Result<&EncodedMessage, ()>,
) -> (r: ResponseMessageBuilder)
    ensures
        r@ == response_frame(
            message_id.0,
            index_in_list,
            match actual_data {
                Ok(d) => Ok(d@),
                Err(_) => Err(()),
            },
        ),
        r.wf(),
{
    let mut buffer: Vec<u8> = Vec::new();
    buffer.push(1);
    push_le_64(&mut buffer, message_id.0);
    push_le_32(&mut buffer, index_in_list);
    match actual_data {
        Ok(data) => {
            buffer.push(0);
            crate::le::push_all(&mut buffer, data.0.as_slice());
        },
        Err(_) => {
            buffer.push(1);
        },
    }
    proof {
        assert(buffer@ =~= response_frame(
            message_id.0,
            index_in_list,
            match actual_data {
                Ok(d) => Ok(d@),
                Err(_) => Err(()),
            },
        ));
    }
    ResponseMessageBuilder { data: buffer }
}

/// Frame of a response message in construction.
#[derive(Debug)]
pub struct ResponseMessageBuilder {
    data: Vec<u8>,
}

impl View for ResponseMessageBuilder {
    type V = Seq<u8>;

    closed spec fn view(&self) -> Seq<u8> {
        self.data@
    }
}

impl ResponseMessageBuilder {
    /// The builder holds a complete response frame.
    pub open spec fn wf(&self) -> bool {
        self@.len() >= 14
    }

    /// Updates the `index_in_list` field of the message.
    pub fn set_index_in_list(&mut self, value: u32)
        requires
            old(self).wf(),
        ensures
            final(self).wf(),
            final(self)@ == frame_with_index(old(self)@, 9, value),
    {
        set_index_at(&mut self.data, 9, value);
    }

    /// Returns the message id stored in the frame.
    pub fn message_id(&self) -> (r: MessageId)
        requires
            self.wf(),
        ensures
            r == MessageId(le_64(self@.subrange(1, 9))),
    {
        MessageId(read_le_64(self.data.as_slice(), 1))
    }

    /// Returns the length in bytes of the frame.
    pub fn len(&self) -> (r: usize)
        ensures
            r == self@.len(),
    {
        self.data.len()
    }

    /// Returns the frame bytes.
    pub fn into_bytes(self) -> (r: Vec<u8>)
        ensures
            r@ == self@,
    {
        self.data
    }
}

/// Attempt to decode a response message frame.
pub fn decode_response_message(buffer: &[u8]) -> (r: Result<DecodedResponseMessage, ()>)
    ensures
        r is Ok <==> is_response_frame(buffer@),
        r matches Ok(d) ==> response_decode_of(d, buffer@),
{
    if buffer.len() < 14 {
        return Err(());
    }
    if buffer[0] != 1 {
        return Err(());
    }
    let success = buffer[13] == 0;
    if !success && buffer.len() != 14 {
        return Err(());
    }

    let message_id = MessageId(read_le_64(buffer, 1));
    let index_in_list = read_le_32(buffer, 9);
    let actual_data: Result<EncodedMessage, ()> = if success {
        let mut data: Vec<u8> = Vec::new();
        let mut i: usize = 14;
        while i < buffer.len()
            invariant
                14 <= i <= buffer@.len(),
                data@ == buffer@.subrange(14, i as int),
            decreases buffer@.len() - i,
        {
            data.push(buffer[i]);
            proof {
                assert(data@ =~= buffer@.subrange(14, i + 1 as int));
            }
            i += 1;
        }
        proof {
            assert(data@ =~= buffer@.subrange(14, buffer@.len() as int));
        }
        Ok(EncodedMessage(data))
    } else {
        Err(())
    };

    Ok(DecodedResponseMessage { message_id, index_in_list, actual_data })
}

/// Fields of a decoded response message.
#[derive(Debug)]
pub struct DecodedResponseMessage {
    /// Identifier of the message whose answer we are receiving.
    pub message_id: MessageId,
    /// Index within the polled list where this message matched.
    pub index_in_list: u32,
    /// The response, or `Err` if the handler died or refused the message.
    pub actual_data: Result<EncodedMessage, ()>,
}

/// Builds a process-destroyed frame from its raw components.
pub fn build_process_destroyed_message(pid: Pid, index_in_list: u32) -> (r:
    ProcessDestroyedMessageBuilder)
    ensures
        r@ == process_destroyed_frame(pid.0, index_in_list),
        r.wf(),
{
    let mut buffer: Vec<u8> = Vec::new();
    buffer.push(2);
    push_le_64(&mut buffer, pid.0);
    push_le_32(&mut buffer, index_in_list);
    proof {
        assert(buffer@ =~= process_destroyed_frame(pid.0, index_in_list));
    }
    ProcessDestroyedMessageBuilder { data: buffer }
}

/// Frame of a process-destroyed message in construction.
#[derive(Debug)]
pub struct ProcessDestroyedMessageBuilder {
    data: Vec<u8>,
}

impl View for ProcessDestroyedMessageBuilder {
    type V = Seq<u8>;

    closed spec fn view(&self) -> Seq<u8> {
        self.data@
    }
}

impl ProcessDestroyedMessageBuilder {
    /// The builder holds a complete process-destroyed frame.
    pub open spec fn wf(&self) -> bool {
        self@.len() == 13
    }

    /// Updates the `index_in_list` field of the message.
    pub fn set_index_in_list(&mut self, value: u32)
        requires
            old(self).wf(),
        ensures
            final(self).wf(),
            final(self)@ == frame_with_index(old(self)@, 9, value),
    {
        set_index_at(&mut self.data, 9, value);
    }

    /// Returns the length in bytes of the frame.
    pub fn len(&self) -> (r: usize)
        ensures
            r == self@.len(),
    {
        self.data.len()
    }

    /// Returns the frame bytes.
    pub fn into_bytes(self) -> (r: Vec<u8>)
        ensures
            r@ == self@,
    {
        self.data
    }
}

/// Attempt to decode a process-destroyed frame.
pub fn decode_process_destroyed_message(buffer: &[u8]) -> (r: Result<
    DecodedProcessDestroyedMessage,
    (),
>)
    ensures
        r is Ok <==> is_process_destroyed_frame(buffer@),
        r matches Ok(d) ==> process_destroyed_decode_of(d, buffer@),
{
    if buffer.len() != 13 {
        return Err(());
    }
    if buffer[0] != 2 {
        return Err(());
    }

    Ok(
        DecodedProcessDestroyedMessage {
            pid: Pid(read_le_64(buffer, 1)),
            index_in_list: read_le_32(buffer, 9),
        },
    )
}

/// Fields of a decoded process-destroyed message.
#[derive(Debug)]
pub struct DecodedProcessDestroyedMessage {
    /// Identifier of the process that was destroyed.
    pub pid: Pid,
    /// Index within the polled list where this message matched.
    pub index_in_list: u32,
}

/// Overwrites the four bytes at `at` with the little-endian encoding of `value`.
fn set_index_at(data: &mut Vec<u8>, at: usize, value: u32)
    requires
        at + 4 <= old(data)@.len(),
    ensures
        final(data)@ == frame_with_index(old(data)@, at as int, value),
{
    proof {
        assert(old(data).len() == old(data)@.len());
    }
    data.set(at, (value & 0xff) as u8);
    data.set(at + 1, ((value >> 8) & 0xff) as u8);
    data.set(at + 2, ((value >> 16) & 0xff) as u8);
    data.set(at + 3, ((value >> 24) & 0xff) as u8);
    proof {
        assert(data@ =~= frame_with_index(old(data)@, at as int, value));
    }
}

/// Re-encoding the fields decoded from an interface frame yields the frame
/// itself.
pub proof fn lemma_interface_encode_decode(b: Seq<u8>)
    requires
        is_interface_frame(b),
    ensures
        interface_frame(
            b.subrange(1, 33),
            le_64(b.subrange(33, 41)),
            le_64(b.subrange(41, 49)),
            le_32(b.subrange(49, 53)),
            b.subrange(53, b.len() as int),
        ) == b,
{
    lemma_le_bytes_64_of(b.subrange(33, 41));
    lemma_le_bytes_64_of(b.subrange(41, 49));
    lemma_le_bytes_32_of(b.subrange(49, 53));
    assert(interface_frame(
        b.subrange(1, 33),
        le_64(b.subrange(33, 41)),
        le_64(b.subrange(41, 49)),
        le_32(b.subrange(49, 53)),
        b.subrange(53, b.len() as int),
    ) =~= b);
}

/// Re-encoding the fields decoded from a response frame yields the frame
/// itself.
pub proof fn lemma_response_encode_decode(b: Seq<u8>)
    requires
        is_response_frame(b),
        b[13] == 0 || b[13] == 1,
    ensures
        response_frame(
            le_64(b.subrange(1, 9)),
            le_32(b.subrange(9, 13)),
            if b[13] == 0 {
                Ok(b.subrange(14, b.len() as int))
            } else {
                Err(())
            },
        ) == b,
{
    lemma_le_bytes_64_of(b.subrange(1, 9));
    lemma_le_bytes_32_of(b.subrange(9, 13));
    assert(response_frame(
        le_64(b.subrange(1, 9)),
        le_32(b.subrange(9, 13)),
        if b[13] == 0 {
            Ok(b.subrange(14, b.len() as int))
        } else {
            Err(())
        },
    ) =~= b);
}

/// Re-encoding the fields decoded from a process-destroyed frame yields the
/// frame itself.
pub proof fn lemma_process_destroyed_encode_decode(b: Seq<u8>)
    requires
        is_process_destroyed_frame(b),
    ensures
        process_destroyed_frame(le_64(b.subrange(1, 9)), le_32(b.subrange(9, 13))) == b,
{
    lemma_le_bytes_64_of(b.subrange(1, 9));
    lemma_le_bytes_32_of(b.subrange(9, 13));
    assert(process_destroyed_frame(le_64(b.subrange(1, 9)), le_32(b.subrange(9, 13))) =~= b);
}

/// Rewriting the `index_in_list` field of a built interface frame gives the
/// frame built with the new index.
pub proof fn lemma_interface_frame_reindex(
    interface: Seq<u8>,
    message_id: u64,
    emitter_pid: u64,
    idx0: u32,
    idx: u32,
    data: Seq<u8>,
)
    requires
        interface.len() == 32,
    ensures
        frame_with_index(interface_frame(interface, message_id, emitter_pid, idx0, data), 49, idx)
            == interface_frame(interface, message_id, emitter_pid, idx, data),
{
    assert(frame_with_index(
        interface_frame(interface, message_id, emitter_pid, idx0, data),
        49,
        idx,
    ) =~= interface_frame(interface, message_id, emitter_pid, idx, data));
}

/// Rewriting the `index_in_list` field of a built response frame gives the
/// frame built with the new index.
pub proof fn lemma_response_frame_reindex(
    message_id: u64,
    idx0: u32,
    idx: u32,
    data: Result<Seq<u8>, ()>,
)
    ensures
        frame_with_index(response_frame(message_id, idx0, data), 9, idx) == response_frame(
            message_id,
            idx,
            data,
        ),
{
    assert(frame_with_index(response_frame(message_id, idx0, data), 9, idx) =~= response_frame(
        message_id,
        idx,
        data,
    ));
}

/// Rewriting the `index_in_list` field of a built process-destroyed frame
/// gives the frame built with the new index.
pub proof fn lemma_process_destroyed_frame_reindex(pid: u64, idx0: u32, idx: u32)
    ensures
        frame_with_index(process_destroyed_frame(pid, idx0), 9, idx) == process_destroyed_frame(
            pid,
            idx,
        ),
{
    assert(frame_with_index(process_destroyed_frame(pid, idx0), 9, idx)
        =~= process_destroyed_frame(pid, idx));
}

} // verus!
