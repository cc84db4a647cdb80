//! Decoding of the five IPC extrinsic calls: from raw integer arguments and
//! the bytes the driver read out of linear memory into typed intents for the
//! core. A decode failure is a process fault: the caller terminates the
//! offending process.

use vstd::prelude::*;

use crate::ids::{EncodedMessage, InterfaceHash, MessageId};
use crate::ipc::{MAX_MESSAGE_BODY, MAX_MSG_IDS};
use crate::le::{le_32, le_64, read_le_32, read_le_64};
use crate::signature::{Signature, ValueType};

verus! {

/// The five IPC extrinsics a process can call.
#[derive(Debug, Copy, Clone, PartialEq, Eq, Structural, Hash)]
pub enum Extrinsic {
    /// Wait for a message.
    NextMessage,
    /// Send a message.
    EmitMessage,
    /// Signal that a received message is malformed.
    EmitMessageError,
    /// Answer a received message.
    EmitAnswer,
    /// Abandon an emitted message.
    CancelMessage,
}

/// The raw signature each extrinsic is imported with: addresses and lengths
/// are 32-bit values; `next_message` and `emit_message` return a 32-bit
/// status.
pub fn extrinsic_signature(e: Extrinsic) -> (r: Signature)
    ensures
        e is NextMessage ==> r.params@ == seq![
            ValueType::I32,
            ValueType::I32,
            ValueType::I32,
            ValueType::I32,
            ValueType::I32,
        ] && r.ret_ty == Some(ValueType::I32),
        e is EmitMessage ==> r.params@ == seq![
            ValueType::I32,
            ValueType::I32,
            ValueType::I32,
            ValueType::I32,
            ValueType::I32,
            ValueType::I32,
        ] && r.ret_ty == Some(ValueType::I32),
        e is EmitMessageError ==> r.params@ == seq![ValueType::I32] && r.ret_ty is None,
        e is EmitAnswer ==> r.params@ == seq![ValueType::I32, ValueType::I32, ValueType::I32]
            && r.ret_ty is None,
        e is CancelMessage ==> r.params@ == seq![ValueType::I32] && r.ret_ty is None,
{
    let mut params: Vec<ValueType> = Vec::new();
    match e {
        Extrinsic::NextMessage => {
            params.push(ValueType::I32);
            params.push(ValueType::I32);
            params.push(ValueType::I32);
            params.push(ValueType::I32);
            params.push(ValueType::I32);
            proof {
                assert(params@ =~= seq![
                    ValueType::I32,
                    ValueType::I32,
                    ValueType::I32,
                    ValueType::I32,
                    ValueType::I32,
                ]);
            }
            Signature { params, ret_ty: Some(ValueType::I32) }
        },
        Extrinsic::EmitMessage => {
            params.push(ValueType::I32);
            params.push(ValueType::I32);
            params.push(ValueType::I32);
            params.push(ValueType::I32);
            params.push(ValueType::I32);
            params.push(ValueType::I32);
            proof {
                assert(params@ =~= seq![
                    ValueType::I32,
                    ValueType::I32,
                    ValueType::I32,
                    ValueType::I32,
                    ValueType::I32,
                    ValueType::I32,
                ]);
            }
            Signature { params, ret_ty: Some(ValueType::I32) }
        },
        Extrinsic::EmitMessageError => {
            params.push(ValueType::I32);
            proof {
                assert(params@ =~= seq![ValueType::I32]);
            }
            Signature { params, ret_ty: None }
        },
        Extrinsic::EmitAnswer => {
            params.push(ValueType::I32);
            params.push(ValueType::I32);
            params.push(ValueType::I32);
            proof {
                assert(params@ =~= seq![ValueType::I32, ValueType::I32, ValueType::I32]);
            }
            Signature { params, ret_ty: None }
        },
        Extrinsic::CancelMessage => {
            params.push(ValueType::I32);
            proof {
                assert(params@ =~= seq![ValueType::I32]);
            }
            Signature { params, ret_ty: None }
        },
    }
}

/// A decoded `next_message` call.
#[derive(Debug)]
pub struct MessageWait {
    /// Ids being waited on, read from linear memory.
    pub msg_ids: Vec<u64>,
    /// Address the id list was read from; the matched slot is zeroed.
    pub msg_ids_ptr: u32,
    /// Where to write the received message.
    pub out_pointer: u32,
    /// Size of the buffer at `out_pointer`.
    pub out_size: u32,
    /// Whether to block when no message matches.
    pub block: bool,
}

/// A decoded `emit_message` call.
#[derive(Debug)]
pub struct EmitMessage {
    /// Interface to emit on.
    pub interface: InterfaceHash,
    /// Where to write back the id, or `None` if no answer is expected.
    pub message_id_write: Option<u32>,
    /// The assembled message body.
    pub message: EncodedMessage,
    /// Whether the caller may be parked until a handler registers.
    pub allow_delay: bool,
}

/// A decoded `emit_answer` call.
#[derive(Debug)]
pub struct EmitAnswer {
    /// Message to answer.
    pub message_id: MessageId,
    /// The response body.
    pub response: EncodedMessage,
}

/// Decodes a `next_message` call. `msg_ids_bytes` holds the
/// `8 * msg_ids_len` bytes the driver read at `msg_ids_ptr`. The call is a
/// fault when the id list exceeds the implementation cap or runs past the
/// 32-bit address space.
pub fn parse_extrinsic_next_message(
    msg_ids_ptr: u32,
    msg_ids_len: u32,
    out_pointer: u32,
    out_size: u32,
    block: u32,
    msg_ids_bytes: &[u8],
) -> (r: Result<MessageWait, ()>)
    requires
        msg_ids_bytes@.len() == 8 * msg_ids_len,
    ensures
        r is Ok <==> msg_ids_len <= MAX_MSG_IDS && msg_ids_ptr + 8 * msg_ids_len <= u32::MAX,
        r matches Ok(w) ==> {
            &&& w.msg_ids@.len() == msg_ids_len
            &&& (forall|k: int|
                0 <= k < msg_ids_len ==> w.msg_ids@[k] == le_64(
                    msg_ids_bytes@.subrange(8 * k, 8 * k + 8),
                ))
            &&& w.msg_ids_ptr == msg_ids_ptr
            &&& w.out_pointer == out_pointer
            &&& w.out_size == out_size
            &&& w.block == (block != 0)
        },
{
    if msg_ids_len > MAX_MSG_IDS as u32 {
        return Err(());
    }
    if msg_ids_ptr as u64 + 8 * (msg_ids_len as u64) > u32::MAX as u64 {
        return Err(());
    }
    let mut msg_ids: Vec<u64> = Vec::new();
    let mut k: usize = 0;
    while k < msg_ids_len as usize
        invariant
            k <= msg_ids_len,
            msg_ids_len <= MAX_MSG_IDS,
            msg_ids_bytes@.len() == 8 * msg_ids_len,
            msg_ids@.len() == k,
            forall|j: int|
                0 <= j < k ==> msg_ids@[j] == le_64(msg_ids_bytes@.subrange(8 * j, 8 * j + 8)),
        decreases msg_ids_len - k,
    {
        let v = read_le_64(msg_ids_bytes, 8 * k);
        msg_ids.push(v);
        k += 1;
    }
    Ok(MessageWait { msg_ids, msg_ids_ptr, out_pointer, out_size, block: block != 0 })
}

/// Decodes the `(ptr, len)` descriptor table of an `emit_message` call:
/// `bufs_bytes` holds `8 * bufs_num` bytes of little-endian pairs.
pub fn parse_buffer_descriptors(bufs_bytes: &[u8], bufs_num: u32) -> (r: Vec<(u32, u32)>)
    requires
        bufs_bytes@.len() == 8 * bufs_num,
    ensures
        r@.len() == bufs_num,
        forall|k: int|
            0 <= k < bufs_num ==> (#[trigger] r@[k]).0 == le_32(
                bufs_bytes@.subrange(8 * k, 8 * k + 4),
            ) && r@[k].1 == le_32(bufs_bytes@.subrange(8 * k + 4, 8 * k + 8)),
{
    proof {
        assert(bufs_bytes@.len() <= usize::MAX) by {
            assert(bufs_bytes.len() == bufs_bytes@.len());
        }
    }
    let mut out: Vec<(u32, u32)> = Vec::new();
    let mut k: usize = 0;
    while k < bufs_num as usize
        invariant
            k <= bufs_num,
            bufs_bytes@.len() == 8 * bufs_num,
            bufs_bytes@.len() <= usize::MAX,
            out@.len() == k,
            forall|j: int|
                0 <= j < k ==> (#[trigger] out@[j]).0 == le_32(
                    bufs_bytes@.subrange(8 * j, 8 * j + 4),
                ) && out@[j].1 == le_32(bufs_bytes@.subrange(8 * j + 4, 8 * j + 8)),
        decreases bufs_num - k,
    {
        let p = read_le_32(bufs_bytes, 8 * k);
        let l = read_le_32(bufs_bytes, 8 * k + 4);
        out.push((p, l));
        k += 1;
    }
    out
}

/// The concatenation of a list of byte chunks.
pub open spec fn concat_chunks(s: Seq<Seq<u8>>) -> Seq<u8>
    decreases s.len(),
{
    if s.len() == 0 {
        Seq::empty()
    } else {
        s[0] + concat_chunks(s.drop_first())
    }
}

/// Concatenating one more chunk appends its bytes.
pub proof fn lemma_concat_snoc(s: Seq<Seq<u8>>, x: Seq<u8>)
    ensures
        concat_chunks(s.push(x)) == concat_chunks(s) + x,
    decreases s.len(),
{
    if s.len() == 0 {
        assert(s.push(x)[0] == x);
        assert(s.push(x).drop_first() =~= Seq::<Seq<u8>>::empty());
        assert(concat_chunks(s.push(x)) == x + concat_chunks(Seq::<Seq<u8>>::empty()));
        assert(x + Seq::<u8>::empty() =~= x);
        assert(concat_chunks(s) + x =~= x);
    } else {
        assert(s.push(x)[0] == s[0]);
        assert(s.push(x).drop_first() =~= s.drop_first().push(x));
        lemma_concat_snoc(s.drop_first(), x);
        assert(concat_chunks(s.push(x)) == s[0] + (concat_chunks(s.drop_first()) + x));
        assert(s[0] + (concat_chunks(s.drop_first()) + x) =~= (s[0] + concat_chunks(
            s.drop_first(),
        )) + x);
    }
}

/// Concatenates the gathered buffers of an `emit_message` call into one
/// message body. The call is a fault when the total exceeds the message cap.
pub fn assemble_payload(chunks: &Vec<Vec<u8>>) -> (r: Result<EncodedMessage, ()>)
    ensures
        r is Ok <==> concat_chunks(chunks.deep_view()).len() <= MAX_MESSAGE_BODY,
        r matches Ok(m) ==> m@ == concat_chunks(chunks.deep_view()),
{
    let mut out: Vec<u8> = Vec::new();
    let mut i: usize = 0;
    while i < chunks.len()
        invariant
            i <= chunks@.len(),
            out@ == concat_chunks(chunks.deep_view().subrange(0, i as int)),
            out@.len() <= MAX_MESSAGE_BODY,
        decreases chunks@.len() - i,
    {
        if chunks[i].len() > MAX_MESSAGE_BODY || out.len() > MAX_MESSAGE_BODY - chunks[i].len() {
            proof {
                lemma_concat_prefix_monotone(chunks.deep_view(), i as int);
            }
            return Err(());
        }
        crate::le::push_all(&mut out, chunks[i].as_slice());
        proof {
            assert(chunks.deep_view().subrange(0, i + 1 as int) =~= chunks.deep_view().subrange(
                0,
                i as int,
            ).push(chunks.deep_view()[i as int]));
            lemma_concat_snoc(chunks.deep_view().subrange(0, i as int), chunks.deep_view()[i as int]);
        }
        i += 1;
    }
    proof {
        assert(chunks.deep_view().subrange(0, chunks.deep_view().len() as int)
            =~= chunks.deep_view());
    }
    Ok(EncodedMessage(out))
}

/// A prefix of the chunk list concatenates to a prefix of the whole.
proof fn lemma_concat_prefix_monotone(s: Seq<Seq<u8>>, i: int)
    requires
        0 <= i <= s.len(),
    ensures
        concat_chunks(s).len() >= concat_chunks(s.subrange(0, i)).len(),
        i < s.len() ==> concat_chunks(s).len() >= concat_chunks(s.subrange(0, i)).len()
            + s[i].len(),
    decreases s.len() - i,
{
    if i < s.len() {
        assert(s.subrange(0, i + 1) =~= s.subrange(0, i).push(s[i]));
        lemma_concat_snoc(s.subrange(0, i), s[i]);
        lemma_concat_prefix_monotone(s, i + 1);
    } else {
        assert(s.subrange(0, i) =~= s);
    }
}

/// Decodes an `emit_message` call from its parts: the 32 interface bytes
/// read at `iface_ptr`, the gathered buffers, and the raw flags. The call
/// is a fault when the assembled body exceeds the message cap.
pub fn parse_extrinsic_emit_message(
    interface_bytes: &[u8],
    chunks: &Vec<Vec<u8>>,
    needs_answer: u32,
    allow_delay: u32,
    message_id_write: u32,
) -> (r: Result<EmitMessage, ()>)
    requires
        interface_bytes@.len() == 32,
    ensures
        r is Ok <==> concat_chunks(chunks.deep_view()).len() <= MAX_MESSAGE_BODY,
        r matches Ok(m) ==> {
            &&& m.interface@ == interface_bytes@
            &&& m.message@ == concat_chunks(chunks.deep_view())
            &&& m.message_id_write == (if needs_answer != 0 {
                Some(message_id_write)
            } else {
                Option::<u32>::None
            })
            &&& m.allow_delay == (allow_delay != 0)
        },
{
    let message = match assemble_payload(chunks) {
        Ok(m) => m,
        Err(_) => {
            return Err(());
        },
    };
    let mut hash = [0u8; 32];
    let mut i: usize = 0;
    while i < 32
        invariant
            i <= 32,
            interface_bytes@.len() == 32,
            hash@.len() == 32,
            forall|j: int| 0 <= j < i ==> hash@[j] == interface_bytes@[j],
        decreases 32 - i,
    {
        hash[i] = interface_bytes[i];
        i += 1;
    }
    proof {
        assert(hash@ =~= interface_bytes@);
    }
    Ok(
        EmitMessage {
            interface: InterfaceHash(hash),
            message_id_write: if needs_answer != 0 {
                Some(message_id_write)
            } else {
                None
            },
            message,
            allow_delay: allow_delay != 0,
        },
    )
}

/// Decodes an `emit_answer` call: the eight id bytes read at `id_ptr` and
/// the response body read at `resp_ptr`. The call is a fault when the
/// response exceeds the message cap.
pub fn parse_extrinsic_emit_answer(id_bytes: &[u8], response: Vec<u8>) -> (r: Result<
    EmitAnswer,
    (),
>)
    requires
        id_bytes@.len() == 8,
    ensures
        r is Ok <==> response@.len() <= MAX_MESSAGE_BODY,
        r matches Ok(a) ==> a.message_id == MessageId(le_64(id_bytes@)) && a.response@
            == response@,
{
    if response.len() > MAX_MESSAGE_BODY {
        return Err(());
    }
    let id = read_le_64(id_bytes, 0);
    proof {
        assert(id_bytes@.subrange(0, 8) =~= id_bytes@);
    }
    Ok(EmitAnswer { message_id: MessageId(id), response: EncodedMessage(response) })
}

/// Decodes an `emit_message_error` or `cancel_message` call: the eight id
/// bytes read at `id_ptr`.
pub fn parse_extrinsic_emit_message_error(id_bytes: &[u8]) -> (r: MessageId)
    requires
        id_bytes@.len() == 8,
    ensures
        r == MessageId(le_64(id_bytes@)),
{
    let id = read_le_64(id_bytes, 0);
    proof {
        assert(id_bytes@.subrange(0, 8) =~= id_bytes@);
    }
    MessageId(id)
}

} // verus!
