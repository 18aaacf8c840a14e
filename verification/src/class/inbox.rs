use crate::id::RawID;
use crate::messaging::{Message, Packet};
use crate::tuning::Tuning;
use crate::type_registry::ShortTypeId;
use crate::wire::{
    build_frame, frame_bytes, frame_message_type, frame_payload, frame_recipient, is_data_frame,
    lemma_frame_round_trip, read_raw_id, read_u16_at,
};
use vstd::prelude::*;
use vstd::slice::{slice_subrange, slice_to_vec};

verus! {

/// The queue of the messages that wait for the instances of one class. Each
/// message lies in it as a frame: message type, recipient, message.
pub struct Inbox {
    frames: Vec<Vec<u8>>,
}

/// One message out of an inbox, ready for dispatch.
pub struct DispatchablePacket {
    /// The type of the message, which selects the handler.
    pub message_type: ShortTypeId,
    /// The recipient and the message.
    pub packet: Packet<Vec<u8>>,
}

/// The frames that one drain of an inbox hands out, oldest first.
pub struct InboxIterator {
    frames: Vec<Vec<u8>>,
    position: usize,
}

/// Whether a packet is what a frame holds.
pub open spec fn decodes(frame: Seq<u8>, packet: DispatchablePacket) -> bool {
    &&& packet.message_type@ == frame_message_type(frame)
    &&& packet.packet.recipient_id@ == frame_recipient(frame)
    &&& packet.packet.message@ == frame_payload(frame)
}

impl View for Inbox {
    type V = Seq<Seq<u8>>;

    /// The waiting frames, oldest first.
    closed spec fn view(&self) -> Seq<Seq<u8>> {
        self.frames@.map_values(|f: Vec<u8>| f@)
    }
}

impl Inbox {
    /// Every waiting frame carries a message.
    pub open spec fn wf(&self) -> bool {
        forall|i: int| 0 <= i < self@.len() ==> is_data_frame(#[trigger] self@[i])
    }

    /// An empty inbox.
    pub fn new(tuning: &Tuning) -> (inbox: Inbox)
        ensures
            inbox@ == Seq::<Seq<u8>>::empty(),
            inbox.wf(),
    {
        let inbox = Inbox { frames: Vec::new() };
        assert(inbox@ =~= Seq::<Seq<u8>>::empty());
        inbox
    }

    /// Appends the frame of a message whose bytes are given.
    pub fn put_bytes(&mut self, recipient: RawID, message_type: ShortTypeId, payload: &[u8])
        requires
            old(self).wf(),
        ensures
            final(self).wf(),
            final(self)@ == old(self)@.push(frame_bytes(message_type@, recipient@, payload@)),
    {
        let frame = build_frame(message_type, recipient, payload);
        self.frames.push(frame);
        assert(self@ =~= old(self)@.push(frame_bytes(message_type@, recipient@, payload@)));
    }

    /// Appends the frame of a packet: its message type, its recipient, and
    /// the bytes that the message's `encode` gives.
    pub fn put<M: Message>(&mut self, packet: Packet<M>, message_type: ShortTypeId)
        requires
            old(self).wf(),
        ensures
            final(self).wf(),
            exists|bytes: Vec<u8>| #[trigger]
                call_ensures(<M as Message>::encode, (&packet.message,), bytes) && final(self)@
                    == old(self)@.push(frame_bytes(message_type@, packet.recipient_id@, bytes@)),
            final(self)@.len() == old(self)@.len() + 1,
            final(self)@.drop_last() == old(self)@,
            frame_message_type(final(self)@.last()) == message_type@,
            frame_recipient(final(self)@.last()) == packet.recipient_id@,
    {
        let payload = packet.message.encode();
        assert(call_ensures(<M as Message>::encode, (&packet.message,), payload));
        self.put_bytes(packet.recipient_id, message_type, payload.as_slice());
        proof {
            lemma_frame_round_trip(message_type@, packet.recipient_id@, payload@);
            assert(self@.drop_last() =~= old(self)@);
        }
    }

    /// The number of waiting frames.
    pub fn len(&self) -> (n: usize)
        ensures
            n == self@.len(),
    {
        self.frames.len()
    }

    /// Appends a frame that was built elsewhere, byte for byte. This is how a
    /// message that came over the network enters the inbox.
    pub fn put_raw(&mut self, buf: &[u8])
        requires
            old(self).wf(),
            is_data_frame(buf@),
        ensures
            final(self).wf(),
            final(self)@ == old(self)@.push(buf@),
    {
        let mut frame: Vec<u8> = Vec::new();
        frame.extend_from_slice(buf);
        assert(frame@ =~= buf@);
        self.frames.push(frame);
        assert(self@ =~= old(self)@.push(buf@));
    }

    /// Takes out the frames that wait now. What is put while they are
    /// handled waits for the next drain.
    pub fn drain(&mut self) -> (iterator: InboxIterator)
        requires
            old(self).wf(),
        ensures
            final(self)@ == Seq::<Seq<u8>>::empty(),
            final(self).wf(),
            iterator.wf(),
            iterator.remaining() == old(self)@,
    {
        let mut frames: Vec<Vec<u8>> = Vec::new();
        core::mem::swap(&mut frames, &mut self.frames);
        let iterator = InboxIterator { frames, position: 0 };
        assert forall|i: int| 0 <= i < iterator.frames.len() implies is_data_frame(
            #[trigger] iterator.frames[i]@,
        ) by {
            assert(iterator.frames[i]@ == old(self)@[i]);
        }
        assert(self@ =~= Seq::<Seq<u8>>::empty());
        assert(iterator.remaining() =~= old(self)@);
        iterator
    }
}

impl Inbox {
    /// Puts the frames that a drain has not handed out back in front of the
    /// frames that wait, in their order.
    pub fn put_back(&mut self, iterator: InboxIterator)
        requires
            old(self).wf(),
            iterator.wf(),
        ensures
            final(self).wf(),
            final(self)@ == iterator.remaining() + old(self)@,
    {
        let mut frames = iterator.frames;
        let mut rest = frames.split_off(iterator.position);
        rest.append(&mut self.frames);
        self.frames = rest;
        proof {
            let want = iterator.remaining() + old(self)@;
            assert(self@.len() == want.len());
            assert forall|i: int| 0 <= i < self@.len() implies self@[i] == want[i] && is_data_frame(
                #[trigger] self@[i],
            ) by {
                if i < iterator.remaining().len() {
                    assert(self@[i] == iterator.frames[iterator.position + i]@);
                } else {
                    assert(self@[i] == old(self)@[i - iterator.remaining().len()]);
                }
            }
            assert(self@ =~= want);
        }
    }
}

impl InboxIterator {
    /// The frames that are still to come, oldest first.
    pub closed spec fn remaining(&self) -> Seq<Seq<u8>> {
        self.frames@.map_values(|f: Vec<u8>| f@).skip(self.position as int)
    }

    /// Every frame still to come carries a message.
    pub closed spec fn wf(&self) -> bool {
        &&& self.position <= self.frames.len()
        &&& forall|i: int| 0 <= i < self.frames.len() ==> is_data_frame(#[trigger] self.frames[i]@)
    }

    /// The number of frames that are still to come.
    pub fn len(&self) -> (n: usize)
        requires
            self.wf(),
        ensures
            n == self.remaining().len(),
    {
        self.frames.len() - self.position
    }

    /// The next frame, read as a packet; `None` when all were handed out.
    pub fn next(&mut self) -> (r: Option<DispatchablePacket>)
        requires
            old(self).wf(),
        ensures
            final(self).wf(),
            old(self).remaining().len() == 0 ==> r is None && final(self).remaining() == old(self).remaining(),
            old(self).remaining().len() > 0 ==> r is Some && decodes(
                old(self).remaining()[0],
                r->0,
            ) && final(self).remaining() == old(self).remaining().skip(1),
    {
        if self.position >= self.frames.len() {
            return None;
        }
        let frame: &[u8] = self.frames[self.position].as_slice();
        let ghost f = frame@;
        assert(f == old(self).remaining()[0]);
        assert(is_data_frame(f));
        let type_number = read_u16_at(frame, 0);
        let message_type = ShortTypeId::new(type_number).unwrap();
        let recipient_id = read_raw_id(frame, 2).unwrap();
        let payload = slice_to_vec(slice_subrange(frame, 10, frame.len()));
        self.position = self.position + 1;
        assert(self.remaining() =~= old(self).remaining().skip(1));
        Some(DispatchablePacket { message_type, packet: Packet { recipient_id, message: payload } })
    }
}

/// A frame that was built from a message type, a recipient and a message
/// reads as exactly these, whether `put` built it in place or `put_raw`
/// stored it byte for byte.
pub proof fn lemma_drain_reads_what_was_put(
    message_type: u16,
    recipient: crate::id::RawIDView,
    payload: Seq<u8>,
    packet: DispatchablePacket,
)
    requires
        decodes(frame_bytes(message_type, recipient, payload), packet),
    ensures
        packet.message_type@ == message_type,
        packet.packet.recipient_id@ == recipient,
        packet.packet.message@ == payload,
{
    lemma_frame_round_trip(message_type, recipient, payload);
}

} // verus!
