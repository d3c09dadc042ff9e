//! The channel adapter: the uniform write/read/size operation shape shared by
//! all kernel I/O sources, and its instantiation for the event flag group. A
//! byte buffer of the register's width (four bytes, little endian) is the
//! transfer unit; writing a buffer ORs it into the register as a mask, and a
//! non-blocking read consumes every set bit (wait-any over all bits) into the
//! caller's buffer. The adapter is a pure protocol translation: it owns no
//! state of its own.

use vstd::prelude::*;

use crate::bits::count_ones;
use crate::event::{write_step, Event, EventError, EventView, Policy};

verus! {

/// The low four bytes of `s`, little endian, as a register mask.
pub open spec fn mask_of_bytes(s: Seq<u8>) -> u32 {
    (s[0] as u32) | ((s[1] as u32) << 8) | ((s[2] as u32) << 16) | ((s[3] as u32) << 24)
}

/// The four little-endian bytes of a register mask.
pub open spec fn bytes_of_mask(m: u32) -> Seq<u8> {
    seq![
        (m & 0xff) as u8,
        ((m >> 8) & 0xff) as u8,
        ((m >> 16) & 0xff) as u8,
        ((m >> 24) & 0xff) as u8,
    ]
}

/// The byte image of a mask reads back as the same mask, and a four-byte
/// buffer survives the round trip through a mask unchanged: the adapter's
/// translation loses nothing in either direction.
pub proof fn lemma_mask_bytes_round_trip(m: u32, s: Seq<u8>)
    requires
        s.len() == 4,
    ensures
        mask_of_bytes(bytes_of_mask(m)) == m,
        bytes_of_mask(mask_of_bytes(s)) == s,
{
    assert(((m & 0xff) as u8 as u32) | (((m >> 8) & 0xff) as u8 as u32) << 8 | (((m >> 16)
        & 0xff) as u8 as u32) << 16 | (((m >> 24) & 0xff) as u8 as u32) << 24 == m)
        by (bit_vector);
    let b0 = s[0];
    let b1 = s[1];
    let b2 = s[2];
    let b3 = s[3];
    let w = (b0 as u32) | ((b1 as u32) << 8) | ((b2 as u32) << 16) | ((b3 as u32) << 24);
    assert((w & 0xff) as u8 == b0 && ((w >> 8) & 0xff) as u8 == b1 && ((w >> 16) & 0xff) as u8
        == b2 && ((w >> 24) & 0xff) as u8 == b3) by (bit_vector)
        requires
            w == (b0 as u32) | ((b1 as u32) << 8) | ((b2 as u32) << 16) | ((b3 as u32) << 24),
    ;
    assert(bytes_of_mask(mask_of_bytes(s)) =~= s);
}

/// Reinterpret a four-byte buffer as a register mask, little endian.
pub fn mask_from_bytes(buf: &[u8]) -> (m: u32)
    requires
        buf@.len() == 4,
    ensures
        m == mask_of_bytes(buf@),
{
    (buf[0] as u32) | ((buf[1] as u32) << 8) | ((buf[2] as u32) << 16) | ((buf[3] as u32) << 24)
}

/// The four little-endian bytes of a register mask.
pub fn mask_to_bytes(m: u32) -> (buf: Vec<u8>)
    ensures
        buf@ == bytes_of_mask(m),
        buf@.len() == 4,
{
    let mut v: Vec<u8> = Vec::new();
    v.push((m & 0xff) as u8);
    v.push(((m >> 8) & 0xff) as u8);
    v.push(((m >> 16) & 0xff) as u8);
    v.push(((m >> 24) & 0xff) as u8);
    proof {
        assert(v@ =~= bytes_of_mask(m));
    }
    v
}

/// The uniform blocking-I/O operation shape of kernel channels, so that a
/// select/poll multiplexer can treat an event object like any queue or device
/// stream: poll readiness with `size`, hand a transfer unit in with `write`,
/// take a ready unit out with `read`.
pub trait Channel: View + Sized {
    /// The channel's internal invariant, established by its constructor and
    /// preserved by every operation.
    spec fn chan_inv(&self) -> bool;

    /// How many units are ready, for polling.
    spec fn pending(&self) -> nat;

    /// A unit can be read right now without blocking.
    spec fn ready(&self) -> bool;

    /// Width in bytes of one transfer unit.
    spec fn unit_len(&self) -> nat;

    /// The channel state a unit-wide write of `buf` leaves behind.
    spec fn written_view(&self, buf: Seq<u8>) -> Self::V;

    /// The count a unit-wide write of `buf` reports; for an event object,
    /// the waiters it satisfied.
    spec fn write_count(&self, buf: Seq<u8>) -> nat;

    /// The unit of bytes a ready read delivers.
    spec fn read_unit(&self) -> Seq<u8>;

    /// The channel state a ready read leaves behind.
    spec fn read_view(&self) -> Self::V;

    /// Poll readiness without consuming anything: a positive count means a
    /// read would succeed now.
    fn size(&self) -> (n: usize)
        requires
            self.chan_inv(),
        ensures
            n == self.pending(),
            n != 0 ==> self.ready(),
    ;

    /// Hand one unit of bytes to the channel. Never blocks. A buffer that is
    /// not one unit wide is rejected and the channel is left untouched; one
    /// unit wide, the write is owed: it succeeds, leaves exactly the written
    /// state, and reports the count the channel defines for it.
    fn write(&mut self, buf: &[u8]) -> (r: Result<usize, EventError>)
        requires
            old(self).chan_inv(),
        ensures
            final(self).chan_inv(),
            final(self).unit_len() == old(self).unit_len(),
            buf@.len() != old(self).unit_len() ==> r == Err::<usize, EventError>(
                EventError::InvalidMask,
            ) && *final(self) == *old(self),
            buf@.len() == old(self).unit_len() ==> r == Ok::<usize, EventError>(
                old(self).write_count(buf@) as usize,
            ) && final(self)@ == old(self).written_view(buf@),
    ;

    /// Take one ready unit into `buf`. Never blocks: when nothing is ready it
    /// reports would-block and leaves channel and buffer untouched; when a
    /// unit is ready the read is owed: `buf` holds exactly the channel's ready
    /// unit and the channel is left in exactly its read state, one unit
    /// poorer.
    fn read(&mut self, buf: &mut Vec<u8>) -> (r: Result<usize, EventError>)
        requires
            old(self).chan_inv(),
        ensures
            final(self).chan_inv(),
            final(self).unit_len() == old(self).unit_len(),
            !old(self).ready() ==> r == Err::<usize, EventError>(EventError::WouldBlock) && *final(self) == *old(self) && final(buf)@ == old(buf)@,
            old(self).ready() ==> r == Ok::<usize, EventError>(old(self).unit_len() as usize)
                && final(buf)@ == old(self).read_unit() && final(self)@ == old(self).read_view()
                && final(self).pending() < old(self).pending(),
    ;
}

impl Event {
    /// Channel-shaped write: reinterpret a four-byte buffer as a mask and OR
    /// it into the register, waking every waiter the scan satisfies. Returns
    /// the count of satisfied waiters. A scheduler that must mark the woken
    /// tasks runnable calls `write` itself, which hands them back.
    pub fn chan_write(&mut self, buf: &[u8]) -> (r: Result<usize, EventError>)
        requires
            old(self)@.wf(),
        ensures
            final(self)@.wf(),
            buf@.len() != 4 ==> r == Err::<usize, EventError>(EventError::InvalidMask) && *final(self) == *old(self),
            buf@.len() == 4 ==> ({
                let s = write_step(old(self)@.waiters, old(self)@.bits, mask_of_bytes(buf@));
                &&& final(self)@.bits == s.bits
                &&& final(self)@.waiters == s.remaining
                &&& r == Ok::<usize, EventError>(s.wakes.len() as usize)
            }),
    {
        if buf.len() != 4 {
            Err(EventError::InvalidMask)
        } else {
            let mask = mask_from_bytes(buf);
            let woken = self.write(mask);
            Ok(woken.len())
        }
    }

    /// Channel-shaped non-blocking read: consume every set bit (wait-any over
    /// all bits) and store the four little-endian bytes of the consumed mask
    /// in `buf`; report would-block, touching nothing, when no bit is set.
    pub fn chan_read(&mut self, buf: &mut Vec<u8>) -> (r: Result<usize, EventError>)
        requires
            old(self)@.wf(),
        ensures
            final(self)@.wf(),
            final(self)@.waiters == old(self)@.waiters,
            old(self)@.bits == 0 ==> r == Err::<usize, EventError>(EventError::WouldBlock)
                && *final(self) == *old(self) && final(buf)@ == old(buf)@,
            old(self)@.bits != 0 ==> r == Ok::<usize, EventError>(4usize) && final(self)@.bits == 0
                && final(buf)@ == bytes_of_mask(old(self)@.bits),
    {
        proof {
            let b = old(self)@.bits;
            assert(b & 0xffff_ffffu32 == b) by (bit_vector);
            assert(b & !0xffff_ffffu32 == 0) by (bit_vector);
        }
        let got = self.try_read(0xffff_ffff, Policy::WaitAny);
        match got {
            Ok(Some(m)) => {
                let bytes = mask_to_bytes(m);
                *buf = bytes;
                Ok(4)
            },
            Ok(None) => Err(EventError::WouldBlock),
            Err(_) => {
                proof {
                    assert(false);
                }
                Err(EventError::WouldBlock)
            },
        }
    }
}

impl Channel for Event {
    open spec fn chan_inv(&self) -> bool {
        self@.wf()
    }

    open spec fn pending(&self) -> nat {
        count_ones(self@.bits)
    }

    open spec fn ready(&self) -> bool {
        self@.bits != 0
    }

    open spec fn unit_len(&self) -> nat {
        4
    }

    open spec fn written_view(&self, buf: Seq<u8>) -> EventView {
        let s = write_step(self@.waiters, self@.bits, mask_of_bytes(buf));
        EventView { bits: s.bits, waiters: s.remaining }
    }

    open spec fn write_count(&self, buf: Seq<u8>) -> nat {
        write_step(self@.waiters, self@.bits, mask_of_bytes(buf)).wakes.len()
    }

    open spec fn read_unit(&self) -> Seq<u8> {
        bytes_of_mask(self@.bits)
    }

    open spec fn read_view(&self) -> EventView {
        EventView { bits: 0, waiters: self@.waiters }
    }

    fn size(&self) -> (n: usize) {
        proof {
            crate::bits::lemma_count_ones_clear();
        }
        Event::size(self)
    }

    fn write(&mut self, buf: &[u8]) -> (r: Result<usize, EventError>) {
        let r = self.chan_write(buf);
        proof {
            if buf@.len() == 4 {
                assert(self@ == old(self).written_view(buf@));
            }
        }
        r
    }

    fn read(&mut self, buf: &mut Vec<u8>) -> (r: Result<usize, EventError>) {
        proof {
            crate::bits::lemma_count_ones_clear();
            if old(self)@.bits != 0 {
                crate::bits::lemma_count_ones_pos(old(self)@.bits);
            }
        }
        let r = self.chan_read(buf);
        proof {
            if old(self)@.bits != 0 {
                assert(self@ == old(self).read_view());
            }
        }
        r
    }
}

/// A value that can cross a channel as one transfer unit of bytes.
pub trait EventBuffer {
    /// The value's byte image on the wire.
    spec fn spec_buf(&self) -> Seq<u8>;

    /// Width of the value in bytes.
    fn len(&self) -> (n: u32)
        ensures
            n == self.spec_buf().len(),
    ;

    /// The value's bytes, ready to hand to a channel's write.
    fn buf(&self) -> (b: Vec<u8>)
        ensures
            b@ == self.spec_buf(),
    ;
}

impl EventBuffer for u32 {
    open spec fn spec_buf(&self) -> Seq<u8> {
        bytes_of_mask(*self)
    }

    fn len(&self) -> (n: u32) {
        4
    }

    fn buf(&self) -> (b: Vec<u8>) {
        mask_to_bytes(*self)
    }
}

} // verus!
