//! Frame → per-call PCM assembly: the FIFO carry buffer between the
//! per-frame synthesis output and the per-call PCM budget.
//!
//! Every call consumes `sub_packets_per_call` frames of
//! `samples_per_frame × channels × 2` PCM bytes and emits the call's
//! budget; the first call emits less than it consumes, so a constant
//! backlog rides in the buffer. A call's output is the oldest buffered
//! PCM.
use crate::init::DecodeConfig;
use crate::Error;
use std::collections::VecDeque;
use vstd::prelude::*;

verus! {

/// FIFO carry buffer between per-frame PCM and per-call output.
#[derive(Debug, Clone, PartialEq, Eq)]
pub struct CallPcmAssembler {
    frame_pcm_bytes: u32,
    queue: VecDeque<u8>,
}

impl CallPcmAssembler {
    /// The PCM bytes one frame contributes.
    pub closed spec fn frame_size(&self) -> u32 {
        self.frame_pcm_bytes
    }

    /// The buffered bytes, oldest first.
    pub closed spec fn queued(&self) -> Seq<u8> {
        self.queue@
    }

    /// The assembler of a configuration: one frame is
    /// `pcm_bytes_per_call / sub_packets_per_call` bytes. A configuration
    /// with no sub-packet per call has no frame geometry.
    pub fn from_config(config: &DecodeConfig) -> (r: core::result::Result<Self, Error>)
        ensures
            config.sub_packets_per_call == 0 ==> r == Err::<Self, Error>(
                Error::FrameNotDivisibleBySubPacket {
                    frame_bytes: config.frame_bytes,
                    sub_packet_size: config.sub_packet_size,
                },
            ),
            config.sub_packets_per_call != 0 ==> (r matches Ok(a) && a.frame_size()
                == config.pcm_bytes_per_call / config.sub_packets_per_call && a.queued()
                == Seq::<u8>::empty()),
    {
        if config.sub_packets_per_call == 0 {
            return Err(
                Error::FrameNotDivisibleBySubPacket {
                    frame_bytes: config.frame_bytes,
                    sub_packet_size: config.sub_packet_size,
                },
            );
        }
        Ok(
            CallPcmAssembler {
                frame_pcm_bytes: config.pcm_bytes_per_call / config.sub_packets_per_call,
                queue: VecDeque::new(),
            },
        )
    }

    /// PCM bytes one frame contributes.
    pub fn frame_pcm_bytes(&self) -> (n: u32)
        ensures
            n == self.frame_size(),
    {
        self.frame_pcm_bytes
    }

    /// Bytes currently buffered.
    pub fn buffered(&self) -> (n: usize)
        ensures
            n == self.queued().len(),
    {
        self.queue.len()
    }

    /// Enqueue one frame's PCM, which must be exactly one frame long.
    pub fn push_frame_pcm(&mut self, frame: &[u8]) -> (r: core::result::Result<(), Error>)
        ensures
            final(self).frame_size() == old(self).frame_size(),
            frame@.len() != old(self).frame_size() ==> r == Err::<(), Error>(
                Error::FramePcmLengthMismatch {
                    got: frame@.len() as usize,
                    expected: old(self).frame_size() as usize,
                },
            ) && final(self).queued() == old(self).queued(),
            frame@.len() == old(self).frame_size() ==> r is Ok && final(self).queued() == old(
                self,
            ).queued() + frame@,
    {
        if frame.len() != self.frame_pcm_bytes as usize {
            return Err(
                Error::FramePcmLengthMismatch {
                    got: frame.len(),
                    expected: self.frame_pcm_bytes as usize,
                },
            );
        }
        let ghost q0 = self.queue@;
        let mut i: usize = 0;
        while i < frame.len()
            invariant
                i <= frame@.len(),
                self.frame_pcm_bytes == old(self).frame_pcm_bytes,
                q0 == old(self).queue@,
                self.queue@ == q0 + frame@.subrange(0, i as int),
            decreases frame@.len() - i,
        {
            self.queue.push_back(frame[i]);
            proof {
                assert(frame@.subrange(0, i as int).push(frame@[i as int]) =~= frame@.subrange(
                    0,
                    i as int + 1,
                ));
                assert((q0 + frame@.subrange(0, i as int)).push(frame@[i as int]) =~= q0
                    + frame@.subrange(0, i as int + 1));
            }
            i += 1;
        }
        assert(frame@.subrange(0, frame@.len() as int) =~= frame@);
        Ok(())
    }

    /// Dequeue one call's budget into `out`: the oldest `out.len()`
    /// buffered bytes. With fewer bytes buffered nothing moves.
    pub fn fill_call(&mut self, out: &mut [u8]) -> (r: core::result::Result<(), Error>)
        ensures
            final(self).frame_size() == old(self).frame_size(),
            old(self).queued().len() < old(out)@.len() ==> r == Err::<(), Error>(
                Error::PcmAssemblerUnderrun {
                    need: old(out)@.len() as usize,
                    have: old(self).queued().len() as usize,
                },
            ) && final(self).queued() == old(self).queued() && final(out)@ == old(out)@,
            old(self).queued().len() >= old(out)@.len() ==> r is Ok && final(out)@ == old(
                self,
            ).queued().take(old(out)@.len() as int) && final(self).queued() == old(
                self,
            ).queued().skip(old(out)@.len() as int),
    {
        if self.queue.len() < out.len() {
            return Err(Error::PcmAssemblerUnderrun { need: out.len(), have: self.queue.len() });
        }
        let ghost q0 = self.queue@;
        let n = out.len();
        let mut i: usize = 0;
        while i < n
            invariant
                n == out@.len(),
                n <= q0.len(),
                i <= n,
                self.frame_pcm_bytes == old(self).frame_pcm_bytes,
                q0 == old(self).queue@,
                self.queue@ == q0.skip(i as int),
                forall|j: int| 0 <= j < i ==> #[trigger] out@[j] == q0[j],
            decreases n - i,
        {
            let b = self.queue.pop_front();
            match b {
                Some(x) => {
                    out[i] = x;
                },
                None => {
                    assert(false);
                },
            }
            assert(q0.skip(i as int).drop_first() =~= q0.skip(i as int + 1));
            i += 1;
        }
        assert(out@ =~= q0.take(n as int));
        Ok(())
    }

    /// Drop any buffered bytes.
    pub fn reset(&mut self)
        ensures
            final(self).frame_size() == old(self).frame_size(),
            final(self).queued() == Seq::<u8>::empty(),
    {
        self.queue.clear();
    }
}

impl Default for CallPcmAssembler {
    /// An empty assembler with a zero frame size.
    fn default() -> (a: Self)
        ensures
            a.frame_size() == 0,
            a.queued() == Seq::<u8>::empty(),
    {
        CallPcmAssembler { frame_pcm_bytes: 0, queue: VecDeque::new() }
    }
}

} // verus!
