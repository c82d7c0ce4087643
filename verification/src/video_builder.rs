//! The bookkeeping of the video encoder: the queue of raw frames waiting for the encoder,
//! the presentation timestamps, and the decisions of the encoding steps.
//!
//! The encoder and the muxer themselves are outside work (ffmpeg): the program performs
//! each action that a step returns and hands the outcome back as the next event. The
//! encoded length, the time base times `v_pts` in floating point, is computed there too.
use vstd::prelude::*;
use std::collections::HashMap;
use std::collections::VecDeque;

use crate::text::str_eq;

verus! {

/// A fraction of a second: the time base of the encoded stream.
#[derive(Clone, Copy, Debug, PartialEq, Eq)]
pub struct TimeBase {
    pub numerator: i32,
    pub denominator: i32,
}

/// The settings of an encoded video.
pub struct VideoOptions {
    pub output_path: String,
    pub metadata: HashMap<String, String>,
    pub video_time_base: TimeBase,
    pub video_codec: String,
    pub video_codec_params: HashMap<String, String>,
    pub pixel_format_in: String,
    pub pixel_format_out: String,
    pub resolution_in: (u32, u32),
    pub resolution_out: (u32, u32),
}

/// What the encoding side of a `VideoBuilder` knows.
pub struct VideoBuilder {
    pub options: VideoOptions,
    /// The number of bytes of one raw input frame.
    pub frame_len: usize,
    /// Raw frames waiting for the encoder, oldest first.
    pub v_frame_buf: VecDeque<Vec<u8>>,
    /// The timestamp that the next frame sent to the encoder gets.
    pub v_pts: i64,
    /// The number of packets written to the output.
    pub v_pts_muxed: i64,
    /// The number of bytes that the output has received so far.
    pub bytes_written: usize,
}

/// The outcome of the outside work that the last `step_encoding` action asked for.
pub enum StepEvent {
    /// The first call of a step.
    Start,
    /// The outcome of sending a frame to the encoder.
    Sent(Result<(), String>),
    /// The outcome of asking the encoder for a packet and writing it: `Ok(true)` when a
    /// packet was written, `Ok(false)` when the encoder had none.
    Muxed(Result<bool, String>),
}

/// What `step_encoding` asks for next.
pub enum StepAction {
    /// Send this frame, with this timestamp, to the encoder.
    Send { frame: Vec<u8>, pts: i64 },
    /// Ask the encoder for a packet and write it.
    Receive,
    /// The step is over, with this result.
    Done(Result<(), String>),
}

/// The outcome of the outside work that the last `finish_encoding` action asked for.
pub enum FinishEvent {
    Start,
    EofSent(Result<(), String>),
    Muxed(Result<bool, String>),
    TrailerWritten(Result<(), String>),
}

/// What `finish_encoding` asks for next.
pub enum FinishAction {
    /// Tell the encoder that no more frames come.
    SendEof,
    /// Ask the encoder for a packet and write it.
    Receive,
    /// Write the trailer of the output.
    WriteTrailer,
    /// Finishing is over, with this result.
    Done(Result<(), String>),
}

impl VideoBuilder {
    /// Every queued frame has the size of an input frame, and the counters are not negative.
    pub open spec fn wf(&self) -> bool {
        &&& self.v_pts >= 0
        &&& self.v_pts_muxed >= 0
        &&& forall|i: int|
            0 <= i < self.v_frame_buf@.len() ==> (#[trigger] self.v_frame_buf@[i])@.len()
                == self.frame_len
    }

    /// A builder with an empty queue and no frame sent yet.
    pub fn new(options: VideoOptions, frame_len: usize) -> (r: VideoBuilder)
        ensures
            r.wf(),
            r.options == options,
            r.frame_len == frame_len,
            r.v_frame_buf@.len() == 0,
            r.v_pts == 0,
            r.v_pts_muxed == 0,
            r.bytes_written == 0,
    {
        VideoBuilder {
            options,
            frame_len,
            v_frame_buf: VecDeque::new(),
            v_pts: 0,
            v_pts_muxed: 0,
            bytes_written: 0,
        }
    }

    /// Queues a raw frame for the encoder. The frame must have the size of an input frame.
    pub fn push_video_data(&mut self, video: &[u8]) -> (r: Result<(), String>)
        requires
            old(self).wf(),
            video@.len() == old(self).frame_len,
        ensures
            r is Ok,
            final(self).wf(),
            final(self).v_frame_buf@.len() == old(self).v_frame_buf@.len() + 1,
            forall|i: int|
                0 <= i < old(self).v_frame_buf@.len() ==> #[trigger] final(self).v_frame_buf@[i]
                    == old(self).v_frame_buf@[i],
            final(self).v_frame_buf@.last()@ == video@,
            final(self).v_pts == old(self).v_pts,
            final(self).v_pts_muxed == old(self).v_pts_muxed,
            final(self).frame_len == old(self).frame_len,
            final(self).bytes_written == old(self).bytes_written,
            final(self).options == old(self).options,
    {
        let frame = vstd::slice::slice_to_vec(video);
        self.v_frame_buf.push_back(frame);
        Ok(())
    }

    /// Takes the oldest queued frame for the encoder, with the timestamp it gets.
    fn next_frame(&mut self) -> (r: StepAction)
        requires
            old(self).wf(),
        ensures
            final(self).wf(),
            final(self).v_pts == old(self).v_pts,
            final(self).v_pts_muxed == old(self).v_pts_muxed,
            final(self).frame_len == old(self).frame_len,
            final(self).bytes_written == old(self).bytes_written,
            final(self).options == old(self).options,
            next_frame_taken(old(self).v_frame_buf@, old(self).v_pts, final(self).v_frame_buf@, r),
    {
        match self.v_frame_buf.pop_front() {
            Some(frame) => {
                proof {
                    assert(self.v_frame_buf@ =~= old(self).v_frame_buf@.drop_first());
                    assert forall|i: int| 0 <= i < self.v_frame_buf@.len() implies (
                    #[trigger] self.v_frame_buf@[i])@.len() == self.frame_len by {
                        assert(self.v_frame_buf@[i] == old(self).v_frame_buf@[i + 1]);
                    }
                }
                StepAction::Send { frame, pts: self.v_pts }
            },
            None => StepAction::Done(Ok(())),
        }
    }

    /// One decision of an encoding step, which sends every queued frame to the encoder and
    /// writes the packets it gives back. A step starts by taking the oldest frame; after
    /// a frame is sent, its timestamp is used up and a packet is asked for; after a packet
    /// is written, the next frame is taken. The step ends when the queue is empty, when the
    /// encoder has no packet, or with the first error.
    pub fn step_encoding(&mut self, event: StepEvent) -> (r: StepAction)
        requires
            old(self).wf(),
            old(self).v_pts < i64::MAX,
            old(self).v_pts_muxed < i64::MAX,
        ensures
            final(self).wf(),
            final(self).frame_len == old(self).frame_len,
            final(self).bytes_written == old(self).bytes_written,
            final(self).options == old(self).options,
            match event {
                StepEvent::Start => final(self).v_pts == old(self).v_pts && final(self).v_pts_muxed
                    == old(self).v_pts_muxed && next_frame_taken(
                    old(self).v_frame_buf@,
                    old(self).v_pts,
                    final(self).v_frame_buf@,
                    r,
                ),
                StepEvent::Muxed(Ok(true)) => final(self).v_pts == old(self).v_pts
                    && final(self).v_pts_muxed == old(self).v_pts_muxed + 1 && next_frame_taken(
                    old(self).v_frame_buf@,
                    old(self).v_pts,
                    final(self).v_frame_buf@,
                    r,
                ),
                StepEvent::Sent(Ok(())) => r is Receive && final(self).v_pts == old(self).v_pts + 1
                    && final(self).v_pts_muxed == old(self).v_pts_muxed
                    && final(self).v_frame_buf@ == old(self).v_frame_buf@,
                StepEvent::Sent(Err(e)) => r == StepAction::Done(Err(e)) && unchanged_counts(
                    *old(self),
                    *final(self),
                ),
                StepEvent::Muxed(Ok(false)) => r == StepAction::Done(Ok(())) && unchanged_counts(
                    *old(self),
                    *final(self),
                ),
                StepEvent::Muxed(Err(e)) => r == StepAction::Done(Err(e)) && unchanged_counts(
                    *old(self),
                    *final(self),
                ),
            },
    {
        match event {
            StepEvent::Start => self.next_frame(),
            StepEvent::Muxed(Ok(true)) => {
                self.v_pts_muxed = self.v_pts_muxed + 1;
                self.next_frame()
            },
            StepEvent::Sent(Ok(())) => {
                self.v_pts = self.v_pts + 1;
                StepAction::Receive
            },
            StepEvent::Sent(Err(e)) => StepAction::Done(Err(e)),
            StepEvent::Muxed(Ok(false)) => StepAction::Done(Ok(())),
            StepEvent::Muxed(Err(e)) => StepAction::Done(Err(e)),
        }
    }

    /// One decision of finishing: tell the encoder that the input ended, write every
    /// packet it still gives, then write the trailer. Ends with the first error.
    pub fn finish_encoding(&mut self, event: FinishEvent) -> (r: FinishAction)
        requires
            old(self).wf(),
            old(self).v_pts_muxed < i64::MAX,
        ensures
            final(self).wf(),
            final(self).v_frame_buf@ == old(self).v_frame_buf@,
            final(self).v_pts == old(self).v_pts,
            final(self).frame_len == old(self).frame_len,
            final(self).bytes_written == old(self).bytes_written,
            final(self).options == old(self).options,
            final(self).v_pts_muxed == old(self).v_pts_muxed + if event matches FinishEvent::Muxed(
                Ok(true),
            ) {
                1int
            } else {
                0
            },
            match event {
                FinishEvent::Start => r is SendEof,
                FinishEvent::EofSent(Ok(())) => r is Receive,
                FinishEvent::EofSent(Err(e)) => r == FinishAction::Done(Err(e)),
                FinishEvent::Muxed(Ok(true)) => r is Receive,
                FinishEvent::Muxed(Ok(false)) => r is WriteTrailer,
                FinishEvent::Muxed(Err(e)) => r == FinishAction::Done(Err(e)),
                FinishEvent::TrailerWritten(Ok(())) => r == FinishAction::Done(Ok(())),
                FinishEvent::TrailerWritten(Err(e)) => r == FinishAction::Done(Err(e)),
            },
    {
        match event {
            FinishEvent::Start => FinishAction::SendEof,
            FinishEvent::EofSent(Ok(())) => FinishAction::Receive,
            FinishEvent::EofSent(Err(e)) => FinishAction::Done(Err(e)),
            FinishEvent::Muxed(Ok(true)) => {
                self.v_pts_muxed = self.v_pts_muxed + 1;
                FinishAction::Receive
            },
            FinishEvent::Muxed(Ok(false)) => FinishAction::WriteTrailer,
            FinishEvent::Muxed(Err(e)) => FinishAction::Done(Err(e)),
            FinishEvent::TrailerWritten(Ok(())) => FinishAction::Done(Ok(())),
            FinishEvent::TrailerWritten(Err(e)) => FinishAction::Done(Err(e)),
        }
    }

    /// Records the byte count that the output reports after a write.
    pub fn record_bytes_written(&mut self, total: usize)
        requires
            old(self).wf(),
        ensures
            final(self).wf(),
            final(self).bytes_written == total,
            final(self).v_frame_buf@ == old(self).v_frame_buf@,
            final(self).v_pts == old(self).v_pts,
            final(self).v_pts_muxed == old(self).v_pts_muxed,
            final(self).frame_len == old(self).frame_len,
            final(self).options == old(self).options,
    {
        self.bytes_written = total;
    }

    /// The number of bytes that the output has received so far.
    pub fn encoded_video_size(&self) -> (r: usize)
        ensures
            r == self.bytes_written,
    {
        self.bytes_written
    }
}

/// Taking the next frame: with an empty queue the step is done; otherwise the oldest frame
/// leaves the queue and goes to the encoder with timestamp `pts`.
pub open spec fn next_frame_taken(
    before: Seq<Vec<u8>>,
    pts: i64,
    after: Seq<Vec<u8>>,
    r: StepAction,
) -> bool {
    if before.len() == 0 {
        r == StepAction::Done(Ok(())) && after == before
    } else {
        r == StepAction::Send { frame: before[0], pts } && after == before.drop_first()
    }
}

pub open spec fn unchanged_counts(a: VideoBuilder, b: VideoBuilder) -> bool {
    &&& b.v_pts == a.v_pts
    &&& b.v_pts_muxed == a.v_pts_muxed
    &&& b.v_frame_buf@ == a.v_frame_buf@
}

/// Which options the header of a container in `format_name` is written with: mp4 files
/// get `movflags=faststart` (the index goes first, so playback can start before the
/// download ends); other formats get none.
pub fn header_options(format_name: &str) -> (r: Vec<(String, String)>)
    ensures
        format_name@ == "mp4"@ ==> r@.len() == 1 && r@[0].0@ == "movflags"@ && r@[0].1@
            == "faststart"@,
        format_name@ != "mp4"@ ==> r@.len() == 0,
{
    let mut opts: Vec<(String, String)> = Vec::new();
    if str_eq(format_name, "mp4") {
        opts.push((String::from_str("movflags"), String::from_str("faststart")));
    }
    opts
}

/// The queue is first in, first out: taking from a queue with one more frame at the back
/// gives the frame that taking from the queue alone gives, and leaves that remainder
/// with the new frame at its back; from an empty queue the new frame is taken at once.
pub proof fn law_queue_first_in_first_out(q: Seq<Vec<u8>>, f: Vec<u8>, pts: i64)
    ensures
        q.len() > 0 ==> next_frame_taken(
            q.push(f),
            pts,
            q.drop_first().push(f),
            StepAction::Send { frame: q[0], pts },
        ),
        q.len() == 0 ==> next_frame_taken(
            q.push(f),
            pts,
            Seq::empty(),
            StepAction::Send { frame: f, pts },
        ),
{
    if q.len() > 0 {
        assert(q.push(f).drop_first() =~= q.drop_first().push(f));
    } else {
        assert(q.push(f).drop_first() =~= Seq::<Vec<u8>>::empty());
    }
}

} // verus!
