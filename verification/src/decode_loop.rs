//! The decisions of a decode loop.
//!
//! A decode loop demuxes packets, feeds those of its stream to a decoder,
//! drains the frames the decoder yields and hands each to its consumer: the
//! video loop publishes pictures and paces itself against the playback clock,
//! the audio loop enqueues samples and is paced by the hardware that pulls
//! them. Demuxing, decoding and sleeping are done by a driver. After each of
//! those steps the driver reports what happened, together with the current
//! value of the cancellation flag, and is told what to do next.
//!
//! The flag is looked at whenever a packet arrives, when the packets end and
//! whenever the decoder yields a frame, so a stop request ends the loop within
//! one packet's worth of work.

use crate::clock::{FrameRate, PlaybackClock, DEFAULT_FRAME_INTERVAL_NANOS};
use vstd::prelude::*;

verus! {

/// Which of the two loops this is.
#[derive(Clone, Copy, Debug, PartialEq, Eq, Structural)]
pub enum LoopKind {
    /// Publishes pictures and waits for each frame's deadline.
    Video,
    /// Enqueues samples and never waits.
    Audio,
}

/// The step at which a loop failed.
#[derive(Clone, Copy, Debug, PartialEq, Eq, Structural)]
pub enum LoopFailure {
    /// The container, the stream or its decoder could not be opened.
    Open,
    /// The decoder refused a packet.
    SendPacket,
    /// The decoder failed while a frame was asked of it.
    ReceiveFrame,
    /// A decoded frame could not be converted for its consumer.
    ConvertFrame,
}

/// How a loop ended.
#[derive(Clone, Copy, Debug, PartialEq, Eq, Structural)]
pub enum LoopOutcome {
    /// The stream ran to its end and the decoder was drained.
    Completed,
    /// The cancellation flag was found set.
    Cancelled,
    /// The consumer of the frames is gone.
    ConsumerGone,
    /// A step failed.
    Failed(LoopFailure),
}

/// What the driver is asked to do.
#[derive(Clone, Copy, Debug, PartialEq, Eq, Structural)]
pub enum LoopAction {
    /// Open the container and the decoder of the loop's stream.
    Open,
    /// Demux the next packet.
    ReadPacket,
    /// Feed the packet just read to the decoder.
    SendPacket,
    /// Ask the decoder for its next frame.
    ReceiveFrame,
    /// Convert the frame just received and hand it to the consumer.
    DeliverFrame,
    /// Wait this many nanoseconds.
    Sleep(u64),
    /// Tell the decoder that no more packets will come.
    SendEof,
    /// Leave the loop; nothing more is asked.
    Finish(LoopOutcome),
}

/// What the driver reports.
#[derive(Clone, Copy, Debug, PartialEq, Eq, Structural)]
pub enum LoopEvent {
    /// Container and decoder are open; the stream has this average frame rate.
    Opened { frame_rate: FrameRate },
    /// Opening failed.
    OpenFailed,
    /// A packet of the given stream was demuxed.
    Packet { stream_index: usize },
    /// The container has no more packets.
    EndOfPackets,
    /// The decoder took the packet.
    PacketSent,
    /// The decoder refused the packet.
    SendFailed,
    /// The decoder yielded a frame.
    Frame,
    /// The decoder has no frame to give for now.
    NoFrame,
    /// The decoder failed.
    ReceiveFailed,
    /// The consumer took the frame, this long after the loop's start.
    Delivered { elapsed_nanos: u64 },
    /// The consumer is gone.
    ConsumerGone,
    /// The frame could not be converted.
    ConvertFailed,
    /// The wait is over.
    Slept,
    /// The decoder was told that the packets have ended.
    EofSent,
}

impl LoopAction {
    /// Whether `event` is something a driver can report after doing this
    /// action.
    pub open spec fn is_answered_by(self, event: LoopEvent) -> bool {
        match self {
            LoopAction::Open => event is Opened || event is OpenFailed,
            LoopAction::ReadPacket => event is Packet || event is EndOfPackets,
            LoopAction::SendPacket => event is PacketSent || event is SendFailed,
            LoopAction::ReceiveFrame => event is Frame || event is NoFrame
                || event is ReceiveFailed,
            LoopAction::DeliverFrame => event is Delivered || event is ConsumerGone
                || event is ConvertFailed,
            LoopAction::Sleep(_) => event is Slept,
            LoopAction::SendEof => event is EofSent,
            LoopAction::Finish(_) => false,
        }
    }
}

/// The state of one decode loop.
#[derive(Clone, Copy, Debug, PartialEq, Eq, Structural)]
pub struct DecodeLoop {
    pub kind: LoopKind,
    /// The stream whose packets the loop decodes.
    pub stream_index: usize,
    /// Counts published pictures; used by the video loop only.
    pub clock: PlaybackClock,
    /// Whether the packets have ended and the decoder is being drained.
    pub flushing: bool,
    /// What the driver was last asked to do.
    pub pending: LoopAction,
}

impl DecodeLoop {
    /// A loop before its first step: nothing is open, nothing was published,
    /// and the driver is asked to open the stream.
    pub open spec fn initial(kind: LoopKind, stream_index: usize) -> DecodeLoop {
        DecodeLoop {
            kind,
            stream_index,
            clock: PlaybackClock {
                interval_nanos: DEFAULT_FRAME_INTERVAL_NANOS,
                frames_published: 0,
            },
            flushing: false,
            pending: LoopAction::Open,
        }
    }

    /// Whether the loop has ended.
    pub open spec fn is_finished(self) -> bool {
        self.pending is Finish
    }

    /// What holds of every loop that was made by `new` and driven by
    /// `step`: while the decoder is being drained no packet is read or sent.
    pub open spec fn is_well_formed(self) -> bool {
        self.flushing ==> self.pending != LoopAction::Open && self.pending
            != LoopAction::ReadPacket && self.pending != LoopAction::SendPacket
    }

    /// Whether the loop looks at the cancellation flag when `event` arrives.
    pub open spec fn checks_cancellation(self, event: LoopEvent) -> bool {
        ||| self.pending == LoopAction::ReadPacket && (event is Packet || event is EndOfPackets)
        ||| self.pending == LoopAction::ReceiveFrame && event is Frame
    }

    /// The same loop asked to do `action` next.
    pub open spec fn asked(self, action: LoopAction) -> DecodeLoop {
        DecodeLoop { pending: action, ..self }
    }

    /// The loop after the driver reported `event` while the cancellation flag
    /// read `cancelled`. An event that does not answer the pending action
    /// changes nothing.
    pub open spec fn after(self, event: LoopEvent, cancelled: bool) -> DecodeLoop {
        match (self.pending, event) {
            (LoopAction::Open, LoopEvent::Opened { frame_rate }) => DecodeLoop {
                clock: PlaybackClock {
                    interval_nanos: frame_rate.interval_nanos() as u64,
                    frames_published: 0,
                },
                pending: LoopAction::ReadPacket,
                ..self
            },
            (LoopAction::Open, LoopEvent::OpenFailed) => self.asked(
                LoopAction::Finish(LoopOutcome::Failed(LoopFailure::Open)),
            ),
            (LoopAction::ReadPacket, LoopEvent::Packet { stream_index }) => if cancelled {
                self.asked(LoopAction::Finish(LoopOutcome::Cancelled))
            } else if stream_index == self.stream_index {
                self.asked(LoopAction::SendPacket)
            } else {
                self
            },
            (LoopAction::ReadPacket, LoopEvent::EndOfPackets) => if cancelled {
                self.asked(LoopAction::Finish(LoopOutcome::Cancelled))
            } else {
                DecodeLoop { flushing: true, pending: LoopAction::SendEof, ..self }
            },
            (LoopAction::SendPacket, LoopEvent::PacketSent) => self.asked(LoopAction::ReceiveFrame),
            (LoopAction::SendPacket, LoopEvent::SendFailed) => self.asked(
                LoopAction::Finish(LoopOutcome::Failed(LoopFailure::SendPacket)),
            ),
            (LoopAction::ReceiveFrame, LoopEvent::Frame) => if cancelled {
                self.asked(LoopAction::Finish(LoopOutcome::Cancelled))
            } else {
                self.asked(LoopAction::DeliverFrame)
            },
            (LoopAction::ReceiveFrame, LoopEvent::NoFrame) => if self.flushing {
                self.asked(LoopAction::Finish(LoopOutcome::Completed))
            } else {
                self.asked(LoopAction::ReadPacket)
            },
            (LoopAction::ReceiveFrame, LoopEvent::ReceiveFailed) => self.asked(
                LoopAction::Finish(LoopOutcome::Failed(LoopFailure::ReceiveFrame)),
            ),
            (LoopAction::DeliverFrame, LoopEvent::Delivered { elapsed_nanos }) => match self.kind {
                LoopKind::Video => {
                    let clock = self.clock.advanced();
                    let wait = clock.wait_nanos(elapsed_nanos);
                    DecodeLoop {
                        clock,
                        pending: if wait > 0 {
                            LoopAction::Sleep(wait as u64)
                        } else {
                            LoopAction::ReceiveFrame
                        },
                        ..self
                    }
                },
                LoopKind::Audio => self.asked(LoopAction::ReceiveFrame),
            },
            (LoopAction::DeliverFrame, LoopEvent::ConsumerGone) => self.asked(
                LoopAction::Finish(LoopOutcome::ConsumerGone),
            ),
            (LoopAction::DeliverFrame, LoopEvent::ConvertFailed) => self.asked(
                LoopAction::Finish(LoopOutcome::Failed(LoopFailure::ConvertFrame)),
            ),
            (LoopAction::Sleep(_), LoopEvent::Slept) => self.asked(LoopAction::ReceiveFrame),
            (LoopAction::SendEof, LoopEvent::EofSent) => self.asked(LoopAction::ReceiveFrame),
            _ => self,
        }
    }

    /// The loop after a run of reports, all made while the cancellation flag
    /// read `cancelled`.
    pub open spec fn after_all(self, events: Seq<LoopEvent>, cancelled: bool) -> DecodeLoop
        decreases events.len(),
    {
        if events.len() == 0 {
            self
        } else {
            self.after(events[0], cancelled).after_all(events.drop_first(), cancelled)
        }
    }

    /// Whether a run of reports is one a driver can make: as long as the loop
    /// runs, each report answers what the loop asked for just before.
    pub open spec fn is_driven_by(self, events: Seq<LoopEvent>, cancelled: bool) -> bool
        decreases events.len(),
    {
        events.len() == 0 || self.is_finished() || (self.pending.is_answered_by(events[0])
            && self.after(events[0], cancelled).is_driven_by(events.drop_first(), cancelled))
    }

    /// A loop for the given stream that has not been opened yet.
    pub fn new(kind: LoopKind, stream_index: usize) -> (decode_loop: DecodeLoop)
        ensures
            decode_loop == DecodeLoop::initial(kind, stream_index),
    {
        DecodeLoop {
            kind,
            stream_index,
            clock: PlaybackClock {
                interval_nanos: DEFAULT_FRAME_INTERVAL_NANOS,
                frames_published: 0,
            },
            flushing: false,
            pending: LoopAction::Open,
        }
    }

    /// The video loop of a session.
    pub fn video(stream_index: usize) -> (decode_loop: DecodeLoop)
        ensures
            decode_loop == DecodeLoop::initial(LoopKind::Video, stream_index),
    {
        DecodeLoop::new(LoopKind::Video, stream_index)
    }

    /// The audio loop of a session.
    pub fn audio(stream_index: usize) -> (decode_loop: DecodeLoop)
        ensures
            decode_loop == DecodeLoop::initial(LoopKind::Audio, stream_index),
    {
        DecodeLoop::new(LoopKind::Audio, stream_index)
    }

    /// What the driver is to do now.
    pub fn pending(&self) -> (action: LoopAction)
        ensures
            action == self.pending,
    {
        self.pending
    }

    /// How the loop ended, once it has.
    pub fn outcome(&self) -> (outcome: Option<LoopOutcome>)
        ensures
            outcome is Some <==> self.is_finished(),
            outcome is Some ==> self.pending == LoopAction::Finish(outcome->Some_0),
    {
        match self.pending {
            LoopAction::Finish(outcome) => Some(outcome),
            _ => None,
        }
    }

    /// Takes the driver's report and says what to do next.
    pub fn step(&mut self, event: LoopEvent, cancelled: bool) -> (action: LoopAction)
        ensures
            *final(self) == old(self).after(event, cancelled),
            action == final(self).pending,
    {
        match (self.pending, event) {
            (LoopAction::Open, LoopEvent::Opened { frame_rate }) => {
                self.clock = PlaybackClock::new(frame_rate);
                self.pending = LoopAction::ReadPacket;
            },
            (LoopAction::Open, LoopEvent::OpenFailed) => {
                self.pending = LoopAction::Finish(LoopOutcome::Failed(LoopFailure::Open));
            },
            (LoopAction::ReadPacket, LoopEvent::Packet { stream_index }) => {
                if cancelled {
                    self.pending = LoopAction::Finish(LoopOutcome::Cancelled);
                } else if stream_index == self.stream_index {
                    self.pending = LoopAction::SendPacket;
                }
            },
            (LoopAction::ReadPacket, LoopEvent::EndOfPackets) => {
                if cancelled {
                    self.pending = LoopAction::Finish(LoopOutcome::Cancelled);
                } else {
                    self.flushing = true;
                    self.pending = LoopAction::SendEof;
                }
            },
            (LoopAction::SendPacket, LoopEvent::PacketSent) => {
                self.pending = LoopAction::ReceiveFrame;
            },
            (LoopAction::SendPacket, LoopEvent::SendFailed) => {
                self.pending = LoopAction::Finish(LoopOutcome::Failed(LoopFailure::SendPacket));
            },
            (LoopAction::ReceiveFrame, LoopEvent::Frame) => {
                if cancelled {
                    self.pending = LoopAction::Finish(LoopOutcome::Cancelled);
                } else {
                    self.pending = LoopAction::DeliverFrame;
                }
            },
            (LoopAction::ReceiveFrame, LoopEvent::NoFrame) => {
                if self.flushing {
                    self.pending = LoopAction::Finish(LoopOutcome::Completed);
                } else {
                    self.pending = LoopAction::ReadPacket;
                }
            },
            (LoopAction::ReceiveFrame, LoopEvent::ReceiveFailed) => {
                self.pending = LoopAction::Finish(LoopOutcome::Failed(LoopFailure::ReceiveFrame));
            },
            (LoopAction::DeliverFrame, LoopEvent::Delivered { elapsed_nanos }) => {
                match self.kind {
                    LoopKind::Video => {
                        let wait: u64 = self.clock.frame_published(elapsed_nanos);
                        if wait > 0 {
                            self.pending = LoopAction::Sleep(wait);
                        } else {
                            self.pending = LoopAction::ReceiveFrame;
                        }
                    },
                    LoopKind::Audio => {
                        self.pending = LoopAction::ReceiveFrame;
                    },
                }
            },
            (LoopAction::DeliverFrame, LoopEvent::ConsumerGone) => {
                self.pending = LoopAction::Finish(LoopOutcome::ConsumerGone);
            },
            (LoopAction::DeliverFrame, LoopEvent::ConvertFailed) => {
                self.pending = LoopAction::Finish(LoopOutcome::Failed(LoopFailure::ConvertFrame));
            },
            (LoopAction::Sleep(_), LoopEvent::Slept) => {
                self.pending = LoopAction::ReceiveFrame;
            },
            (LoopAction::SendEof, LoopEvent::EofSent) => {
                self.pending = LoopAction::ReceiveFrame;
            },
            _ => {},
        }
        self.pending
    }
}

/// A loop that has ended stays ended, with the outcome it had: no report
/// changes it.
pub proof fn lemma_finished_is_final(decode_loop: DecodeLoop, event: LoopEvent, cancelled: bool)
    requires
        decode_loop.is_finished(),
    ensures
        decode_loop.after(event, cancelled) == decode_loop,
{
}

/// A set cancellation flag ends the loop at the next packet, at the end of the
/// packets and at the next decoded frame, and nothing is delivered once the
/// flag has been seen.
pub proof fn lemma_cancellation_is_observed(decode_loop: DecodeLoop, event: LoopEvent)
    requires
        decode_loop.checks_cancellation(event),
    ensures
        decode_loop.after(event, true).pending == LoopAction::Finish(LoopOutcome::Cancelled),
{
}

/// While the flag is set the loop starts no new delivery: it asks for a frame
/// to be delivered only if it was already waiting for that delivery.
pub proof fn lemma_no_delivery_after_cancellation(decode_loop: DecodeLoop, event: LoopEvent)
    ensures
        decode_loop.after(event, true).pending == LoopAction::DeliverFrame ==> decode_loop.pending
            == LoopAction::DeliverFrame,
{
}

proof fn lemma_finished_stays_finished(
    decode_loop: DecodeLoop,
    events: Seq<LoopEvent>,
    cancelled: bool,
)
    requires
        decode_loop.is_finished(),
    ensures
        decode_loop.after_all(events, cancelled) == decode_loop,
    decreases events.len(),
{
    if events.len() > 0 {
        lemma_finished_stays_finished(decode_loop, events.drop_first(), cancelled);
    }
}

/// Cancellation is prompt. From any point of a running loop, with the flag
/// set, four reports are enough to end it: at worst the delivery under way,
/// the wait for that frame's deadline, one more question to the decoder and
/// one more packet read. However many frames are still undecoded plays no
/// part.
pub proof fn lemma_cancellation_is_prompt(decode_loop: DecodeLoop, events: Seq<LoopEvent>)
    requires
        events.len() >= 4,
        decode_loop.is_driven_by(events, true),
    ensures
        decode_loop.after_all(events, true).is_finished(),
{
    let first = decode_loop.after(events[0], true);
    let rest = events.drop_first();
    let second = first.after(rest[0], true);
    let rest = rest.drop_first();
    let third = second.after(rest[0], true);
    let rest = rest.drop_first();
    let fourth = third.after(rest[0], true);
    let rest = rest.drop_first();
    reveal_with_fuel(DecodeLoop::after_all, 5);
    reveal_with_fuel(DecodeLoop::is_driven_by, 5);
    assert(decode_loop.after_all(events, true) == fourth.after_all(rest, true));
    assert(fourth.is_finished());
    lemma_finished_stays_finished(fourth, rest, true);
}

/// The video loop waits after a delivery exactly as long as its clock says,
/// and not at all when the frame's deadline has passed. The audio loop never
/// waits.
pub proof fn lemma_delivery_is_paced(decode_loop: DecodeLoop, elapsed_nanos: u64, cancelled: bool)
    requires
        decode_loop.pending == LoopAction::DeliverFrame,
    ensures
        ({
            let next = decode_loop.after(LoopEvent::Delivered { elapsed_nanos }, cancelled);
            let wait = decode_loop.clock.advanced().wait_nanos(elapsed_nanos);
            match decode_loop.kind {
                LoopKind::Video => {
                    &&& next.clock == decode_loop.clock.advanced()
                    &&& wait > 0 ==> next.pending == LoopAction::Sleep(wait as u64)
                    &&& wait == 0 ==> next.pending == LoopAction::ReceiveFrame
                },
                LoopKind::Audio => next == decode_loop.asked(LoopAction::ReceiveFrame),
            }
        }),
{
}

/// A loop ends as completed only when, after the packets have ended and the
/// decoder was told so, the decoder has no frame left: every frame of the
/// stream was delivered before.
pub proof fn lemma_completion_follows_drain(
    decode_loop: DecodeLoop,
    event: LoopEvent,
    cancelled: bool,
)
    requires
        !decode_loop.is_finished(),
        decode_loop.after(event, cancelled).pending == LoopAction::Finish(LoopOutcome::Completed),
    ensures
        decode_loop.flushing,
        decode_loop.pending == LoopAction::ReceiveFrame,
        event == LoopEvent::NoFrame,
{
}

/// A new loop is well formed, and no report makes a well-formed loop ill
/// formed.
pub proof fn lemma_well_formed_is_kept(decode_loop: DecodeLoop, event: LoopEvent, cancelled: bool)
    ensures
        DecodeLoop::initial(decode_loop.kind, decode_loop.stream_index).is_well_formed(),
        decode_loop.is_well_formed() ==> decode_loop.after(event, cancelled).is_well_formed(),
{
}

/// The decoder is drained only after the packets have ended: a loop starts to
/// flush on no other report than the end of the packets, and once flushing it
/// keeps flushing and reads no further packet.
pub proof fn lemma_flush_follows_end_of_packets(
    decode_loop: DecodeLoop,
    event: LoopEvent,
    cancelled: bool,
)
    requires
        decode_loop.is_well_formed(),
    ensures
        !decode_loop.flushing && decode_loop.after(event, cancelled).flushing ==> {
            &&& decode_loop.pending == LoopAction::ReadPacket
            &&& event == LoopEvent::EndOfPackets
            &&& !cancelled
        },
        decode_loop.flushing ==> decode_loop.after(event, cancelled).flushing,
        decode_loop.flushing ==> decode_loop.after(event, cancelled).pending
            != LoopAction::ReadPacket,
{
}

} // verus!
