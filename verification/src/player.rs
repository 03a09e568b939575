//! The player controller: one playback session and what its pollers see.
//!
//! A session is created for a local file, started once the container was
//! probed, and stopped by setting its cancellation flag. The display polls two
//! things: whether the video loop has ended, and the first fatal error. Audio
//! is a soft dependency: a file without audio, an audio device that cannot be
//! set up and an audio loop that fails all leave video playback and both poll
//! points untouched.

use crate::decode_loop::{DecodeLoop, LoopAction, LoopFailure, LoopKind, LoopOutcome};
use crate::text::has_prefix;
use vstd::prelude::*;

verus! {

/// The scheme that may stand in front of a local path.
pub open spec fn file_scheme() -> Seq<char> {
    seq!['f', 'i', 'l', 'e', ':', '/', '/']
}

/// The path a URI names: the URI without any `file://` in front of it.
pub open spec fn without_scheme(uri: Seq<char>) -> Seq<char>
    decreases uri.len(),
{
    if has_prefix(uri, file_scheme()) {
        without_scheme(uri.subrange(file_scheme().len() as int, uri.len() as int))
    } else {
        uri
    }
}

fn scheme_at(uri: &str, start: usize, len: usize) -> (found: bool)
    requires
        start <= len,
        len == uri@.len(),
    ensures
        found == has_prefix(uri@.subrange(start as int, len as int), file_scheme()),
{
    let ghost rest = uri@.subrange(start as int, len as int);
    if len - start < 7 {
        return false;
    }
    let found: bool = uri.get_char(start) == 'f' && uri.get_char(start + 1) == 'i' && uri.get_char(
        start + 2,
    ) == 'l' && uri.get_char(start + 3) == 'e' && uri.get_char(start + 4) == ':' && uri.get_char(
        start + 5,
    ) == '/' && uri.get_char(start + 6) == '/';
    proof {
        let head = rest.subrange(0, 7);
        if found {
            assert(head =~= file_scheme());
        } else {
            assert(head[0] == rest[0] && head[1] == rest[1] && head[2] == rest[2] && head[3]
                == rest[3] && head[4] == rest[4] && head[5] == rest[5] && head[6] == rest[6]);
            assert(file_scheme()[0] == 'f' && file_scheme()[1] == 'i' && file_scheme()[2] == 'l'
                && file_scheme()[3] == 'e' && file_scheme()[4] == ':' && file_scheme()[5] == '/'
                && file_scheme()[6] == '/');
        }
    }
    found
}

/// Turns the reference a caller gives, a bare path or a path behind
/// `file://`, into the path of the file.
pub fn resolve_path(uri: &str) -> (path: String)
    ensures
        path@ == without_scheme(uri@),
{
    let len: usize = uri.unicode_len();
    let mut start: usize = 0;
    assert(uri@.subrange(0, len as int) =~= uri@);
    while scheme_at(uri, start, len)
        invariant
            start <= len,
            len == uri@.len(),
            without_scheme(uri@) == without_scheme(uri@.subrange(start as int, len as int)),
        decreases len - start,
    {
        proof {
            let rest = uri@.subrange(start as int, len as int);
            assert(rest.subrange(7, rest.len() as int) =~= uri@.subrange(
                start + 7,
                len as int,
            ));
        }
        start = start + 7;
    }
    uri.substring_char(start, len).to_owned()
}

/// Why a session could not be created or started.
#[derive(Debug)]
pub enum PlayerError {
    /// No file exists at the path the URI names.
    FileNotFound { path: String },
    /// The container could not be opened.
    OpenFailed { detail: String },
    /// The container holds no video stream.
    NoVideoStream,
}

impl PlayerError {
    /// The message shown to the operator.
    pub open spec fn text(self) -> Seq<char> {
        match self {
            PlayerError::FileNotFound { path } => "Video file not found: "@ + path@,
            PlayerError::OpenFailed { detail } => detail@,
            PlayerError::NoVideoStream => "No video stream found"@,
        }
    }

    /// The message shown to the operator.
    pub fn message(&self) -> (message: String)
        ensures
            message@ == self.text(),
    {
        match self {
            PlayerError::FileNotFound { path } => String::from_str("Video file not found: ").concat(
                path.as_str(),
            ),
            PlayerError::OpenFailed { detail } => detail.clone(),
            PlayerError::NoVideoStream => String::from_str("No video stream found"),
        }
    }
}

/// The text recorded for a failed loop: what the decoder said, and for a
/// refused packet a note of the step before it.
pub open spec fn failure_text(failure: LoopFailure, detail: Seq<char>) -> Seq<char> {
    match failure {
        LoopFailure::SendPacket => "Failed to send packet: "@ + detail,
        _ => detail,
    }
}

/// Composes the text recorded for a failed loop.
pub fn failure_message(failure: LoopFailure, detail: &str) -> (message: String)
    ensures
        message@ == failure_text(failure, detail@),
{
    match failure {
        LoopFailure::SendPacket => String::from_str("Failed to send packet: ").concat(detail),
        _ => String::from_str(detail),
    }
}

/// What probing the container found.
#[derive(Debug)]
pub enum ContainerProbe {
    /// The container could not be opened.
    Unreadable { detail: String },
    /// The container is open; these are its best video and audio streams.
    Streams { video: Option<usize>, audio: Option<usize> },
}

/// Whether the audio device is worth setting up: only for a container that
/// will play, one with a video stream, and only if it has an audio stream.
pub fn wants_audio_output(probe: &ContainerProbe) -> (wanted: bool)
    ensures
        wanted == (probe is Streams && probe->video is Some && probe->audio is Some),
{
    match probe {
        ContainerProbe::Streams { video: Some(_), audio: Some(_) } => true,
        _ => false,
    }
}

/// Which loops a started session runs.
#[derive(Clone, Copy, Debug, PartialEq, Eq, Structural)]
pub struct PlaybackPlan {
    /// The stream of the video loop, which always runs.
    pub video_stream: usize,
    /// The stream of the audio loop, if one runs.
    pub audio_stream: Option<usize>,
}

/// The plan for a container with the given streams: video always, audio only
/// when the container has an audio stream and the output device was set up.
pub open spec fn planned(video: usize, audio: Option<usize>, audio_output_ready: bool)
    -> PlaybackPlan {
    PlaybackPlan {
        video_stream: video,
        audio_stream: if audio_output_ready {
            audio
        } else {
            None
        },
    }
}

/// What a session is to its observers.
pub struct PlayerView {
    /// The path of the file.
    pub video_path: Seq<char>,
    /// The cancellation flag.
    pub cancelled: bool,
    /// Whether the video loop has ended.
    pub eos: bool,
    /// The first fatal error.
    pub error: Option<Seq<char>>,
    /// The loops that were started.
    pub plan: Option<PlaybackPlan>,
}

impl PlayerView {
    /// A fresh session for the file at `video_path`.
    pub open spec fn created(video_path: Seq<char>) -> PlayerView {
        PlayerView { video_path, cancelled: false, eos: false, error: None, plan: None }
    }

    /// The session after its loops were started.
    pub open spec fn started(self, plan: PlaybackPlan) -> PlayerView {
        PlayerView { plan: Some(plan), ..self }
    }

    /// The session after a stop request.
    pub open spec fn stopped(self) -> PlayerView {
        PlayerView { cancelled: true, ..self }
    }

    /// The session after a loop reported its state. Only a video loop that
    /// has ended counts: it marks the end of the stream, and if it failed and
    /// no error was recorded before, its failure becomes the session's error.
    pub open spec fn after_loop(self, decode_loop: DecodeLoop, detail: Seq<char>) -> PlayerView {
        if decode_loop.kind == LoopKind::Video && decode_loop.is_finished() {
            PlayerView {
                eos: true,
                error: match (self.error, decode_loop.pending) {
                    (None, LoopAction::Finish(LoopOutcome::Failed(failure))) => Some(
                        failure_text(failure, detail),
                    ),
                    _ => self.error,
                },
                ..self
            }
        } else {
            self
        }
    }
}

/// One playback session.
#[derive(Debug)]
pub struct VideoPlayer {
    video_path: String,
    cancelled: bool,
    eos: bool,
    error: Option<String>,
    plan: Option<PlaybackPlan>,
}

impl View for VideoPlayer {
    type V = PlayerView;

    closed spec fn view(&self) -> PlayerView {
        PlayerView {
            video_path: self.video_path@,
            cancelled: self.cancelled,
            eos: self.eos,
            error: match self.error {
                Some(text) => Some(text@),
                None => None,
            },
            plan: self.plan,
        }
    }
}

impl VideoPlayer {
    /// Creates the session for a URI. `file_exists` says whether a file
    /// exists at `resolve_path(uri)`; without one there is no session. No
    /// decoder state is opened yet.
    pub fn new(uri: &str, file_exists: bool) -> (result: Result<VideoPlayer, PlayerError>)
        ensures
            file_exists ==> result is Ok && result->Ok_0@ == PlayerView::created(
                without_scheme(uri@),
            ),
            !file_exists ==> result is Err && result->Err_0 is FileNotFound
                && result->Err_0->path@ == without_scheme(uri@),
    {
        let video_path: String = resolve_path(uri);
        if !file_exists {
            return Err(PlayerError::FileNotFound { path: video_path });
        }
        Ok(VideoPlayer { video_path, cancelled: false, eos: false, error: None, plan: None })
    }

    /// Starts the session from what probing the container found, and says
    /// which loops to run. `audio_output_ready` says whether the audio device
    /// was set up; it is looked at only when the container has an audio
    /// stream. A container that cannot be read or has no video stream starts
    /// nothing.
    pub fn play(&mut self, probe: ContainerProbe, audio_output_ready: bool) -> (result: Result<
        PlaybackPlan,
        PlayerError,
    >)
        ensures
            match probe {
                ContainerProbe::Unreadable { detail } => {
                    &&& result is Err
                    &&& result->Err_0 is OpenFailed
                    &&& result->Err_0->detail@ == detail@
                    &&& final(self)@ == old(self)@
                },
                ContainerProbe::Streams { video: None, audio } => {
                    &&& result is Err
                    &&& result->Err_0 is NoVideoStream
                    &&& final(self)@ == old(self)@
                },
                ContainerProbe::Streams { video: Some(video), audio } => {
                    &&& result is Ok
                    &&& result->Ok_0 == planned(video, audio, audio_output_ready)
                    &&& final(self)@ == old(self)@.started(
                        planned(video, audio, audio_output_ready),
                    )
                },
            },
    {
        match probe {
            ContainerProbe::Unreadable { detail } => Err(PlayerError::OpenFailed { detail }),
            ContainerProbe::Streams { video: None, audio: _ } => Err(PlayerError::NoVideoStream),
            ContainerProbe::Streams { video: Some(video), audio } => {
                let plan = PlaybackPlan {
                    video_stream: video,
                    audio_stream: if audio_output_ready {
                        audio
                    } else {
                        None
                    },
                };
                self.plan = Some(plan);
                Ok(plan)
            },
        }
    }

    /// Asks the loops to stop by setting the cancellation flag. It waits for
    /// nothing and always succeeds; asking twice is the same as asking once.
    pub fn stop(&mut self) -> (result: Result<(), PlayerError>)
        ensures
            result is Ok,
            final(self)@ == old(self)@.stopped(),
    {
        self.cancelled = true;
        Ok(())
    }

    /// Whether the video loop has ended, for whatever reason.
    pub fn is_eos(&self) -> (eos: bool)
        ensures
            eos == self@.eos,
    {
        self.eos
    }

    /// The first fatal error, if there was one.
    pub fn get_error(&self) -> (error: Option<String>)
        ensures
            error is Some <==> self@.error is Some,
            error is Some ==> Some(error->Some_0@) == self@.error,
    {
        match &self.error {
            Some(text) => Some(text.clone()),
            None => None,
        }
    }

    /// The cancellation flag, as the loops read it.
    pub fn is_cancelled(&self) -> (cancelled: bool)
        ensures
            cancelled == self@.cancelled,
    {
        self.cancelled
    }

    /// The path of the file.
    pub fn video_path(&self) -> (path: &str)
        ensures
            path@ == self@.video_path,
    {
        self.video_path.as_str()
    }

    /// The loops that were started, if any.
    pub fn plan(&self) -> (plan: Option<PlaybackPlan>)
        ensures
            plan == self@.plan,
    {
        self.plan
    }

    /// Takes note of a loop's state; `detail` is what the decoder said if the
    /// loop failed. A video loop that has ended marks the end of the stream
    /// and, if it failed, records its failure unless an error is recorded
    /// already. A loop that still runs, and an audio loop in any state, change
    /// nothing.
    pub fn loop_finished(&mut self, decode_loop: &DecodeLoop, detail: &str)
        ensures
            final(self)@ == old(self)@.after_loop(*decode_loop, detail@),
    {
        match decode_loop.kind {
            LoopKind::Video => {
                match decode_loop.pending {
                    LoopAction::Finish(outcome) => {
                        self.eos = true;
                        match outcome {
                            LoopOutcome::Failed(failure) => {
                                if self.error.is_none() {
                                    self.error = Some(failure_message(failure, detail));
                                }
                            },
                            _ => {},
                        }
                    },
                    _ => {},
                }
            },
            LoopKind::Audio => {},
        }
    }
}

/// The end of the stream is reported only once the video loop has ended, and
/// from then on for the life of the session: no operation clears it, and the
/// only one that sets it is the report of a finished video loop.
pub proof fn lemma_eos_is_monotonic(
    player: PlayerView,
    plan: PlaybackPlan,
    decode_loop: DecodeLoop,
    detail: Seq<char>,
)
    ensures
        player.started(plan).eos == player.eos,
        player.stopped().eos == player.eos,
        player.eos ==> player.after_loop(decode_loop, detail).eos,
        !player.eos && player.after_loop(decode_loop, detail).eos ==> decode_loop.kind
            == LoopKind::Video && decode_loop.is_finished(),
        !PlayerView::created(player.video_path).eos,
{
}

/// The cancellation flag is clear in a fresh session, set by a stop request,
/// and never cleared again.
pub proof fn lemma_cancellation_is_kept(
    player: PlayerView,
    plan: PlaybackPlan,
    decode_loop: DecodeLoop,
    detail: Seq<char>,
)
    ensures
        !PlayerView::created(player.video_path).cancelled,
        player.stopped().cancelled,
        player.stopped().stopped() == player.stopped(),
        player.cancelled ==> player.started(plan).cancelled && player.after_loop(
            decode_loop,
            detail,
        ).cancelled,
{
}

/// The first error stays: once an error is recorded no operation replaces or
/// removes it. An error is recorded only together with the end of the stream.
pub proof fn lemma_first_error_wins(
    player: PlayerView,
    plan: PlaybackPlan,
    decode_loop: DecodeLoop,
    detail: Seq<char>,
)
    ensures
        player.started(plan).error == player.error,
        player.stopped().error == player.error,
        player.error is Some ==> player.after_loop(decode_loop, detail).error == player.error,
        player.error is None && player.after_loop(decode_loop, detail).error is Some
            ==> player.after_loop(decode_loop, detail).eos && decode_loop.pending is Finish
            && decode_loop.pending->Finish_0 is Failed,
{
}

/// Audio is a soft dependency. A container without an audio stream, or with
/// one but without a working output device, still starts, with a plan that
/// runs the video loop alone; and whatever becomes of an audio loop, the
/// session reports neither an error nor the end of the stream for it.
pub proof fn lemma_audio_is_optional(
    video_path: Seq<char>,
    video: usize,
    audio: Option<usize>,
    audio_output_ready: bool,
    audio_loop: DecodeLoop,
    detail: Seq<char>,
)
    requires
        audio_loop.kind == LoopKind::Audio,
    ensures
        planned(video, None, audio_output_ready).video_stream == video,
        planned(video, None, audio_output_ready).audio_stream is None,
        planned(video, audio, false).audio_stream is None,
        planned(video, audio, true).audio_stream == audio,
        PlayerView::created(video_path).started(
            planned(video, audio, audio_output_ready),
        ).error is None,
        PlayerView::created(video_path).started(planned(video, audio, audio_output_ready)).after_loop(
            audio_loop,
            detail,
        ) == PlayerView::created(video_path).started(planned(video, audio, audio_output_ready)),
{
}

} // verus!
