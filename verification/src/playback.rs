//! The decisions of the decoding threads.  The video and the audio thread
//! each run a loop that alternates work in the media library with reading
//! the commands of the window; the functions here take the commands and
//! say what the loop does next.  Time values (seek targets, the speed)
//! are carried unchanged, so the types are generic over them.

use vstd::prelude::*;

verus! {

/// How many audio samples may wait in the output buffer before the audio
/// thread stops decoding (two seconds of stereo at 44.1 kHz).
pub const AUDIO_BUFFER_LIMIT: usize = 176400;

/// The longest single sleep, in milliseconds, while the video waits for
/// the audio clock.
pub const SYNC_WAIT_CHUNK_MS: i64 = 20;

/// The kind of an elementary stream in a media file.
#[derive(PartialEq, Eq, Structural, Clone, Copy, Debug)]
pub enum MediaKind {
    Video,
    Audio,
    Other,
}

/// The first stream of the wanted kind, if there is one.
pub fn select_stream(kinds: &Vec<MediaKind>, wanted: MediaKind) -> (index: Option<usize>)
    ensures
        index matches Some(i) ==> i < kinds@.len() && kinds@[i as int] == wanted && forall|k: int|
            0 <= k < i ==> kinds@[k] != wanted,
        index is None ==> forall|k: int| 0 <= k < kinds@.len() ==> kinds@[k] != wanted,
{
    let n = kinds.len();
    let mut i: usize = 0;
    while i < n
        invariant
            n == kinds@.len(),
            i <= n,
            forall|k: int| 0 <= k < i ==> kinds@[k] != wanted,
        decreases n - i,
    {
        if kinds[i] == wanted {
            return Some(i);
        }
        i = i + 1;
    }
    None
}

/// The streams that are not of the kind being played, in order; the audio
/// thread tells the demuxer to drop their packets.
pub fn streams_to_discard(kinds: &Vec<MediaKind>, kept: MediaKind) -> (discard: Vec<usize>)
    ensures
        forall|j: int| 0 <= j < discard@.len() ==> discard@[j] < kinds@.len() && kinds@[discard@[j] as int] != kept,
        forall|k: int| 0 <= k < kinds@.len() && kinds@[k] != kept ==> discard@.contains(k as usize),
        forall|a: int, b: int| 0 <= a < b < discard@.len() ==> discard@[a] < discard@[b],
{
    let n = kinds.len();
    let mut out: Vec<usize> = Vec::new();
    let mut i: usize = 0;
    while i < n
        invariant
            n == kinds@.len(),
            i <= n,
            forall|j: int| 0 <= j < out@.len() ==> out@[j] < i && kinds@[out@[j] as int] != kept,
            forall|k: int| 0 <= k < i && kinds@[k] != kept ==> out@.contains(k as usize),
            forall|a: int, b: int| 0 <= a < b < out@.len() ==> out@[a] < out@[b],
        decreases n - i,
    {
        if kinds[i] != kept {
            let ghost before = out@;
            out.push(i);
            assert forall|k: int| 0 <= k < i + 1 && kinds@[k] != kept implies out@.contains(k as usize) by {
                if k < i {
                    let m = choose|m: int| 0 <= m < before.len() && before[m] == k as usize;
                    assert(out@[m] == k as usize);
                } else {
                    assert(out@[out@.len() - 1] == k as usize);
                }
            }
        }
        i = i + 1;
    }
    out
}

/// Whether a frame timestamp is usable: libav marks a missing one with the
/// smallest or the largest 64-bit value.
pub fn pts_is_valid(pts: i64) -> (valid: bool)
    ensures
        valid == (pts != i64::MIN && pts != i64::MAX),
{
    pts != i64::MIN && pts != i64::MAX
}

/// The next sleep while the video waits for the audio clock: at most
/// `SYNC_WAIT_CHUNK_MS`, so that commands are read again soon.
pub fn sync_wait_chunk(remaining_ms: i64) -> (chunk: i64)
    ensures
        chunk == (if remaining_ms > SYNC_WAIT_CHUNK_MS { SYNC_WAIT_CHUNK_MS } else { remaining_ms }),
{
    if remaining_ms > SYNC_WAIT_CHUNK_MS {
        SYNC_WAIT_CHUNK_MS
    } else {
        remaining_ms
    }
}

/// What a thread whose file could not be played does next.
#[derive(PartialEq, Eq, Debug)]
pub enum WaitStep {
    /// The player is quitting: end the thread.
    Stop,
    /// A new file was chosen: try to open it.
    Open(String),
    /// Nothing yet: sleep and ask again.
    Sleep,
}

/// While a file cannot be played, the thread waits for the player to quit
/// or for another file; a file that is handed over is taken out of the
/// command.
pub fn wait_for_file(quit: bool, load_file: &mut Option<String>) -> (step: WaitStep)
    ensures
        quit ==> step == WaitStep::Stop && *final(load_file) == *old(load_file),
        !quit && *old(load_file) is Some ==> step == WaitStep::Open((*old(load_file))->0)
            && *final(load_file) is None,
        !quit && *old(load_file) is None ==> step == WaitStep::Sleep && *final(load_file) is None,
{
    if quit {
        return WaitStep::Stop;
    }
    match load_file.take() {
        Some(f) => WaitStep::Open(f),
        None => WaitStep::Sleep,
    }
}

/// The commands that the window gives the video thread.
pub struct DecoderCommand<T, S> {
    /// A position to seek to, taken by the thread when it acts on it.
    pub seek_target: Option<T>,
    pub playing: bool,
    pub quit: bool,
    /// The playback speed, used to pace the video against the audio clock.
    pub speed: S,
    /// A new file to play, taken by the thread when it switches to it.
    pub load_file: Option<String>,
}

/// What the video thread does before reading the next packet.
#[derive(PartialEq, Eq, Debug)]
pub enum VideoStep<T> {
    /// The player is quitting: close the file and end the thread.
    Stop,
    /// Switch to this file: close the current one and open it.
    Open(String),
    /// Paused: remember the seek (if any), report "not playing", sleep.
    Pause { seek: Option<T> },
    /// Playing: perform the seek (if any), then decode the next packet.
    Play { seek: Option<T> },
}

impl<T, S> DecoderCommand<T, S> {
    /// The commands at start-up: playing, nothing pending, at `speed`.
    pub fn new(speed: S) -> (cmd: Self)
        ensures
            cmd.seek_target is None,
            cmd.playing,
            !cmd.quit,
            cmd.speed == speed,
            cmd.load_file is None,
    {
        DecoderCommand { seek_target: None, playing: true, quit: false, speed, load_file: None }
    }

    /// Whether a sleep of the video thread must end early: the player is
    /// quitting, or a file or a seek is waiting.
    pub fn interrupts_wait(&self) -> (b: bool)
        ensures
            b == (self.quit || self.load_file is Some || self.seek_target is Some),
    {
        self.quit || self.load_file.is_some() || self.seek_target.is_some()
    }

    /// Reads the commands before a packet: quitting comes first, then a new
    /// file (taken out of the command), then the seek target (taken out of
    /// the command) together with the play state.
    pub fn next_video_step(&mut self) -> (step: VideoStep<T>)
        ensures
            old(self).quit ==> step == VideoStep::<T>::Stop && final(self).load_file == old(
                self,
            ).load_file && final(self).seek_target == old(self).seek_target,
            !old(self).quit && old(self).load_file is Some ==> step == VideoStep::<T>::Open(
                old(self).load_file->0,
            ) && final(self).load_file is None && final(self).seek_target == old(
                self,
            ).seek_target,
            !old(self).quit && old(self).load_file is None ==> final(self).load_file is None
                && final(self).seek_target is None && step == (if old(self).playing {
                VideoStep::Play { seek: old(self).seek_target }
            } else {
                VideoStep::Pause { seek: old(self).seek_target }
            }),
            final(self).quit == old(self).quit,
            final(self).playing == old(self).playing,
            final(self).speed == old(self).speed,
    {
        if self.quit {
            return VideoStep::Stop;
        }
        if let Some(f) = self.load_file.take() {
            return VideoStep::Open(f);
        }
        let seek = self.seek_target.take();
        if self.playing {
            VideoStep::Play { seek }
        } else {
            VideoStep::Pause { seek }
        }
    }
}

/// What the audio thread does before reading the next packet.
#[derive(PartialEq, Eq, Debug)]
pub enum AudioStep<T> {
    /// The player is quitting: close the file and end the thread.
    Stop,
    /// Switch to this file: clear the buffered samples, close the current
    /// file and open this one.
    Open(String),
    /// Seek here: flush the decoder, clear the buffered samples, set the
    /// audio clock to the target and seek the file.
    Seek(T),
    /// Paused: sleep.
    Pause,
    /// Enough samples are buffered: sleep.
    Throttle,
    /// Decode the next packet.
    Decode,
}

/// Reads the audio commands before a packet: quitting, then a new file,
/// then a seek (both taken out of the command), then pausing, then the
/// limit on buffered samples.
pub fn next_audio_step<T>(
    quit: bool,
    load_file: &mut Option<String>,
    seek_to: &mut Option<T>,
    playing: bool,
    buffered: usize,
) -> (step: AudioStep<T>)
    ensures
        quit ==> step == AudioStep::<T>::Stop && *final(load_file) == *old(load_file)
            && *final(seek_to) == *old(seek_to),
        !quit && *old(load_file) is Some ==> step == AudioStep::<T>::Open((*old(load_file))->0)
            && *final(load_file) is None && *final(seek_to) == *old(seek_to),
        !quit && *old(load_file) is None && *old(seek_to) is Some ==> step == AudioStep::Seek(
            (*old(seek_to))->0,
        ) && *final(load_file) is None && *final(seek_to) is None,
        !quit && *old(load_file) is None && *old(seek_to) is None ==> *final(load_file) is None
            && *final(seek_to) is None && step == (if !playing {
            AudioStep::<T>::Pause
        } else if buffered >= AUDIO_BUFFER_LIMIT {
            AudioStep::<T>::Throttle
        } else {
            AudioStep::<T>::Decode
        }),
        step == AudioStep::<T>::Decode ==> buffered < AUDIO_BUFFER_LIMIT && playing && !quit,
{
    if quit {
        return AudioStep::Stop;
    }
    if let Some(f) = load_file.take() {
        return AudioStep::Open(f);
    }
    if let Some(t) = seek_to.take() {
        return AudioStep::Seek(t);
    }
    if !playing {
        AudioStep::Pause
    } else if buffered >= AUDIO_BUFFER_LIMIT {
        AudioStep::Throttle
    } else {
        AudioStep::Decode
    }
}

} // verus!
