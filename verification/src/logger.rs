//! The in-memory log shown in the log overlay: the most recent messages,
//! oldest first, at most `MAX_LOG_LINES` of them.

use vstd::prelude::*;
use crate::text::{trimmed, trim, push_str};

verus! {

/// How many messages the log keeps.
pub const MAX_LOG_LINES: usize = 100;

/// The log level of libav's informational messages (`AV_LOG_INFO`); more
/// verbose levels have larger numbers.
pub const FFMPEG_LOG_INFO: i32 = 32;

/// The last `MAX_LOG_LINES` entries of `lines` (all of them if there are
/// no more than that).
pub open spec fn last_lines(lines: Seq<Seq<char>>) -> Seq<Seq<char>> {
    if lines.len() > MAX_LOG_LINES {
        lines.subrange(lines.len() - MAX_LOG_LINES, lines.len() as int)
    } else {
        lines
    }
}

/// Pushing onto the kept messages keeps the same messages as pushing onto
/// all messages ever logged: the log always holds the `MAX_LOG_LINES` most
/// recent messages, oldest first.
pub proof fn lemma_log_keeps_most_recent(all: Seq<Seq<char>>, msg: Seq<char>)
    ensures
        last_lines(last_lines(all).push(msg)) == last_lines(all.push(msg)),
        last_lines(all).len() <= MAX_LOG_LINES,
{
    if all.len() > MAX_LOG_LINES {
        let kept = last_lines(all);
        assert(last_lines(kept.push(msg)) =~= last_lines(all.push(msg)));
    } else {
        assert(last_lines(all) =~= all);
    }
}

/// A bounded log: it keeps the most recent messages in the order in which
/// they were logged.
pub struct LogBuffer {
    lines: Vec<String>,
}

impl View for LogBuffer {
    type V = Seq<Seq<char>>;

    closed spec fn view(&self) -> Seq<Seq<char>> {
        self.lines@.map_values(|l: String| l@)
    }
}

impl LogBuffer {
    #[verifier::type_invariant]
    spec fn bounded(self) -> bool {
        self.lines.len() <= MAX_LOG_LINES
    }

    /// An empty log.
    pub fn new() -> (log: LogBuffer)
        ensures
            log@ == Seq::<Seq<char>>::empty(),
    {
        let log = LogBuffer { lines: Vec::new() };
        assert(log@ =~= Seq::<Seq<char>>::empty());
        log
    }

    /// The number of messages held.
    pub fn len(&self) -> (n: usize)
        ensures
            n == self@.len(),
            n <= MAX_LOG_LINES,
    {
        proof {
            use_type_invariant(self);
        }
        self.lines.len()
    }

    /// The message at `i`, oldest first.
    pub fn line(&self, i: usize) -> (l: &String)
        requires
            i < self@.len(),
        ensures
            l@ == self@[i as int],
    {
        &self.lines[i]
    }

    /// Appends a message; when the log is full the oldest one is dropped.
    pub fn push(&mut self, msg: String)
        ensures
            final(self)@ == last_lines(old(self)@.push(msg@)),
    {
        proof {
            use_type_invariant(&*self);
        }
        let ghost old_lines = self.lines@;
        let mut lines: Vec<String> = Vec::new();
        std::mem::swap(&mut lines, &mut self.lines);
        if lines.len() >= MAX_LOG_LINES {
            lines.remove(0);
        }
        lines.push(msg);
        self.lines = lines;
        proof {
            let new_view = old_lines.map_values(|l: String| l@).push(msg@);
            assert(self@ =~= last_lines(new_view));
        }
    }
}

/// Hands out the shared log held in `slot`: the log that is there, or a
/// new empty log put there on first use.
pub fn global_logs(slot: &mut Option<LogBuffer>) -> (log: &mut LogBuffer)
    ensures
        log@ == (match *old(slot) {
            Some(l) => l@,
            None => Seq::<Seq<char>>::empty(),
        }),
        *final(slot) == Some(*final(log)),
{
    slot.get_or_insert(LogBuffer::new())
}

/// The log line for a message of libav: `None` for messages more verbose
/// than `FFMPEG_LOG_INFO` and for messages that are only whitespace, else
/// the trimmed message after the prefix `[ffmpeg] `.
pub open spec fn ffmpeg_entry(level: int, text: Seq<char>) -> Option<Seq<char>> {
    if level > FFMPEG_LOG_INFO || trimmed(text).len() == 0 {
        None
    } else {
        Some("[ffmpeg] "@ + trimmed(text))
    }
}

/// Decides what a libav log message adds to the log.
pub fn ffmpeg_log_entry(level: i32, text: &str) -> (entry: Option<String>)
    ensures
        entry matches Some(e) ==> ffmpeg_entry(level as int, text@) == Some(e@),
        entry is None ==> ffmpeg_entry(level as int, text@) is None,
{
    if level > FFMPEG_LOG_INFO {
        return None;
    }
    let t = trim(text);
    if t.unicode_len() == 0 {
        return None;
    }
    let mut s = String::new();
    push_str(&mut s, "[ffmpeg] ");
    push_str(&mut s, t);
    Some(s)
}

} // verus!
