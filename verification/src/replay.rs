//! Deterministic replay of a captured audit log.
//!
//! A captured log replays on a schedule: each line with an extractable
//! `msg=audit(` timestamp gets a millisecond offset relative to the first
//! such line, and a poll-style engine hands lines out once their due time
//! has passed — immediately, at the original relative timing, or at a fixed
//! interval. The caller owns the clock and the waiting; the engine only
//! decides what is due.

use crate::text::{
    find_first, first_match, lemma_first_match, lemma_scan_len, parse_u64, scan, scan_len,
    spec_parse_u64,
};
use vstd::prelude::*;
use vstd::string::*;

verus! {

/// Produces raw byte lines: a live kernel socket, or a timed replay of a
/// captured log. `start` begins production and must not block;
/// `read_message` polls without blocking, `None` meaning "nothing ready
/// yet", not end of stream.
pub trait AuditSource {
    fn read_message(&self) -> Option<Vec<u8>>;

    fn start(&mut self);
}

/// How a captured log is replayed.
#[derive(Debug, Clone, Copy, PartialEq, Eq, Structural)]
pub enum ReplayTiming {
    /// No delays.
    Fast,
    /// Original relative timing, reconstructed from embedded timestamps.
    Original,
    /// A fixed interval between messages, in milliseconds.
    Burst(u64),
}

/// What the replay engine asks of its driver at one poll.
#[derive(Debug)]
pub enum ReplayStep {
    /// This line is due: hand it on.
    Deliver(String),
    /// Nothing due; this many milliseconds remain until the next line.
    Sleep(u64),
    /// Every line has been delivered.
    Finished,
}

/// The seconds part of the first `msg=audit(<seconds>.<...>` token of a
/// line, when the digits directly after the marker run to a dot and fit a
/// `u64`.
pub open spec fn spec_timestamp(s: Seq<char>) -> Option<u64> {
    match first_match(s, "msg=audit("@) {
        None => None,
        Some(i) => {
            let after = s.skip(i + ("msg=audit("@).len());
            let n = scan_len(after, '.', '.');
            if n < after.len() {
                spec_parse_u64(after.take(n as int))
            } else {
                None
            }
        },
    }
}

/// Pull the embedded epoch-seconds timestamp out of a raw log line.
pub fn extract_timestamp(log_line: &str) -> (r: Option<u64>)
    ensures
        r == spec_timestamp(log_line@),
{
    let pat = "msg=audit(";
    match find_first(log_line, pat) {
        None => None,
        Some(i) => {
            let len = log_line.unicode_len();
            let plen = pat.unicode_len();
            proof {
                lemma_first_match(log_line@, pat@);
            }
            let after = log_line.substring_char(i + plen, len);
            proof {
                assert(after@ =~= log_line@.skip(i + plen));
            }
            let n = scan(after, '.', '.');
            proof {
                lemma_scan_len(after@, '.', '.');
            }
            if n < after.unicode_len() {
                let d = after.substring_char(0, n);
                proof {
                    assert(d@ =~= after@.take(n as int));
                }
                parse_u64(d)
            } else {
                None
            }
        },
    }
}

/// Milliseconds between `base` and `ts` (both epoch seconds): clamped below
/// at zero for out-of-order lines and saturating at the top.
pub open spec fn offset_ms(ts: u64, base: u64) -> u64 {
    if ts < base {
        0
    } else if (ts - base) * 1000 > u64::MAX {
        u64::MAX
    } else {
        ((ts - base) * 1000) as u64
    }
}

/// The replay schedule of a captured log: each line with an extractable
/// timestamp, paired with its offset relative to the first such line.
/// Lines without a timestamp are dropped.
pub open spec fn spec_schedule(lines: Seq<Seq<char>>, base: Option<u64>) -> Seq<(u64, Seq<char>)>
    decreases lines.len(),
{
    if lines.len() == 0 {
        Seq::empty()
    } else {
        match spec_timestamp(lines[0]) {
            None => spec_schedule(lines.skip(1), base),
            Some(ts) => {
                let b = match base {
                    None => ts,
                    Some(x) => x,
                };
                seq![(offset_ms(ts, b), lines[0])] + spec_schedule(lines.skip(1), Some(b))
            },
        }
    }
}

/// The views of a built schedule.
pub open spec fn sched_view(v: Seq<(u64, String)>) -> Seq<(u64, Seq<char>)> {
    v.map_values(|p: (u64, String)| (p.0, p.1@))
}

/// When the `k`-th scheduled line becomes due, by timing mode: at once,
/// at its recorded offset, or at `k` fixed intervals (saturating).
pub open spec fn spec_due(timing: ReplayTiming, sched: Seq<(u64, Seq<char>)>, k: int) -> u64 {
    match timing {
        ReplayTiming::Fast => 0,
        ReplayTiming::Original => sched[k].0,
        ReplayTiming::Burst(iv) => if iv * k > u64::MAX {
            u64::MAX
        } else {
            (iv * k) as u64
        },
    }
}

/// Replays a captured audit log on a schedule. The engine is a pure state
/// machine over the caller's elapsed monotonic clock; the driver performs
/// the sleeps and carries delivered lines onward.
pub struct LogReplayer {
    /// Millisecond offset and text of each replayable line, in log order.
    pub logs: Vec<(u64, String)>,
    /// Next line to deliver.
    pub pos: usize,
    pub timing: ReplayTiming,
    pub started: bool,
}

impl LogReplayer {
    /// The schedule this engine replays.
    pub open spec fn schedule(self) -> Seq<(u64, Seq<char>)> {
        sched_view(self.logs@)
    }

    /// Build the replay schedule of a captured log's lines.
    pub fn from_lines(lines: &Vec<String>) -> (r: LogReplayer)
        ensures
            r.schedule() == spec_schedule(lines@.map_values(|l: String| l@), None),
            r.pos == 0,
            !r.started,
            r.timing == ReplayTiming::Original,
    {
        let ghost lv: Seq<Seq<char>> = lines@.map_values(|l: String| l@);
        let mut logs: Vec<(u64, String)> = Vec::new();
        let mut base: Option<u64> = None;
        let n = lines.len();
        let mut i: usize = 0;
        proof {
            assert(sched_view(logs@) =~= Seq::<(u64, Seq<char>)>::empty());
            assert(lv.skip(0) =~= lv);
        }
        while i < n
            invariant
                0 <= i <= n,
                n == lines@.len(),
                lv == lines@.map_values(|l: String| l@),
                lv.len() == n,
                spec_schedule(lv, None) == sched_view(logs@) + spec_schedule(
                    lv.skip(i as int),
                    base,
                ),
            decreases n - i,
        {
            proof {
                assert(lv.skip(i as int)[0] == lv[i as int]);
                assert(lv.skip(i as int).skip(1) =~= lv.skip(i as int + 1));
                assert(lv[i as int] == lines@[i as int]@);
            }
            let ghost pre = logs@;
            match extract_timestamp(lines[i].as_str()) {
                None => {},
                Some(ts) => {
                    let b = match base {
                        None => {
                            base = Some(ts);
                            ts
                        },
                        Some(x) => x,
                    };
                    let off: u64 = if ts < b {
                        0
                    } else {
                        match (ts - b).checked_mul(1000) {
                            None => u64::MAX,
                            Some(m) => m,
                        }
                    };
                    logs.push((off, lines[i].clone()));
                    proof {
                        assert(off == offset_ms(ts, b));
                        assert(sched_view(logs@) =~~= sched_view(pre).push(
                            (off, lines@[i as int]@),
                        ));
                        assert(sched_view(pre) + (seq![(off, lv[i as int])] + spec_schedule(
                            lv.skip(i as int + 1),
                            Some(b),
                        )) =~= sched_view(logs@) + spec_schedule(lv.skip(i as int + 1), Some(b)));
                    }
                },
            }
            i += 1;
        }
        proof {
            assert(lv.skip(n as int) =~= Seq::<Seq<char>>::empty());
            assert(sched_view(logs@) + Seq::<(u64, Seq<char>)>::empty() =~= sched_view(logs@));
        }
        LogReplayer { logs, pos: 0, timing: ReplayTiming::Original, started: false }
    }

    /// Arm the engine with a timing mode, rewound to the first line.
    pub fn start_with_timing(&mut self, timing: ReplayTiming)
        ensures
            final(self).started,
            final(self).timing == timing,
            final(self).pos == 0,
            final(self).logs == old(self).logs,
    {
        self.timing = timing;
        self.started = true;
        self.pos = 0;
    }

    /// Arm the engine with no delays.
    pub fn start_fast(&mut self)
        ensures
            final(self).started,
            final(self).timing == ReplayTiming::Fast,
            final(self).pos == 0,
            final(self).logs == old(self).logs,
    {
        self.start_with_timing(ReplayTiming::Fast);
    }

    /// Arm the engine at the log's original relative timing.
    pub fn start(&mut self)
        ensures
            final(self).started,
            final(self).timing == ReplayTiming::Original,
            final(self).pos == 0,
            final(self).logs == old(self).logs,
    {
        self.start_with_timing(ReplayTiming::Original);
    }

    /// One poll at `elapsed_ms` since the engine was armed: the next line
    /// once its due time has passed and never before, how long remains
    /// until it is due, or the end of the log.
    pub fn step(&mut self, elapsed_ms: u64) -> (r: ReplayStep)
        requires
            old(self).started,
        ensures
            final(self).started,
            final(self).timing == old(self).timing,
            final(self).logs == old(self).logs,
            ({
                let sched = old(self).schedule();
                if old(self).pos >= sched.len() {
                    r matches ReplayStep::Finished && final(self).pos == old(self).pos
                } else {
                    let due = spec_due(old(self).timing, sched, old(self).pos as int);
                    if elapsed_ms >= due {
                        r matches ReplayStep::Deliver(m) && m@ == sched[old(self).pos as int].1
                            && final(self).pos == old(self).pos + 1
                    } else {
                        r matches ReplayStep::Sleep(d) && d == due - elapsed_ms
                            && final(self).pos == old(self).pos
                    }
                }
            }),
    {
        let n = self.logs.len();
        if self.pos >= n {
            return ReplayStep::Finished;
        }
        let due: u64 = match self.timing {
            ReplayTiming::Fast => 0,
            ReplayTiming::Original => self.logs[self.pos].0,
            ReplayTiming::Burst(iv) => match iv.checked_mul(self.pos as u64) {
                None => u64::MAX,
                Some(m) => m,
            },
        };
        proof {
            assert(due == spec_due(self.timing, self.schedule(), self.pos as int));
        }
        if elapsed_ms >= due {
            let m = self.logs[self.pos].1.clone();
            self.pos = self.pos + 1;
            ReplayStep::Deliver(m)
        } else {
            ReplayStep::Sleep(due - elapsed_ms)
        }
    }
}

} // verus!
