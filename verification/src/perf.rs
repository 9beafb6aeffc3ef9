//! Timing of bursts of output: what is summed up while a burst lasts, and when
//! it is over. Times are nanoseconds of a monotonic clock.

use vstd::prelude::*;

verus! {

/// How long it is quiet after a burst before the burst is reported.
pub const PERF_FLUSH_IDLE: u64 = 150_000_000;

/// The sums of a burst.
#[derive(Clone, Copy, Debug, PartialEq, Eq, Structural)]
pub struct Burst {
    pub pty_chunks: u32,
    pub pty_bytes: usize,
    pub feed_ns: u128,
    pub update_ns: u128,
    pub update_calls: u32,
    pub up_shape_ns: u128,
    pub up_body_ns: u128,
    pub render_ns: u128,
    pub render_calls: u32,
    pub fast_calls: u32,
    pub fast_ns: u128,
    pub slow_calls: u32,
    pub slow_ns: u128,
    pub surface_wait_ns: u128,
}

/// The burst that is going on.
#[derive(Clone, Copy, Debug, PartialEq, Eq, Structural)]
pub struct PerfLog {
    pub enabled: bool,
    pub burst_start: Option<u64>,
    pub last_event: u64,
    pub sums: Burst,
}

/// A burst that is over.
#[derive(Clone, Copy, Debug, PartialEq, Eq, Structural)]
pub struct Report {
    /// How long it took, the quiet after it included.
    pub total_ns: u64,
    /// How much of that is accounted for.
    pub accounted_ns: u128,
    pub sums: Burst,
}

/// Sums of nothing.
pub open spec fn no_sums() -> Burst {
    Burst {
        pty_chunks: 0,
        pty_bytes: 0,
        feed_ns: 0,
        update_ns: 0,
        update_calls: 0,
        up_shape_ns: 0,
        up_body_ns: 0,
        render_ns: 0,
        render_calls: 0,
        fast_calls: 0,
        fast_ns: 0,
        slow_calls: 0,
        slow_ns: 0,
        surface_wait_ns: 0,
    }
}

fn blank() -> (sums: Burst)
    ensures
        sums == no_sums(),
{
    Burst {
        pty_chunks: 0,
        pty_bytes: 0,
        feed_ns: 0,
        update_ns: 0,
        update_calls: 0,
        up_shape_ns: 0,
        up_body_ns: 0,
        render_ns: 0,
        render_calls: 0,
        fast_calls: 0,
        fast_ns: 0,
        slow_calls: 0,
        slow_ns: 0,
        surface_wait_ns: 0,
    }
}

/// Whether one more sample with these bytes fits the sums, and the sums can
/// still be added up.
pub open spec fn has_room(sums: Burst, bytes: usize) -> bool {
    &&& sums.pty_chunks < u32::MAX
    &&& sums.pty_bytes + bytes <= usize::MAX
    &&& sums.update_calls < u32::MAX
    &&& sums.render_calls < u32::MAX
    &&& sums.fast_calls < u32::MAX
    &&& sums.slow_calls < u32::MAX
    &&& sums.feed_ns <= u128::MAX / 4
    &&& sums.update_ns <= u128::MAX / 4
    &&& sums.up_shape_ns <= u128::MAX / 4
    &&& sums.up_body_ns <= u128::MAX / 4
    &&& sums.render_ns <= u128::MAX / 4
    &&& sums.fast_ns <= u128::MAX / 4
    &&& sums.slow_ns <= u128::MAX / 4
    &&& sums.surface_wait_ns <= u128::MAX / 4
}

/// The log with a sample at this time. The first one starts the burst.
pub open spec fn sampled(log: PerfLog, now: u64, sums: Burst) -> PerfLog {
    PerfLog {
        burst_start: match log.burst_start {
            Some(start) => Some(start),
            None => Some(now),
        },
        last_event: now,
        sums,
        ..log
    }
}

/// Whether the log's setting turns it on: it is `1`.
pub open spec fn turned_on(setting: Option<Seq<char>>) -> bool {
    match setting {
        Some(s) => s == "1"@,
        None => false,
    }
}

impl PerfLog {
    /// A log without a burst.
    pub fn new(setting: Option<&str>, now: u64) -> (log: PerfLog)
        ensures
            log == (PerfLog {
                enabled: turned_on(crate::window::text_view(setting)),
                burst_start: None,
                last_event: now,
                sums: no_sums(),
            }),
    {
        let enabled = match setting {
            Some(s) => {
                let chars: Vec<char> = crate::text::chars_of(s);
                crate::text::spells(&chars, "1")
            },
            None => false,
        };
        PerfLog { enabled, burst_start: None, last_event: now, sums: blank() }
    }

    /// Whether one more sample fits.
    pub fn fits(&self, bytes: usize) -> (b: bool)
        ensures
            b == has_room(self.sums, bytes),
    {
        let s: &Burst = &self.sums;
        s.pty_chunks < u32::MAX && s.pty_bytes <= usize::MAX - bytes && s.update_calls < u32::MAX
            && s.render_calls < u32::MAX && s.fast_calls < u32::MAX && s.slow_calls < u32::MAX
            && s.feed_ns <= u128::MAX / 4 && s.update_ns <= u128::MAX / 4 && s.up_shape_ns
            <= u128::MAX / 4 && s.up_body_ns <= u128::MAX / 4 && s.render_ns <= u128::MAX / 4
            && s.fast_ns <= u128::MAX / 4 && s.slow_ns <= u128::MAX / 4 && s.surface_wait_ns
            <= u128::MAX / 4
    }

    fn mark(&mut self, now: u64)
        ensures
            *final(self) == sampled(*old(self), now, old(self).sums),
    {
        if self.burst_start.is_none() {
            self.burst_start = Some(now);
        }
        self.last_event = now;
    }

    /// A chunk of output was fed to the terminal.
    pub fn note_pty(&mut self, bytes: usize, feed_ns: u64, now: u64)
        requires
            old(self).enabled ==> has_room(old(self).sums, bytes),
        ensures
            *final(self) == if old(self).enabled {
                sampled(
                    *old(self),
                    now,
                    Burst {
                        pty_chunks: (old(self).sums.pty_chunks + 1) as u32,
                        pty_bytes: (old(self).sums.pty_bytes + bytes) as usize,
                        feed_ns: (old(self).sums.feed_ns + feed_ns) as u128,
                        ..old(self).sums
                    },
                )
            } else {
                *old(self)
            },
    {
        if !self.enabled {
            return;
        }
        self.mark(now);
        self.sums.pty_chunks = self.sums.pty_chunks + 1;
        self.sums.pty_bytes = self.sums.pty_bytes + bytes;
        self.sums.feed_ns = self.sums.feed_ns + feed_ns as u128;
    }

    /// The vertices were built anew.
    pub fn note_update(&mut self, ns: u64, now: u64)
        requires
            old(self).enabled ==> has_room(old(self).sums, 0),
        ensures
            *final(self) == if old(self).enabled {
                sampled(
                    *old(self),
                    now,
                    Burst {
                        update_ns: (old(self).sums.update_ns + ns) as u128,
                        update_calls: (old(self).sums.update_calls + 1) as u32,
                        ..old(self).sums
                    },
                )
            } else {
                *old(self)
            },
    {
        if !self.enabled {
            return;
        }
        self.mark(now);
        self.sums.update_ns = self.sums.update_ns + ns as u128;
        self.sums.update_calls = self.sums.update_calls + 1;
    }

    /// How the time of building the vertices was split.
    pub fn note_update_phases(&mut self, shape_ns: u64, body_ns: u64)
        requires
            old(self).enabled ==> has_room(old(self).sums, 0),
        ensures
            *final(self) == if old(self).enabled {
                PerfLog {
                    sums: Burst {
                        up_shape_ns: (old(self).sums.up_shape_ns + shape_ns) as u128,
                        up_body_ns: (old(self).sums.up_body_ns + body_ns) as u128,
                        ..old(self).sums
                    },
                    ..*old(self)
                }
            } else {
                *old(self)
            },
    {
        if !self.enabled {
            return;
        }
        self.sums.up_shape_ns = self.sums.up_shape_ns + shape_ns as u128;
        self.sums.up_body_ns = self.sums.up_body_ns + body_ns as u128;
    }

    /// A frame was drawn.
    pub fn note_render(&mut self, ns: u64, surface_wait_ns: u64, fast: bool, now: u64)
        requires
            old(self).enabled ==> has_room(old(self).sums, 0),
        ensures
            *final(self) == if old(self).enabled {
                let s = old(self).sums;
                sampled(
                    *old(self),
                    now,
                    Burst {
                        render_ns: (s.render_ns + ns) as u128,
                        render_calls: (s.render_calls + 1) as u32,
                        surface_wait_ns: (s.surface_wait_ns + surface_wait_ns) as u128,
                        fast_calls: if fast {
                            (s.fast_calls + 1) as u32
                        } else {
                            s.fast_calls
                        },
                        fast_ns: if fast {
                            (s.fast_ns + ns) as u128
                        } else {
                            s.fast_ns
                        },
                        slow_calls: if fast {
                            s.slow_calls
                        } else {
                            (s.slow_calls + 1) as u32
                        },
                        slow_ns: if fast {
                            s.slow_ns
                        } else {
                            (s.slow_ns + ns) as u128
                        },
                        ..s
                    },
                )
            } else {
                *old(self)
            },
    {
        if !self.enabled {
            return;
        }
        self.mark(now);
        self.sums.render_ns = self.sums.render_ns + ns as u128;
        self.sums.render_calls = self.sums.render_calls + 1;
        self.sums.surface_wait_ns = self.sums.surface_wait_ns + surface_wait_ns as u128;
        if fast {
            self.sums.fast_calls = self.sums.fast_calls + 1;
            self.sums.fast_ns = self.sums.fast_ns + ns as u128;
        } else {
            self.sums.slow_calls = self.sums.slow_calls + 1;
            self.sums.slow_ns = self.sums.slow_ns + ns as u128;
        }
    }

    /// When the burst is to be reported. `None` without one.
    pub fn next_wake(&self) -> (wake: Option<u128>)
        ensures
            wake == if self.enabled && self.burst_start is Some {
                Some((self.last_event + PERF_FLUSH_IDLE) as u128)
            } else {
                None
            },
    {
        if !self.enabled || self.burst_start.is_none() {
            return None;
        }
        Some(self.last_event as u128 + PERF_FLUSH_IDLE as u128)
    }

    /// Reports the burst when it has been quiet for a while, and starts over.
    pub fn maybe_flush(&mut self, now: u64) -> (report: Option<Report>)
        requires
            old(self).sums.feed_ns + old(self).sums.update_ns + old(self).sums.render_ns
                <= u128::MAX,
        ensures
            match report {
                Some(r) => {
                    &&& due(*old(self), now)
                    &&& r.sums == old(self).sums
                    &&& r.total_ns == crate::animation::elapsed(old(self).burst_start->0, now)
                    &&& r.accounted_ns == old(self).sums.feed_ns + old(self).sums.update_ns
                        + old(self).sums.render_ns
                    &&& *final(self) == (PerfLog {
                        burst_start: None,
                        sums: no_sums(),
                        ..*old(self)
                    })
                },
                None => !due(*old(self), now) && *final(self) == *old(self),
            },
    {
        if !self.enabled {
            return None;
        }
        let start: u64 = match self.burst_start {
            Some(s) => s,
            None => {
                return None;
            },
        };
        let quiet: u64 = if now > self.last_event {
            now - self.last_event
        } else {
            0
        };
        if quiet < PERF_FLUSH_IDLE {
            return None;
        }
        let total_ns: u64 = if now > start {
            now - start
        } else {
            0
        };
        let report = Report {
            total_ns,
            accounted_ns: self.sums.feed_ns + self.sums.update_ns + self.sums.render_ns,
            sums: self.sums,
        };
        self.burst_start = None;
        self.sums = blank();
        Some(report)
    }
}

/// Whether a burst is to be reported.
pub open spec fn due(log: PerfLog, now: u64) -> bool {
    log.enabled && log.burst_start is Some && crate::animation::elapsed(log.last_event, now)
        >= PERF_FLUSH_IDLE
}

/// The wake-up time is when the burst becomes due.
pub proof fn burst_is_due_at_its_wake(log: PerfLog, now: u64)
    requires
        log.enabled,
        log.burst_start is Some,
    ensures
        due(log, now) == (now >= log.last_event + PERF_FLUSH_IDLE),
{
}

/// A sample adds to its own sums and to no others, starts a burst where none goes
/// on, and is its last event. A log that is off takes none.
pub proof fn chunk_adds_to_its_sums(log: &mut PerfLog, bytes: usize, feed_ns: u64, now: u64)
    requires
        call_ensures(PerfLog::note_pty, (log, bytes, feed_ns, now), ()),
        old(log).enabled ==> has_room(old(log).sums, bytes),
    ensures
        !old(log).enabled ==> *final(log) == *old(log),
        old(log).enabled ==> ({
            let s = old(log).sums;
            let t = final(log).sums;
            &&& t.pty_chunks == s.pty_chunks + 1
            &&& t.pty_bytes == s.pty_bytes + bytes
            &&& t.feed_ns == s.feed_ns + feed_ns
            &&& t.update_ns == s.update_ns && t.update_calls == s.update_calls
            &&& t.up_shape_ns == s.up_shape_ns && t.up_body_ns == s.up_body_ns
            &&& t.render_ns == s.render_ns && t.render_calls == s.render_calls
            &&& t.fast_calls == s.fast_calls && t.fast_ns == s.fast_ns
            &&& t.slow_calls == s.slow_calls && t.slow_ns == s.slow_ns
            &&& t.surface_wait_ns == s.surface_wait_ns
            &&& final(log).enabled && final(log).last_event == now
            &&& final(log).burst_start is Some
            &&& final(log).burst_start->0 == if old(log).burst_start is Some {
                old(log).burst_start->0
            } else {
                now
            }
        }),
{
}

/// A rebuild adds its time and counts; how it was split adds to the split only, and
/// is no event.
pub proof fn rebuild_adds_to_its_sums(
    log: &mut PerfLog,
    ns: u64,
    now: u64,
    split: &mut PerfLog,
    shape_ns: u64,
    body_ns: u64,
)
    requires
        call_ensures(PerfLog::note_update, (log, ns, now), ()),
        old(log).enabled && has_room(old(log).sums, 0),
        call_ensures(PerfLog::note_update_phases, (split, shape_ns, body_ns), ()),
        old(split).enabled && has_room(old(split).sums, 0),
    ensures
        ({
            let s = old(log).sums;
            let t = final(log).sums;
            &&& t == (Burst { update_ns: t.update_ns, update_calls: t.update_calls, ..s })
            &&& t.update_ns == s.update_ns + ns
            &&& t.update_calls == s.update_calls + 1
            &&& final(log).enabled && final(log).last_event == now
            &&& final(log).burst_start is Some
            &&& final(log).burst_start->0 == if old(log).burst_start is Some {
                old(log).burst_start->0
            } else {
                now
            }
        }),
        ({
            let s = old(split).sums;
            let t = final(split).sums;
            &&& t == (Burst { up_shape_ns: t.up_shape_ns, up_body_ns: t.up_body_ns, ..s })
            &&& t.up_shape_ns == s.up_shape_ns + shape_ns
            &&& t.up_body_ns == s.up_body_ns + body_ns
            &&& final(split).enabled && final(split).last_event == old(split).last_event
            &&& final(split).burst_start == old(split).burst_start
        }),
{
}

/// A frame adds its time and its wait and counts, once among all frames and once
/// among the fast or the slow ones.
pub proof fn frame_adds_to_its_sums(
    log: &mut PerfLog,
    ns: u64,
    surface_wait_ns: u64,
    fast: bool,
    now: u64,
)
    requires
        call_ensures(PerfLog::note_render, (log, ns, surface_wait_ns, fast, now), ()),
        old(log).enabled && has_room(old(log).sums, 0),
    ensures
        ({
            let s = old(log).sums;
            let t = final(log).sums;
            let quick: int = if fast {
                1
            } else {
                0
            };
            &&& t.pty_chunks == s.pty_chunks && t.pty_bytes == s.pty_bytes
            &&& t.feed_ns == s.feed_ns
            &&& t.update_ns == s.update_ns && t.update_calls == s.update_calls
            &&& t.up_shape_ns == s.up_shape_ns && t.up_body_ns == s.up_body_ns
            &&& t.render_ns == s.render_ns + ns
            &&& t.render_calls == s.render_calls + 1
            &&& t.surface_wait_ns == s.surface_wait_ns + surface_wait_ns
            &&& t.fast_calls == s.fast_calls + quick
            &&& t.slow_calls == s.slow_calls + 1 - quick
            &&& t.fast_ns + t.slow_ns == s.fast_ns + s.slow_ns + ns
            &&& fast ==> t.slow_ns == s.slow_ns
            &&& !fast ==> t.fast_ns == s.fast_ns
            &&& final(log).enabled && final(log).last_event == now
            &&& final(log).burst_start is Some
            &&& final(log).burst_start->0 == if old(log).burst_start is Some {
                old(log).burst_start->0
            } else {
                now
            }
        }),
{
}

/// A log that is off takes no sample.
pub proof fn log_that_is_off_takes_nothing(
    update: &mut PerfLog,
    split: &mut PerfLog,
    render: &mut PerfLog,
    ns: u64,
    wait: u64,
    fast: bool,
    now: u64,
)
    requires
        call_ensures(PerfLog::note_update, (update, ns, now), ()),
        call_ensures(PerfLog::note_update_phases, (split, ns, wait), ()),
        call_ensures(PerfLog::note_render, (render, ns, wait, fast, now), ()),
        !old(update).enabled && !old(split).enabled && !old(render).enabled,
    ensures
        *final(update) == *old(update),
        *final(split) == *old(split),
        *final(render) == *old(render),
{
}

/// A log starts without a burst and with empty sums, and is on exactly when its
/// setting is `1`.
pub proof fn log_is_turned_on_by_one(setting: &str, now: u64, log: PerfLog, without: PerfLog)
    requires
        call_ensures(PerfLog::new, (Some(setting), now), log),
        call_ensures(PerfLog::new, (None, now), without),
    ensures
        log.enabled <==> setting@ == seq!['1'],
        !without.enabled,
        log.burst_start is None && log.last_event == now,
        without.burst_start is None && without.last_event == now && without.sums == log.sums,
        log.sums.pty_chunks == 0 && log.sums.pty_bytes == 0 && log.sums.feed_ns == 0,
        log.sums.update_ns == 0 && log.sums.update_calls == 0 && log.sums.up_shape_ns == 0,
        log.sums.up_body_ns == 0 && log.sums.render_ns == 0 && log.sums.render_calls == 0,
        log.sums.fast_calls == 0 && log.sums.fast_ns == 0 && log.sums.slow_calls == 0,
        log.sums.slow_ns == 0 && log.sums.surface_wait_ns == 0,
{
    reveal_strlit("1");
    assert("1"@ =~= seq!['1']);
}

/// A burst is reported exactly when its wake-up has come, 150 milliseconds after its
/// last event; the report has its sums, and the log starts over.
pub proof fn burst_is_reported_when_quiet(
    log: &mut PerfLog,
    before: &PerfLog,
    fresh: PerfLog,
    setting: Option<&str>,
    now: u64,
    wake: Option<u128>,
    report: Option<Report>,
)
    requires
        *before == *old(log),
        call_ensures(PerfLog::next_wake, (before,), wake),
        call_ensures(PerfLog::maybe_flush, (log, now), report),
        call_ensures(PerfLog::new, (setting, now), fresh),
        before.sums.feed_ns + before.sums.update_ns + before.sums.render_ns <= u128::MAX,
    ensures
        wake is Some <==> before.enabled && before.burst_start is Some,
        wake is Some ==> wake->0 == before.last_event + 150_000_000,
        report is Some <==> wake is Some && now >= wake->0,
        report is None ==> *final(log) == *before,
        report is Some ==> {
            &&& (report->0).sums == before.sums
            &&& (report->0).accounted_ns == before.sums.feed_ns + before.sums.update_ns
                + before.sums.render_ns
            &&& before.burst_start->0 <= now ==> (report->0).total_ns == now
                - before.burst_start->0
            &&& before.burst_start->0 > now ==> (report->0).total_ns == 0
            &&& final(log).burst_start is None
            &&& final(log).sums == fresh.sums
            &&& final(log).enabled == before.enabled
            &&& final(log).last_event == before.last_event
        },
{
}

/// A sample fits as long as no count is at its end, the bytes can be added, and no
/// time is past a quarter of what it can hold.
pub proof fn sample_fits_below_the_limits(log: &PerfLog, bytes: usize, b: bool)
    requires
        call_ensures(PerfLog::fits, (log, bytes), b),
    ensures
        ({
            let s = log.sums;
            let quarter = u128::MAX / 4;
            b <==> {
                &&& s.pty_chunks != u32::MAX && s.update_calls != u32::MAX
                &&& s.render_calls != u32::MAX && s.fast_calls != u32::MAX
                &&& s.slow_calls != u32::MAX
                &&& s.pty_bytes + bytes <= usize::MAX
                &&& s.feed_ns <= quarter && s.update_ns <= quarter && s.render_ns <= quarter
                &&& s.up_shape_ns <= quarter && s.up_body_ns <= quarter
                &&& s.fast_ns <= quarter && s.slow_ns <= quarter && s.surface_wait_ns <= quarter
            }
        }),
{
}

} // verus!
