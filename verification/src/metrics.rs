//! Frame timing: the duration of each frame is recorded, and about once a second the
//! average of the frames since the last report is reported.
use vstd::prelude::*;
use std::time::{Duration, SystemTime};

verus! {

/// `std::time::SystemTime`, held as an opaque value.
#[verifier::external_type_specification]
#[verifier::external_body]
pub struct ExSystemTime(SystemTime);

/// `SystemTime::now`: the time the system clock reads now. Nothing is claimed of it.
#[verifier::external_body]
fn now() -> SystemTime {
    SystemTime::now()
}

/// `SystemTime::elapsed`: the time from `t` until now, or `None` where the clock now reads
/// earlier than `t` (its error). Nothing is claimed of the duration.
#[verifier::external_body]
fn elapsed(t: &SystemTime) -> Option<Duration> {
    match t.elapsed() {
        Ok(d) => Some(d),
        Err(_) => None,
    }
}

/// `Duration::as_nanos`: the whole nanoseconds of `d`. Nothing is claimed of the number,
/// as a duration is opaque here.
#[verifier::external_body]
fn as_nanos(d: &Duration) -> u128 {
    d.as_nanos()
}

/// How often a report is made, in nanoseconds (one second).
pub const REFRESH_PERIOD_NANOS: u128 = 1_000_000_000;

/// The average duration of the frames since the previous report.
#[derive(Debug, Clone, Copy, PartialEq, Eq, Structural)]
pub struct Report {
    /// In nanoseconds.
    pub avg_frame_nanos: u128,
    pub frames_since_last_update: usize,
}

/// Timing of the frames drawn.
#[derive(Debug)]
pub struct Metrics {
    frame_start_time: Option<SystemTime>,
    last_update: SystemTime,
    /// Durations of the frames since the last report, in nanoseconds.
    frame_times: Vec<u128>,
    report: Option<Report>,
}

/// The sum of `s`.
pub open spec fn total(s: Seq<u128>) -> int
    decreases s.len(),
{
    if s.len() == 0 { 0 } else { total(s.drop_last()) + s.last() }
}

/// The sum of `s`, or the largest `u128` where it is larger.
pub open spec fn capped_total(s: Seq<u128>) -> int {
    if total(s) <= u128::MAX { total(s) } else { u128::MAX as int }
}

proof fn lemma_total_nonneg(s: Seq<u128>)
    ensures
        total(s) >= 0,
    decreases s.len(),
{
    if s.len() > 0 {
        lemma_total_nonneg(s.drop_last());
    }
}

impl Default for Metrics {
    fn default() -> (r: Self)
        ensures
            !r.frame_started(),
            r.frame_times() == Seq::<u128>::empty(),
            r.reported() is None,
    {
        Metrics { frame_start_time: None, last_update: now(), frame_times: Vec::new(), report: None }
    }
}

impl Metrics {
    /// A frame is being timed.
    pub closed spec fn frame_started(&self) -> bool {
        self.frame_start_time is Some
    }

    /// The durations of the frames recorded since the last report, in nanoseconds.
    pub closed spec fn frame_times(&self) -> Seq<u128> {
        self.frame_times@
    }

    /// The last report made, if any.
    pub closed spec fn reported(&self) -> Option<Report> {
        self.report
    }

    /// The last report made, if any.
    pub fn report(&self) -> (r: Option<Report>)
        ensures
            r == self.reported(),
    {
        self.report
    }

    /// When the last report was made.
    pub closed spec fn last_update(&self) -> SystemTime {
        self.last_update
    }

    /// `next` is these metrics after recording a frame that took `frame_nanos`,
    /// `since_update_nanos` after the last report, the clock then reading `now`, and `r` is
    /// what the recording returned (see [`Metrics::record_frame`]).
    pub open spec fn records_frame(self, next: Metrics, frame_nanos: u128, since_update_nanos: u128, now: SystemTime, r: u128) -> bool {
        let frames = self.frame_times().push(frame_nanos);
        if since_update_nanos >= REFRESH_PERIOD_NANOS {
            &&& next.reported() == Some(Report {
                avg_frame_nanos: (capped_total(frames) / (frames.len() as int)) as u128,
                frames_since_last_update: frames.len() as usize,
            })
            &&& next.frame_times() == Seq::<u128>::empty()
            &&& next.last_update() == now
            &&& r == REFRESH_PERIOD_NANOS
        } else {
            &&& next.reported() == self.reported()
            &&& next.frame_times() == frames
            &&& next.last_update() == self.last_update()
            &&& r == REFRESH_PERIOD_NANOS - since_update_nanos
        }
    }

    /// Starts timing a frame.
    pub fn frame_start(&mut self)
        requires
            !old(self).frame_started(),
        ensures
            final(self).frame_started(),
            final(self).frame_times() == old(self).frame_times(),
            final(self).last_update() == old(self).last_update(),
            final(self).reported() == old(self).reported(),
    {
        self.frame_start_time = Some(now());
    }

    /// Records a frame that took `frame_nanos`, `since_update_nanos` after the last report
    /// (the clock then reading `now`). Once a whole refresh period has passed, the frames
    /// recorded since the last report are reported by their number and average duration,
    /// and forgotten, and `now` becomes the time of the last report. Returns how long until
    /// the next report is due, in nanoseconds.
    pub fn record_frame(&mut self, frame_nanos: u128, since_update_nanos: u128, now: SystemTime) -> (r: u128)
        ensures
            final(self).frame_started() == old(self).frame_started(),
            old(self).records_frame(*final(self), frame_nanos, since_update_nanos, now, r),
    {
        let ghost frames = self.frame_times@.push(frame_nanos);
        self.frame_times.push(frame_nanos);
        if since_update_nanos >= REFRESH_PERIOD_NANOS {
            let count = self.frame_times.len();
            let mut sum: u128 = 0;
            let mut overflowed = false;
            let mut i: usize = 0;
            while i < count
                invariant
                    count == self.frame_times.len(),
                    self.frame_times@ == frames,
                    i <= count,
                    overflowed ==> total(frames.take(i as int)) > u128::MAX,
                    !overflowed ==> sum == total(frames.take(i as int)),
                decreases count - i,
            {
                proof {
                    assert(frames.take(i + 1).drop_last() =~= frames.take(i as int));
                    lemma_total_nonneg(frames.take(i as int));
                    lemma_total_grows(frames, i as int);
                }
                if !overflowed {
                    match sum.checked_add(self.frame_times[i]) {
                        Some(s) => sum = s,
                        None => overflowed = true,
                    }
                }
                i = i + 1;
            }
            assert(frames.take(count as int) =~= frames);
            if overflowed {
                sum = u128::MAX;
            }
            let avg = sum / (count as u128);
            self.report = Some(Report { avg_frame_nanos: avg, frames_since_last_update: count });
            self.frame_times = Vec::new();
            self.last_update = now;
            REFRESH_PERIOD_NANOS
        } else {
            REFRESH_PERIOD_NANOS - since_update_nanos
        }
    }

    /// Ends the timing of a frame: records how long it took, and reports once a refresh
    /// period has passed since the last report (see [`Metrics::record_frame`]). A duration
    /// that the clock cannot give (it reads earlier than where the duration began) counts
    /// as none. Returns how long until the next report is due, in nanoseconds.
    pub fn frame_stop(&mut self) -> (r: u128)
        requires
            old(self).frame_started(),
        ensures
            !final(self).frame_started(),
            exists|frame_nanos: u128, since_update_nanos: u128, now: SystemTime|
                old(self).records_frame(*final(self), frame_nanos, since_update_nanos, now, r),
    {
        let mut started: Option<SystemTime> = None;
        std::mem::swap(&mut started, &mut self.frame_start_time);
        let frame_nanos = match started {
            Some(start) => match elapsed(&start) {
                Some(d) => as_nanos(&d),
                None => 0,
            },
            None => 0,
        };
        let since_update_nanos = match elapsed(&self.last_update) {
            Some(d) => as_nanos(&d),
            None => 0,
        };
        let t = now();
        let ghost mid = *self;
        let r = self.record_frame(frame_nanos, since_update_nanos, t);
        assert(mid.records_frame(*self, frame_nanos, since_update_nanos, t, r));
        assert(old(self).records_frame(*self, frame_nanos, since_update_nanos, t, r));
        r
    }
}

proof fn lemma_total_grows(s: Seq<u128>, i: int)
    requires
        0 <= i < s.len(),
    ensures
        total(s.take(i + 1)) == total(s.take(i)) + s[i],
        total(s.take(i + 1)) >= total(s.take(i)),
{
    assert(s.take(i + 1).drop_last() =~= s.take(i));
}

} // verus!
