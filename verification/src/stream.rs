//! An ordered, gated accumulator of accepted heart-rate samples.
//!
//! The stabilization gate rejects blank readings (no R-R intervals),
//! readings in the first five seconds of the session (warmup), and
//! readings within three seconds of the last blank reading (cooldown).
//! Timestamps are milliseconds from a monotonic clock.

use vstd::prelude::*;
use crate::heart_rate::HeartRate;

verus! {

/// The outcome of gating one sample.
#[derive(Clone, Copy, Debug, PartialEq, Eq, Structural)]
pub enum AcceptOutcome {
    /// The sample was appended to the accepted history.
    Accepted,
    /// The sample carried no R-R intervals; the blank timestamp was
    /// recorded and the history left unchanged.
    RejectedBlank,
    /// The sample arrived within the first five seconds of the session.
    RejectedWarmup,
    /// The sample arrived within three seconds of the last blank reading.
    RejectedCooldown,
}

/// A sample is blank when it carries no R-R intervals.
pub open spec fn is_blank(hr: HeartRate) -> bool {
    match hr.spec_rr() {
        Option::Some(s) => s.len() == 0,
        Option::None => true,
    }
}

/// Milliseconds from `from` to `now`, zero when the clock reads earlier
/// than `from` (a monotonic source never does).
pub open spec fn elapsed_ms(from: u64, now: u64) -> int {
    if now >= from {
        now - from
    } else {
        0
    }
}

/// Gating policy: blank samples are rejected first (and set the cooldown clock),
/// then the five-second warmup window, then the three-second cooldown
/// window after the last blank reading; whatever passes all three is
/// accepted.
pub open spec fn gate_decision(
    start: u64,
    last_blank: Option<u64>,
    blank: bool,
    now: u64,
) -> AcceptOutcome {
    if blank {
        AcceptOutcome::RejectedBlank
    } else if elapsed_ms(start, now) <= 5000 {
        AcceptOutcome::RejectedWarmup
    } else if last_blank matches Option::Some(t) && elapsed_ms(t, now) <= 3000 {
        AcceptOutcome::RejectedCooldown
    } else {
        AcceptOutcome::Accepted
    }
}

/// The R-R intervals of a run of samples, flattened in arrival order.
pub open spec fn flat_rr(samples: Seq<HeartRate>) -> Seq<u16>
    decreases samples.len(),
{
    if samples.len() == 0 {
        Seq::empty()
    } else {
        flat_rr(samples.drop_last()) + (match samples.last().spec_rr() {
            Option::Some(s) => s,
            Option::None => Seq::empty(),
        })
    }
}

/// Appending an accepted sample extends the flattened history by exactly
/// that sample's R-R intervals, at the end: statistics over the history
/// reflect every accepted sample, in arrival order.
pub proof fn lemma_flat_rr_push(samples: Seq<HeartRate>, hr: HeartRate)
    ensures
        flat_rr(samples.push(hr)) == flat_rr(samples) + (match hr.spec_rr() {
            Option::Some(s) => s,
            Option::None => Seq::empty(),
        }),
{
    let t = samples.push(hr);
    assert(t.drop_last() =~= samples);
    assert(t.last() == hr);
}

/// The accepted-sample history of one monitoring session, with the
/// session start and the time of the last blank reading.
pub struct SampleStream {
    accepted: Vec<HeartRate>,
    stream_start_ms: u64,
    last_blank_ms: Option<u64>,
}

impl SampleStream {
    /// The accepted samples, in arrival order.
    pub closed spec fn spec_accepted(self) -> Seq<HeartRate> {
        self.accepted@
    }

    /// The session start timestamp (ms, monotonic).
    pub closed spec fn spec_start(self) -> u64 {
        self.stream_start_ms
    }

    /// The time of the last blank reading, if any.
    pub closed spec fn spec_last_blank(self) -> Option<u64> {
        self.last_blank_ms
    }

    /// The accepted history never holds a blank sample.
    pub open spec fn wf(self) -> bool {
        forall|i: int| 0 <= i < self.spec_accepted().len() ==> !is_blank(
            #[trigger] self.spec_accepted()[i],
        )
    }

    /// Start a session at the given monotonic timestamp, with no
    /// accepted samples and no blank reading seen.
    pub fn new(start_ms: u64) -> (s: SampleStream)
        ensures
            s.wf(),
            s.spec_start() == start_ms,
            s.spec_last_blank() is None,
            s.spec_accepted() == Seq::<HeartRate>::empty(),
    {
        let s = SampleStream { accepted: Vec::new(), stream_start_ms: start_ms, last_blank_ms: None };
        proof {
            assert(s.spec_accepted() =~= Seq::<HeartRate>::empty());
        }
        s
    }

    /// Gate one sample at the given monotonic time.
    ///
    /// The outcome is exactly the gating policy applied to the current
    /// state; a blank sample resets the cooldown clock, an accepted
    /// sample is appended to the history, and nothing else changes.
    pub fn accept(&mut self, sample: HeartRate, now_ms: u64) -> (r: AcceptOutcome)
        ensures
            r == gate_decision(
                old(self).spec_start(),
                old(self).spec_last_blank(),
                is_blank(sample),
                now_ms,
            ),
            final(self).spec_start() == old(self).spec_start(),
            r == AcceptOutcome::RejectedBlank ==> final(self).spec_last_blank() == Option::Some(
                now_ms,
            ),
            r != AcceptOutcome::RejectedBlank ==> final(self).spec_last_blank() == old(
                self,
            ).spec_last_blank(),
            r == AcceptOutcome::Accepted ==> final(self).spec_accepted() == old(
                self,
            ).spec_accepted().push(sample),
            r != AcceptOutcome::Accepted ==> final(self).spec_accepted() == old(
                self,
            ).spec_accepted(),
            old(self).wf() ==> final(self).wf(),
    {
        let blank = match sample.rr() {
            Some(v) => v.len() == 0,
            None => true,
        };
        if blank {
            self.last_blank_ms = Some(now_ms);
            return AcceptOutcome::RejectedBlank;
        }
        let since_start = if now_ms >= self.stream_start_ms {
            now_ms - self.stream_start_ms
        } else {
            0
        };
        if since_start <= 5000 {
            return AcceptOutcome::RejectedWarmup;
        }
        match self.last_blank_ms {
            Some(t) => {
                let since_blank = if now_ms >= t {
                    now_ms - t
                } else {
                    0
                };
                if since_blank <= 3000 {
                    return AcceptOutcome::RejectedCooldown;
                }
            },
            None => {},
        }
        self.accepted.push(sample);
        proof {
            assert(self.spec_accepted() =~= old(self).spec_accepted().push(sample));
            if old(self).wf() {
                assert forall|i: int| 0 <= i < self.spec_accepted().len() implies !is_blank(
                    #[trigger] self.spec_accepted()[i],
                ) by {
                    if i < old(self).spec_accepted().len() {
                        assert(self.spec_accepted()[i] == old(self).spec_accepted()[i]);
                    } else {
                        assert(self.spec_accepted()[i] == sample);
                    }
                }
            }
        }
        AcceptOutcome::Accepted
    }

    /// Number of accepted samples.
    pub fn accepted_len(&self) -> (n: usize)
        ensures
            n == self.spec_accepted().len(),
    {
        self.accepted.len()
    }

    /// The concatenation, in arrival order, of every accepted sample's
    /// R-R intervals: the sequence HRV statistics are computed over.
    pub fn rr_history(&self) -> (r: Vec<u16>)
        ensures
            r@ == flat_rr(self.spec_accepted()),
    {
        let mut out: Vec<u16> = Vec::new();
        let mut k: usize = 0;
        proof {
            assert(out@ =~= flat_rr(self.spec_accepted().take(0)));
        }
        while k < self.accepted.len()
            invariant
                k <= self.accepted.len(),
                self.accepted@ == self.spec_accepted(),
                out@ == flat_rr(self.spec_accepted().take(k as int)),
            decreases self.accepted.len() - k,
        {
            let ghost prev = out@;
            match self.accepted[k].rr() {
                Some(v) => {
                    let mut j: usize = 0;
                    while j < v.len()
                        invariant
                            j <= v.len(),
                            out@ == prev + v@.take(j as int),
                        decreases v.len() - j,
                    {
                        out.push(v[j]);
                        proof {
                            assert(out@ =~= prev + v@.take(j + 1));
                        }
                        j += 1;
                    }
                    proof {
                        assert(v@.take(v@.len() as int) =~= v@);
                    }
                },
                None => {},
            }
            proof {
                let t = self.spec_accepted().take(k + 1);
                assert(t.drop_last() =~= self.spec_accepted().take(k as int));
                assert(t.last() == self.spec_accepted()[k as int]);
                assert(out@ =~= flat_rr(t));
            }
            k += 1;
        }
        proof {
            assert(self.spec_accepted().take(self.spec_accepted().len() as int) =~= self
                .spec_accepted());
        }
        out
    }
}

} // verus!
