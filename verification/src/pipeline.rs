//! The event pipeline and persistence worker, as one explicit state: an
//! unbounded, order-preserving queue of cleaned frames decoupling the
//! transfer loop from storage, and the append-only rows the worker has
//! written. The full enqueue history is carried as ghost state, so that
//! order preservation is a property of every reachable state.

use crate::filter::all_zero;
use crate::filter::clean;
use crate::filter::frame_kept;
use crate::filter::scrub;
use crate::hexfmt::format_frame_hex;
use crate::hexfmt::hex_list;
use vstd::prelude::*;

verus! {

/// One durable row: wall-clock milliseconds since the epoch, and the cleaned
/// payload. Append-only; never updated or deleted.
#[derive(Debug)]
pub struct PersistedEvent {
    pub timestamp_ms: i64,
    pub payload: Vec<u8>,
}

/// Relies on chrono::Utc::now and DateTime::timestamp_millis: the current
/// wall-clock time as milliseconds since the epoch. Nothing is promised of
/// the value; the clock is outside the program.
#[verifier::external_body]
fn now_millis() -> i64 {
    chrono::Utc::now().timestamp_millis()
}

/// The capture pipeline's state: frames the filter has forwarded but the
/// worker has not yet drained, and the rows already made durable.
pub struct CaptureLog {
    /// Process start, milliseconds since the epoch.
    pub start_ms: i64,
    /// Frames enqueued and not yet persisted, oldest first.
    pub queue: Vec<Vec<u8>>,
    /// Storage rows, in append order.
    pub rows: Vec<PersistedEvent>,
    /// Every frame ever enqueued, in enqueue order.
    pub enqueued: Ghost<Seq<Seq<u8>>>,
}

impl CaptureLog {
    /// The payloads persisted so far, in row order.
    pub open spec fn row_payloads(self) -> Seq<Seq<u8>> {
        self.rows@.map_values(|e: PersistedEvent| e.payload@)
    }

    /// The frames still queued, oldest first.
    pub open spec fn queued_frames(self) -> Seq<Seq<u8>> {
        self.queue@.map_values(|f: Vec<u8>| f@)
    }

    /// Well-formedness: what is persisted followed by what is queued is
    /// exactly the enqueue history; only frames with a nonzero byte were
    /// ever enqueued; no row is stamped before the session started.
    pub open spec fn wf(self) -> bool {
        &&& self.row_payloads() + self.queued_frames() == self.enqueued@
        &&& forall|i: int|
            0 <= i < self.enqueued@.len() ==> (#[trigger] self.enqueued@[i]).len() > 0 && !all_zero(
                self.enqueued@[i],
            )
        &&& forall|i: int|
            0 <= i < self.rows@.len() ==> (#[trigger] self.rows@[i]).timestamp_ms >= self.start_ms
    }

    /// A fresh pipeline for a session that started at `start_ms`.
    pub fn new(start_ms: i64) -> (log: CaptureLog)
        ensures
            log.wf(),
            log.start_ms == start_ms,
            log.queue@.len() == 0,
            log.rows@.len() == 0,
            log.enqueued@.len() == 0,
    {
        let log = CaptureLog {
            start_ms,
            queue: Vec::new(),
            rows: Vec::new(),
            enqueued: Ghost(Seq::empty()),
        };
        proof {
            assert(log.row_payloads() + log.queued_frames() =~= log.enqueued@);
        }
        log
    }

    /// Enqueue one cleaned frame. Never blocks, applies no backpressure,
    /// and preserves order: the frame goes to the back of the queue and to
    /// the end of the history.
    pub fn enqueue(&mut self, frame: Vec<u8>)
        requires
            old(self).wf(),
            frame@.len() > 0,
            !all_zero(frame@),
        ensures
            final(self).wf(),
            final(self).start_ms == old(self).start_ms,
            final(self).rows@ == old(self).rows@,
            final(self).queue@ == old(self).queue@.push(frame),
            final(self).enqueued@ == old(self).enqueued@.push(frame@),
    {
        let ghost f = frame@;
        self.queue.push(frame);
        self.enqueued = Ghost(self.enqueued@.push(f));
        proof {
            assert(self.queued_frames() =~= old(self).queued_frames().push(f));
            assert(self.row_payloads() + self.queued_frames() =~= self.enqueued@);
        }
    }

    /// Dequeue the oldest frame and append it as one durable row stamped
    /// `now_ms`. Strictly FIFO: rows leave in exactly the order their
    /// frames entered.
    pub fn persist_next(&mut self, now_ms: i64)
        requires
            old(self).wf(),
            old(self).queue@.len() > 0,
            now_ms >= old(self).start_ms,
        ensures
            final(self).wf(),
            final(self).start_ms == old(self).start_ms,
            final(self).enqueued@ == old(self).enqueued@,
            final(self).queue@ == old(self).queue@.remove(0),
            final(self).rows@ == old(self).rows@.push(
                (PersistedEvent { timestamp_ms: now_ms, payload: old(self).queue@[0] }),
            ),
    {
        let frame = self.queue.remove(0);
        self.rows.push(PersistedEvent { timestamp_ms: now_ms, payload: frame });
        proof {
            assert(self.row_payloads() =~= old(self).row_payloads().push(
                old(self).queue@[0]@,
            ));
            assert(self.queued_frames() =~= old(self).queued_frames().skip(1));
            assert(self.row_payloads() + self.queued_frames() =~= self.enqueued@);
        }
    }

    /// Stamp the oldest queued frame with the wall clock and make it
    /// durable. Returns `false` and leaves the pipeline unchanged when the
    /// clock reads before the session start, so a row stamped out of range
    /// is never written.
    pub fn persist_with_clock(&mut self) -> (r: bool)
        requires
            old(self).wf(),
            old(self).queue@.len() > 0,
        ensures
            final(self).wf(),
            final(self).start_ms == old(self).start_ms,
            final(self).enqueued@ == old(self).enqueued@,
            r ==> final(self).queue@ == old(self).queue@.remove(0) && final(self).rows@.len()
                == old(self).rows@.len() + 1 && final(self).rows@.last().payload
                == old(self).queue@[0] && final(self).rows@.last().timestamp_ms
                >= old(self).start_ms && final(self).rows@ == old(self).rows@.push(
                final(self).rows@.last(),
            ),
            !r ==> *final(self) == *old(self),
    {
        let now = now_millis();
        if now >= self.start_ms {
            self.persist_next(now);
            true
        } else {
            false
        }
    }
}

/// Scrub one raw read and forward what survives: a frame that still carries
/// a nonzero byte is enqueued, exactly once and in arrival order, and comes
/// back rendered as a hex list for the console; any other frame is
/// discarded, leaving the pipeline untouched.
pub fn process_frame(log: &mut CaptureLog, raw: &Vec<u8>) -> (display: Option<String>)
    requires
        old(log).wf(),
    ensures
        final(log).wf(),
        final(log).start_ms == old(log).start_ms,
        final(log).rows@ == old(log).rows@,
        frame_kept(raw@) ==> {
            &&& final(log).enqueued@ == old(log).enqueued@.push(scrub(raw@))
            &&& final(log).queued_frames() == old(log).queued_frames().push(
                scrub(raw@),
            )
            &&& display matches Some(s) && s@ == hex_list(scrub(raw@))
        },
        !frame_kept(raw@) ==> *final(log) == *old(log) && display is None,
{
    match clean(raw) {
        Some(cleaned) => {
            let text = format_frame_hex(&cleaned);
            let ghost c = cleaned@;
            log.enqueue(cleaned);
            proof {
                assert(log.queued_frames() =~= old(log).queued_frames().push(c));
            }
            Some(text)
        },
        None => None,
    }
}

/// Law: round-trip order. In every well-formed pipeline state, row `i`
/// persists exactly the `i`-th frame ever enqueued — frames reach storage
/// in the order they were read — and every row is stamped at or after the
/// session start.
pub proof fn lemma_roundtrip_order(log: CaptureLog)
    requires
        log.wf(),
    ensures
        log.rows@.len() <= log.enqueued@.len(),
        forall|i: int|
            0 <= i < log.rows@.len() ==> (#[trigger] log.rows@[i]).payload@ == log.enqueued@[i],
        forall|i: int|
            0 <= i < log.rows@.len() ==> (#[trigger] log.rows@[i]).timestamp_ms >= log.start_ms,
{
    assert(log.row_payloads() + log.queued_frames() == log.enqueued@);
    assert forall|i: int| 0 <= i < log.rows@.len() implies (#[trigger] log.rows@[i]).payload@
        == log.enqueued@[i] by {
        assert(log.enqueued@[i] == (log.row_payloads() + log.queued_frames())[i]);
        assert((log.row_payloads() + log.queued_frames())[i] == log.row_payloads()[i]);
    }
}

/// Law: empty or all-zero frames are never observed in storage. In every
/// well-formed pipeline state, each row's payload is non-empty and holds a
/// nonzero byte.
pub proof fn lemma_rows_never_noise(log: CaptureLog)
    requires
        log.wf(),
    ensures
        forall|i: int|
            0 <= i < log.rows@.len() ==> (#[trigger] log.rows@[i]).payload@.len() > 0 && !all_zero(
                log.rows@[i].payload@,
            ),
{
    assert forall|i: int| 0 <= i < log.rows@.len() implies (#[trigger] log.rows@[i]).payload@.len()
        > 0 && !all_zero(log.rows@[i].payload@) by {
        assert(log.enqueued@[i] == (log.row_payloads() + log.queued_frames())[i]);
        assert((log.row_payloads() + log.queued_frames())[i] == log.row_payloads()[i]);
        assert(log.row_payloads()[i] == log.rows@[i].payload@);
    }
}

} // verus!
