//! The per-endpoint transfer session: the loop state machine, the bounded
//! raw frame a successful read yields, and the kernel-driver arbitration
//! around the loop. Detach and attach must be paired regardless of how the
//! loop exits: a scoped-resource guarantee, stated over the session's action
//! trace.

use vstd::prelude::*;

verus! {

broadcast use vstd::seq_lib::lemma_seq_skip_index, vstd::seq_lib::lemma_seq_skip_len;

/// Largest number of bytes one read may return; a short read is normal.
pub const FRAME_CAPACITY: usize = 256;

/// Seconds one blocking transfer may take before it times out.
pub const TRANSFER_TIMEOUT_SECS: u64 = 1;

/// State of one endpoint's transfer loop.
#[derive(Clone, Copy, PartialEq, Eq, Structural, Debug)]
pub enum LoopState {
    Idle,
    Reading,
    Terminated,
}

/// What one blocking read came back with. A timed-out read counts as
/// `Failed`: it is terminal for the loop, like any other transfer error.
#[derive(Clone, Copy, PartialEq, Eq, Structural, Debug)]
pub enum ReadOutcome {
    Received { len: usize },
    Failed,
}

/// Enter the loop once the endpoint is configured.
pub fn begin_reading(state: LoopState) -> (next: LoopState)
    requires
        state == LoopState::Idle,
    ensures
        next == LoopState::Reading,
{
    LoopState::Reading
}

/// Advance the loop after one read: keep reading on success, terminate on
/// any error. No retry happens at this level.
pub fn after_read(state: LoopState, outcome: ReadOutcome) -> (next: LoopState)
    requires
        state == LoopState::Reading,
    ensures
        next == (if outcome is Failed {
            LoopState::Terminated
        } else {
            LoopState::Reading
        }),
{
    match outcome {
        ReadOutcome::Received { .. } => LoopState::Reading,
        ReadOutcome::Failed => LoopState::Terminated,
    }
}

/// The bytes of one successful read: a declared length never beyond the
/// backing capacity.
#[derive(Debug)]
pub struct RawFrame {
    pub bytes: Vec<u8>,
}

impl RawFrame {
    /// A raw frame never exceeds the fixed read capacity.
    pub open spec fn wf(self) -> bool {
        self.bytes@.len() <= FRAME_CAPACITY
    }
}

/// Truncate one read's buffer to the length the transport reported,
/// yielding the raw frame forwarded to the cleanup filter.
pub fn raw_frame_from_read(buf: &Vec<u8>, len: usize) -> (r: RawFrame)
    requires
        len <= buf@.len(),
        len <= FRAME_CAPACITY,
    ensures
        r.wf(),
        r.bytes@ == buf@.take(len as int),
{
    let mut bytes: Vec<u8> = Vec::new();
    let mut n: usize = 0;
    while n < len
        invariant
            n <= len <= buf@.len(),
            bytes@ == buf@.take(n as int),
        decreases len - n,
    {
        bytes.push(buf[n]);
        proof {
            assert(buf@.take(n as int).push(buf@[n as int]) =~= buf@.take(n as int + 1));
        }
        n += 1;
    }
    RawFrame { bytes }
}

/// One observable transport action during an endpoint session.
#[derive(Clone, Copy, PartialEq, Eq, Structural, Debug)]
pub enum SessionAction {
    DetachDriver,
    Configure,
    Read,
    AttachDriver,
}

/// The reads the loop performs for a given script of outcomes: one per
/// scripted outcome up to and including the first failure; the script
/// running out stands for process shutdown.
pub open spec fn read_trace(reads: Seq<ReadOutcome>) -> Seq<SessionAction>
    decreases reads.len(),
{
    if reads.len() == 0 {
        Seq::empty()
    } else if reads[0] is Failed {
        seq![SessionAction::Read]
    } else {
        seq![SessionAction::Read] + read_trace(reads.skip(1))
    }
}

/// The full action trace of one endpoint session: detach if a kernel driver
/// owned the interface, one configuration attempt, the reads (only when
/// configuration succeeded), and — paired with the detach, on every exit
/// path — the reattach.
pub open spec fn session_trace(
    kernel_driver_active: bool,
    configure_ok: bool,
    reads: Seq<ReadOutcome>,
) -> Seq<SessionAction> {
    let head: Seq<SessionAction> = if kernel_driver_active {
        seq![SessionAction::DetachDriver]
    } else {
        Seq::empty()
    };
    let body: Seq<SessionAction> = if configure_ok {
        seq![SessionAction::Configure] + read_trace(reads)
    } else {
        seq![SessionAction::Configure]
    };
    let tail: Seq<SessionAction> = if kernel_driver_active {
        seq![SessionAction::AttachDriver]
    } else {
        Seq::empty()
    };
    head + body + tail
}

/// Run one endpoint session against a script of read outcomes, recording
/// every transport action in order. This is the decision structure of the
/// real loop: the caller performs the actions and hands back the outcomes.
pub fn simulate_session(
    kernel_driver_active: bool,
    configure_ok: bool,
    reads: &Vec<ReadOutcome>,
) -> (log: Vec<SessionAction>)
    ensures
        log@ == session_trace(kernel_driver_active, configure_ok, reads@),
{
    let ghost full = session_trace(kernel_driver_active, configure_ok, reads@);
    let ghost tail: Seq<SessionAction> = if kernel_driver_active {
        seq![SessionAction::AttachDriver]
    } else {
        Seq::empty()
    };

    let mut log: Vec<SessionAction> = Vec::new();
    if kernel_driver_active {
        log.push(SessionAction::DetachDriver);
    }
    log.push(SessionAction::Configure);

    if configure_ok {
        proof {
            assert(reads@.skip(0) =~= reads@);
            assert(log@ + read_trace(reads@) + tail =~= full);
        }
        let mut n: usize = 0;
        let mut failed = false;
        while n < reads.len() && !failed
            invariant
                n <= reads@.len(),
                failed ==> log@ + tail == full,
                !failed ==> log@ + read_trace(reads@.skip(n as int)) + tail == full,
            decreases reads@.len() - n,
        {
            let outcome = reads[n];
            let ghost logpre = log@;
            log.push(SessionAction::Read);
            proof {
                assert(reads@.skip(n as int)[0] == reads@[n as int]);
                assert(reads@.skip(n as int).skip(1) =~= reads@.skip(n as int + 1));
                assert(log@ =~= logpre + seq![SessionAction::Read]);
            }
            match outcome {
                ReadOutcome::Received { .. } => {
                    proof {
                        assert(logpre + (seq![SessionAction::Read] + read_trace(
                            reads@.skip(n as int + 1),
                        )) + tail =~= log@ + read_trace(reads@.skip(n as int + 1)) + tail);
                    }
                },
                ReadOutcome::Failed => {
                    failed = true;
                    proof {
                        assert(read_trace(reads@.skip(n as int)) =~= seq![SessionAction::Read]);
                        assert(logpre + seq![SessionAction::Read] + tail =~= log@ + tail);
                    }
                },
            }
            n += 1;
        }
        proof {
            if !failed {
                assert(reads@.skip(n as int).len() == 0);
                assert(log@ + read_trace(reads@.skip(n as int)) + tail =~= log@ + tail);
            }
        }
    } else {
        proof {
            assert(log@ + tail =~= full);
        }
    }

    let ghost logpre = log@;
    if kernel_driver_active {
        log.push(SessionAction::AttachDriver);
        proof {
            assert(log@ =~= logpre + tail);
        }
    } else {
        proof {
            assert(log@ =~= logpre + tail);
        }
    }
    log
}

proof fn lemma_read_trace_only_reads(reads: Seq<ReadOutcome>)
    ensures
        forall|i: int|
            0 <= i < read_trace(reads).len() ==> #[trigger] read_trace(reads)[i]
                == SessionAction::Read,
    decreases reads.len(),
{
    if reads.len() == 0 {
    } else if reads[0] is Failed {
    } else {
        lemma_read_trace_only_reads(reads.skip(1));
        assert forall|i: int| 0 <= i < read_trace(reads).len() implies #[trigger] read_trace(
            reads,
        )[i] == SessionAction::Read by {
            if i > 0 {
                assert(read_trace(reads)[i] == read_trace(reads.skip(1))[i - 1]);
            }
        }
    }
}

/// Law: kernel-driver pairing. In every session where a driver was detached,
/// the trace opens with the detach and closes with exactly one reattach —
/// after the loop has ended, whether it ended by script exhaustion, by a
/// read error, or because configuration failed. Where no driver was
/// detached, no attach is ever observed.
pub proof fn lemma_driver_pairing(
    kernel_driver_active: bool,
    configure_ok: bool,
    reads: Seq<ReadOutcome>,
)
    ensures
        ({
            let log = session_trace(kernel_driver_active, configure_ok, reads);
            &&& kernel_driver_active ==> {
                &&& log.len() >= 2
                &&& log[0] == SessionAction::DetachDriver
                &&& log.last() == SessionAction::AttachDriver
                &&& forall|i: int|
                    0 < i < log.len() - 1 ==> #[trigger] log[i] != SessionAction::AttachDriver
                        && log[i] != SessionAction::DetachDriver
            }
            &&& !kernel_driver_active ==> forall|i: int|
                0 <= i < log.len() ==> #[trigger] log[i] != SessionAction::AttachDriver
                    && log[i] != SessionAction::DetachDriver
        }),
{
    lemma_read_trace_only_reads(reads);
}

} // verus!
