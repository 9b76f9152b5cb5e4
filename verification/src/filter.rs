//! Signal cleanup: a single-pass scrub that removes known noise byte
//! patterns from a raw read and discards frames that reduce to nothing of
//! interest.
//!
//! The scrub walks the byte sequence left to right with a cursor. At each
//! step, in order:
//! - if the byte at index 0 of the live (shrinking) sequence is `0x00`, the
//!   element at the cursor is removed and the cursor advances (the test
//!   deliberately reads index 0, not the cursor: a known oddity of the rule,
//!   kept as is);
//! - if the two bytes at the cursor are `0x0F, 0xF8` (timing-clock-like
//!   marker) or `0x0F, 0xFE` (active-sensing-like marker), both are removed
//!   and the cursor does not advance;
//! - otherwise the cursor advances by one.
//!
//! The loop runs while `cursor + 1 < length`, so the final byte is never
//! inspected by the two-byte rules and is always retained.

use vstd::prelude::*;

verus! {

/// First byte of both two-byte noise markers.
pub const MARKER_LEAD: u8 = 0x0f;

/// Second byte of the timing-clock-like marker.
pub const MARKER_TIMING_CLOCK: u8 = 0xf8;

/// Second byte of the active-sensing-like marker.
pub const MARKER_ACTIVE_SENSING: u8 = 0xfe;

/// The two bytes at `i` form one of the recognised noise markers.
pub open spec fn marker_pair_at(s: Seq<u8>, i: int) -> bool {
    s[i] == MARKER_LEAD && (s[i + 1] == MARKER_TIMING_CLOCK || s[i + 1] == MARKER_ACTIVE_SENSING)
}

/// The scrub, resumed with the cursor at `i`.
pub open spec fn scrub_from(s: Seq<u8>, i: nat) -> Seq<u8>
    decreases s.len() - i,
{
    if i + 1 >= s.len() {
        s
    } else if s[0] == 0u8 {
        scrub_from(s.remove(i as int), i + 1)
    } else if marker_pair_at(s, i as int) {
        scrub_from(s.remove(i as int).remove(i as int), i)
    } else {
        scrub_from(s, i + 1)
    }
}

/// What the scrub leaves of a raw frame.
pub open spec fn scrub(s: Seq<u8>) -> Seq<u8> {
    scrub_from(s, 0)
}

/// Every byte is `0x00`; vacuously true of the empty sequence.
pub open spec fn all_zero(s: Seq<u8>) -> bool {
    forall|k: int| 0 <= k < s.len() ==> s[k] == 0u8
}

/// A scrubbed frame worth keeping: it still carries a nonzero byte.
pub open spec fn frame_kept(raw: Seq<u8>) -> bool {
    !all_zero(scrub(raw))
}

/// Scrub one raw frame. Returns the cleaned frame, or `None` when every
/// surviving byte is `0x00` (the empty result included) and the frame is
/// discarded.
pub fn clean(raw: &Vec<u8>) -> (r: Option<Vec<u8>>)
    ensures
        match r {
            Some(c) => frame_kept(raw@) && c@ == scrub(raw@) && !all_zero(c@) && c@.len() > 0,
            None => !frame_kept(raw@),
        },
{
    let mut v: Vec<u8> = Vec::new();
    let mut n: usize = 0;
    while n < raw.len()
        invariant
            n <= raw@.len(),
            v@ == raw@.take(n as int),
        decreases raw@.len() - n,
    {
        v.push(raw[n]);
        n += 1;
    }
    proof {
        assert(v@ == raw@) by {
            assert(raw@.take(raw@.len() as int) =~= raw@);
        }
    }

    let mut i: usize = 0;
    while v.len() > 0 && i < v.len() - 1
        invariant
            i <= v@.len(),
            scrub_from(v@, i as nat) == scrub(raw@),
        decreases v@.len() - i,
    {
        let mut do_inc = true;
        if v[0] == 0x00 {
            v.remove(i);
        } else if v[i] == MARKER_LEAD && v[i + 1] == MARKER_TIMING_CLOCK {
            v.remove(i);
            v.remove(i);
            do_inc = false;
        } else if v[i] == MARKER_LEAD && v[i + 1] == MARKER_ACTIVE_SENSING {
            v.remove(i);
            v.remove(i);
            do_inc = false;
        }
        if do_inc {
            i += 1;
        }
    }
    assert(v@ == scrub(raw@));

    let mut saw_nonzero = false;
    let mut j: usize = 0;
    while j < v.len()
        invariant
            j <= v@.len(),
            saw_nonzero <==> exists|k: int| 0 <= k < j && v@[k] != 0u8,
        decreases v@.len() - j,
    {
        if v[j] != 0x00 {
            saw_nonzero = true;
        }
        j += 1;
    }

    if saw_nonzero {
        Some(v)
    } else {
        None
    }
}

} // verus!
