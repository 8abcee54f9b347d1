//! The laws the scanner keeps across operations: matches stay inside their
//! region, refinement only ever narrows, and a write of the target value
//! followed by a refinement with the same target keeps every address.

use vstd::prelude::*;

use crate::config::{width_of, FilterOption};
use crate::numeric::{decode_le, lemma_decode_le_agree};
use crate::region::kind_refine_ok;
use crate::target::target_pattern;
use crate::scan::{kind_scan_ok, matches_at, strictly_ascending};

verus! {

/// Law: every offset a scan reports leaves room for its interpretation's
/// window inside the snapshot, so every match lies strictly inside the
/// region it was found in.
pub proof fn lemma_scan_offsets_in_range(
    v: Seq<usize>,
    buffer: Seq<u8>,
    f: FilterOption,
    filters: Seq<FilterOption>,
    target: Seq<u8>,
)
    requires
        kind_scan_ok(v, buffer, f, filters, target),
    ensures
        forall|i: int| 0 <= i < v.len() ==> #[trigger] v[i] + width_of(f) <= buffer.len(),
{
    assert forall|i: int| 0 <= i < v.len() implies #[trigger] v[i] + width_of(f) <= buffer.len() by {
        assert(v.contains(v[i]));
    }
}

/// Law: a refinement only narrows — every offset retained for an
/// interpretation was present for that interpretation before the refinement.
pub proof fn lemma_refine_subset(
    v: Seq<usize>,
    prev: Seq<usize>,
    buffer: Seq<u8>,
    f: FilterOption,
    filters: Seq<FilterOption>,
    target: Seq<u8>,
)
    requires
        kind_refine_ok(v, prev, buffer, f, filters, target),
    ensures
        forall|x: usize| #[trigger] v.contains(x) ==> prev.contains(x),
{
}

/// The bytes of `s` with `bytes` stored at offset `o`.
pub open spec fn store_bytes(s: Seq<u8>, o: int, bytes: Seq<u8>) -> Seq<u8> {
    Seq::new(
        s.len(),
        |i: int|
            if o <= i < o + bytes.len() {
                bytes[i - o]
            } else {
                s[i]
            },
    )
}

/// The bytes of `s` after one write sweep: `bytes` stored at every offset of
/// `offs`, first to last.
pub open spec fn apply_writes(s: Seq<u8>, offs: Seq<usize>, bytes: Seq<u8>) -> Seq<u8>
    decreases offs.len(),
{
    if offs.len() == 0 {
        s
    } else {
        apply_writes(store_bytes(s, offs[0] as int, bytes), offs.skip(1), bytes)
    }
}

/// Offsets spaced at least a window apart: no write of the sweep touches
/// another offset's window.
pub open spec fn non_overlapping(offs: Seq<usize>, w: nat) -> bool {
    forall|k: int| 0 <= k < offs.len() - 1 ==> #[trigger] offs[k] + w <= offs[k + 1]
}

/// After a write sweep over ascending, non-overlapping offsets, the window at
/// every swept offset holds exactly the written bytes, and everything below
/// the first offset is untouched.
pub proof fn lemma_apply_writes_decode(s: Seq<u8>, offs: Seq<usize>, bytes: Seq<u8>)
    requires
        bytes.len() >= 1,
        strictly_ascending(offs),
        forall|k: int| 0 <= k < offs.len() ==> #[trigger] offs[k] + bytes.len() <= s.len(),
        non_overlapping(offs, bytes.len()),
    ensures
        apply_writes(s, offs, bytes).len() == s.len(),
        forall|k: int|
            0 <= k < offs.len() ==> decode_le(
                apply_writes(s, offs, bytes),
                #[trigger] offs[k] as int,
                bytes.len(),
            ) == decode_le(bytes, 0, bytes.len()),
        forall|i: int|
            0 <= i < s.len() && (offs.len() > 0 ==> i < offs[0]) ==> #[trigger] apply_writes(
                s,
                offs,
                bytes,
            )[i] == s[i],
    decreases offs.len(),
{
    if offs.len() > 0 {
        let w = bytes.len();
        let o0 = offs[0] as int;
        let stored = store_bytes(s, o0, bytes);
        let tail = offs.skip(1);
        assert forall|k: int| 0 <= k < tail.len() implies #[trigger] tail[k] + w
            <= stored.len() by {
            assert(tail[k] == offs[k + 1]);
        }
        assert(strictly_ascending(tail) && non_overlapping(tail, w)) by {
            assert forall|i: int, j: int| 0 <= i < j < tail.len() implies #[trigger] tail[i]
                < #[trigger] tail[j] by {
                assert(tail[i] == offs[i + 1] && tail[j] == offs[j + 1]);
            }
            assert forall|k: int| 0 <= k < tail.len() - 1 implies #[trigger] tail[k] + w <= tail[k
                + 1] by {
                assert(tail[k] == offs[k + 1] && tail[k + 1] == offs[k + 2]);
            }
        }
        lemma_apply_writes_decode(stored, tail, bytes);
        let fin = apply_writes(s, offs, bytes);
        assert(fin == apply_writes(stored, tail, bytes));
        // The first window survives the rest of the sweep untouched and holds
        // the written bytes.
        assert(decode_le(fin, o0, w) == decode_le(bytes, 0, w)) by {
            assert forall|i: int| 0 <= i < w implies #[trigger] fin[o0 + i] == bytes[i] by {
                if tail.len() > 0 {
                    assert(o0 + w <= offs[1] == tail[0]);
                }
                assert(fin[o0 + i] == stored[o0 + i]);
                assert(stored[o0 + i] == bytes[i]);
            }
            lemma_decode_le_agree(fin, o0, bytes, 0, w);
        }
        // The later windows are placed by the recursive sweep.
        assert forall|k: int| 0 <= k < offs.len() implies decode_le(
            fin,
            #[trigger] offs[k] as int,
            w,
        ) == decode_le(bytes, 0, w) by {
            if k > 0 {
                assert(tail[k - 1] == offs[k]);
            }
        }
        // Below the first offset nothing changed: the store skipped it and the
        // recursive sweep only touches offsets at or above the second one.
        assert forall|i: int| 0 <= i < s.len() && i < offs[0] implies #[trigger] fin[i] == s[i] by {
            if tail.len() > 0 {
                assert(i < offs[0] < offs[1] == tail[0]);
            }
            assert(fin[i] == stored[i]);
        }
    }
}

/// Two ascending duplicate-free lists with the same members are the same
/// list.
pub proof fn lemma_sorted_unique_equal(a: Seq<usize>, b: Seq<usize>)
    requires
        strictly_ascending(a),
        strictly_ascending(b),
        forall|x: usize| #[trigger] a.contains(x) <==> b.contains(x),
    ensures
        a == b,
    decreases a.len(),
{
    if a.len() == 0 {
        if b.len() > 0 {
            assert(b.contains(b[0]));
            assert(a.contains(b[0]));
        }
        assert(a =~= b);
    } else {
        assert(a.contains(a[0]));
        assert(b.contains(a[0]));
        assert(b.len() > 0);
        assert(b.contains(b[0]));
        assert(a.contains(b[0]));
        let ma = choose|m: int| 0 <= m < b.len() && b[m] == a[0];
        let mb = choose|m: int| 0 <= m < a.len() && a[m] == b[0];
        assert(b[0] <= b[ma] && a[0] <= a[mb]);
        assert(a[0] == b[0]);
        let at = a.skip(1);
        let bt = b.skip(1);
        assert(strictly_ascending(at) && strictly_ascending(bt)) by {
            assert forall|i: int, j: int| 0 <= i < j < at.len() implies #[trigger] at[i]
                < #[trigger] at[j] by {
                assert(at[i] == a[i + 1] && at[j] == a[j + 1]);
            }
            assert forall|i: int, j: int| 0 <= i < j < bt.len() implies #[trigger] bt[i]
                < #[trigger] bt[j] by {
                assert(bt[i] == b[i + 1] && bt[j] == b[j + 1]);
            }
        }
        assert forall|x: usize| #[trigger] at.contains(x) <==> bt.contains(x) by {
            assert(at.contains(x) <==> (a.contains(x) && x > a[0])) by {
                lemma_tail_membership(a, x);
            }
            assert(bt.contains(x) <==> (b.contains(x) && x > b[0])) by {
                lemma_tail_membership(b, x);
            }
        }
        lemma_sorted_unique_equal(at, bt);
        assert(a =~= b) by {
            assert forall|i: int| 0 <= i < a.len() implies a[i] == b[i] by {
                if i > 0 {
                    assert(at[i - 1] == a[i] && bt[i - 1] == b[i]);
                }
            }
        }
    }
}

/// In an ascending duplicate-free list, the members of the tail are exactly
/// the members greater than the head.
proof fn lemma_tail_membership(a: Seq<usize>, x: usize)
    requires
        strictly_ascending(a),
        a.len() > 0,
    ensures
        a.skip(1).contains(x) <==> (a.contains(x) && x > a[0]),
{
    let at = a.skip(1);
    if at.contains(x) {
        let m = choose|m: int| 0 <= m < at.len() && at[m] == x;
        assert(at[m] == a[m + 1]);
        assert(a.contains(x));
        assert(a[0] < a[m + 1]);
    }
    if a.contains(x) && x > a[0] {
        let m = choose|m: int| 0 <= m < a.len() && a[m] == x;
        assert(m > 0);
        assert(at[m - 1] == a[m]);
        assert(at.contains(x));
    }
}

/// Law: writing the target value at every retained offset, then refining with
/// the same target against a snapshot taken after the sweep, keeps every
/// offset — provided no other writer intervened and no two retained windows
/// overlap (`non_overlapping`; a sweep over overlapping windows can destroy
/// its own earlier writes).
pub proof fn lemma_write_refine_round_trip(
    before: Seq<u8>,
    prev: Seq<usize>,
    bytes: Seq<u8>,
    p: u64,
    refined: Seq<usize>,
)
    requires
        1 <= bytes.len() <= 8,
        decode_le(bytes, 0, bytes.len()) == p,
        strictly_ascending(prev),
        forall|k: int| 0 <= k < prev.len() ==> #[trigger] prev[k] + bytes.len() <= before.len(),
        non_overlapping(prev, bytes.len()),
        strictly_ascending(refined),
        forall|x: usize| #[trigger]
            refined.contains(x) <==> (prev.contains(x) && matches_at(
                apply_writes(before, prev, bytes),
                bytes.len(),
                p,
                x as int,
            )),
    ensures
        refined == prev,
{
    lemma_apply_writes_decode(before, prev, bytes);
    let snap = apply_writes(before, prev, bytes);
    assert forall|x: usize| #[trigger]
        prev.contains(x) implies matches_at(snap, bytes.len(), p, x as int) by {
        let k = choose|k: int| 0 <= k < prev.len() && prev[k] == x;
        assert(decode_le(snap, prev[k] as int, bytes.len()) == decode_le(bytes, 0, bytes.len()));
    }
    lemma_sorted_unique_equal(refined, prev);
}

/// The same round trip at the level of one interpretation's refinement
/// contract: a refinement of `prev` for `f`, run with target `target` against
/// a snapshot taken after the target's bytes were written at every offset of
/// `prev`, keeps `prev` exactly.
pub proof fn lemma_write_refine_round_trip_kind(
    before: Seq<u8>,
    prev: Seq<usize>,
    bytes: Seq<u8>,
    refined: Seq<usize>,
    f: FilterOption,
    filters: Seq<FilterOption>,
    target: Seq<u8>,
)
    requires
        filters.contains(f),
        target_pattern(f, target) is Some,
        bytes.len() == width_of(f),
        decode_le(bytes, 0, bytes.len()) == target_pattern(f, target)->Some_0,
        strictly_ascending(prev),
        forall|k: int| 0 <= k < prev.len() ==> #[trigger] prev[k] + bytes.len() <= before.len(),
        non_overlapping(prev, bytes.len()),
        strictly_ascending(refined),
        kind_refine_ok(refined, prev, apply_writes(before, prev, bytes), f, filters, target),
    ensures
        refined == prev,
{
    lemma_write_refine_round_trip(
        before,
        prev,
        bytes,
        target_pattern(f, target)->Some_0,
        refined,
    );
}

} // verus!
