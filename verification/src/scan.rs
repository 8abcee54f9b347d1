//! The typed scanner: finds every offset of a snapshot at which the bytes,
//! read little-endian under an enabled interpretation, equal the target.
//!
//! The search runs over contiguous tiles of the snapshot, one per worker. A
//! value may straddle the seam between two adjacent tiles, so each tile
//! extends its upper end by one byte less than the interpretation's width;
//! the offsets the tiles report are then merged into one ascending,
//! duplicate-free list per interpretation.

use vstd::prelude::*;

use crate::config::{width_of, FilterOption};
use crate::numeric::{decode_at, decode_le};
use crate::target::{parse_target, target_pattern};

verus! {

broadcast use vstd::seq_lib::group_seq_properties;

/// An offset list that is strictly ascending, hence duplicate-free.
pub open spec fn strictly_ascending(s: Seq<usize>) -> bool {
    forall|i: int, j: int| 0 <= i < j < s.len() ==> #[trigger] s[i] < #[trigger] s[j]
}

/// Whether the window of `w` bytes at offset `j` of the snapshot `s` decodes
/// to the pattern `p`.
pub open spec fn matches_at(s: Seq<u8>, w: nat, p: u64, j: int) -> bool {
    &&& 0 <= j
    &&& j + w <= s.len()
    &&& decode_le(s, j, w) == p
}

/// The last offset a tile searches. Starting from the tile's nominal upper
/// end, the width is taken off so that every decode stays inside the buffer,
/// the tile is kept non-empty, the end is extended by `w - 1` so that matches
/// straddling the seam to the next tile are found, and finally everything is
/// clipped to the last legal decode offset of the whole buffer.
pub open spec fn tile_end(start: int, size: int, len: int, w: int) -> int {
    let e0 = start + size;
    let e1 = if e0 < w {
        0
    } else {
        e0 - w
    };
    let e2 = if e1 < start {
        start
    } else {
        e1
    };
    let e3 = if e2 + w < len {
        e2 + w - 1
    } else {
        e2
    };
    if e3 + w >= len {
        len - w
    } else {
        e3
    }
}

/// The offsets one tile reports: those within the tile's clipped, extended
/// range whose window decodes to the pattern. A tile whose start does not
/// leave room for one window reports nothing.
pub open spec fn tile_reports(s: Seq<u8>, w: nat, p: u64, start: int, size: int, j: int) -> bool {
    &&& w <= s.len()
    &&& start + w <= s.len()
    &&& start <= j <= tile_end(start, size, s.len() as int, w as int)
    &&& decode_le(s, j, w) == p
}

/// A tile's last offset lies between its start and the last legal decode
/// offset of the buffer.
pub proof fn lemma_tile_end_range(start: int, size: int, len: int, w: int)
    requires
        0 <= start,
        start + w <= len,
        1 <= w,
    ensures
        start <= tile_end(start, size, len, w) <= len - w,
{
}

/// Every offset of the tile's nominal range at which a whole window fits is
/// reached by the tile, seam positions included.
pub proof fn lemma_tile_covers(start: int, size: int, len: int, w: int, j: int)
    requires
        0 <= start <= j,
        j < start + size,
        j + w <= len,
        1 <= w,
    ensures
        j <= tile_end(start, size, len, w),
{
}

/// `a + b`, clamped to the greatest machine value.
pub(crate) fn sat_add(a: usize, b: usize) -> (r: usize)
    ensures
        r == if a + b <= usize::MAX {
            a + b
        } else {
            usize::MAX as int
        },
{
    if a > usize::MAX - b {
        usize::MAX
    } else {
        a + b
    }
}

/// Scans one tile: reports, in ascending order, every offset of the tile's
/// clipped and seam-extended range whose window decodes to `pattern`.
pub fn scan_tile(buffer: &[u8], width: usize, pattern: u64, start: usize, size: usize) -> (r: Vec<
    usize,
>)
    requires
        1 <= width <= 8,
    ensures
        strictly_ascending(r@),
        forall|j: usize| #[trigger]
            r@.contains(j) <==> tile_reports(
                buffer@,
                width as nat,
                pattern,
                start as int,
                size as int,
                j as int,
            ),
{
    let len: usize = buffer.len();
    let mut out: Vec<usize> = Vec::new();
    if len < width || start > len - width {
        assert(forall|j: usize| !out@.contains(j));
        return out;
    }
    // The spec arithmetic is unbounded; executable saturation does not change
    // the end because every saturated intermediate lies beyond the final clip.
    let e1: usize = {
        let a = sat_add(start, size);
        if a < width {
            0
        } else {
            a - width
        }
    };
    let e2: usize = if e1 < start {
        start
    } else {
        e1
    };
    let cand: usize = sat_add(e2, width - 1);
    let lim: usize = len - width;
    let end: usize = if cand > lim {
        lim
    } else {
        cand
    };
    proof {
        lemma_tile_end_range(start as int, size as int, len as int, width as int);
        assert(end == tile_end(start as int, size as int, len as int, width as int));
    }
    let mut j: usize = start;
    while j <= end
        invariant
            start <= j <= end + 1,
            end <= len - width,
            width <= len == buffer@.len(),
            start + width <= len,
            1 <= width <= 8,
            end == tile_end(start as int, size as int, len as int, width as int),
            strictly_ascending(out@),
            forall|m: int| 0 <= m < out@.len() ==> #[trigger] out@[m] < j,
            forall|x: usize| #[trigger]
                out@.contains(x) <==> (start <= x < j && decode_le(buffer@, x as int, width as nat)
                    == pattern),
        decreases end + 1 - j,
    {
        if decode_at(buffer, j, width) == pattern {
            out.push(j);
        }
        j = j + 1;
    }
    out
}

/// Merges two ascending duplicate-free offset lists into one, keeping one
/// copy of an offset both lists hold: the post-tile deduplication that
/// resolves ties between adjacent tiles.
pub fn merge_sorted(a: &Vec<usize>, b: &Vec<usize>) -> (r: Vec<usize>)
    requires
        strictly_ascending(a@),
        strictly_ascending(b@),
    ensures
        strictly_ascending(r@),
        forall|x: usize| #[trigger] r@.contains(x) <==> (a@.contains(x) || b@.contains(x)),
{
    let na: usize = a.len();
    let nb: usize = b.len();
    let mut out: Vec<usize> = Vec::new();
    let mut i: usize = 0;
    let mut k: usize = 0;
    while i < na || k < nb
        invariant
            0 <= i <= na == a@.len(),
            0 <= k <= nb == b@.len(),
            strictly_ascending(a@),
            strictly_ascending(b@),
            strictly_ascending(out@),
            forall|m: int| 0 <= m < out@.len() && i < na ==> #[trigger] out@[m] < a@[i as int],
            forall|m: int| 0 <= m < out@.len() && k < nb ==> #[trigger] out@[m] < b@[k as int],
            forall|x: usize| #[trigger]
                out@.contains(x) <==> (a@.take(i as int).contains(x) || b@.take(
                    k as int,
                ).contains(x)),
        decreases (na - i) + (nb - k),
    {
        let ghost prev_i = i as int;
        let ghost prev_k = k as int;
        let take_a = i < na && (k >= nb || a[i] <= b[k]);
        let v: usize;
        if take_a {
            v = a[i];
            if k < nb && b[k] == v {
                k = k + 1;
            }
            i = i + 1;
        } else {
            v = b[k];
            k = k + 1;
        }
        out.push(v);
        proof {
            assert(a@.take(i as int) =~= if i as int == prev_i {
                a@.take(prev_i)
            } else {
                a@.take(prev_i).push(a@[prev_i])
            });
            assert(b@.take(k as int) =~= if k as int == prev_k {
                b@.take(prev_k)
            } else {
                b@.take(prev_k).push(b@[prev_k])
            });
        }
    }
    proof {
        assert(a@.take(na as int) =~= a@);
        assert(b@.take(nb as int) =~= b@);
    }
    out
}

/// The offsets at which each interpretation matched, one ascending
/// duplicate-free list per interpretation.
#[derive(Clone, Debug)]
pub struct AddressMatch {
    pub U8: Vec<usize>,
    pub U16: Vec<usize>,
    pub U32: Vec<usize>,
    pub U64: Vec<usize>,
    pub I32: Vec<usize>,
    pub I64: Vec<usize>,
    pub F32: Vec<usize>,
    pub F64: Vec<usize>,
}

/// The offset list an `AddressMatch` holds for the interpretation `f`.
pub open spec fn kind_entries(am: AddressMatch, f: FilterOption) -> Seq<usize> {
    match f {
        FilterOption::U8 => am.U8@,
        FilterOption::U16 => am.U16@,
        FilterOption::U32 => am.U32@,
        FilterOption::U64 => am.U64@,
        FilterOption::I32 => am.I32@,
        FilterOption::I64 => am.I64@,
        FilterOption::F32 => am.F32@,
        FilterOption::F64 => am.F64@,
    }
}

/// The total number of offsets over all eight interpretations.
pub open spec fn total_entries(am: AddressMatch) -> nat {
    am.U8@.len() + am.U16@.len() + am.U32@.len() + am.U64@.len() + am.I32@.len() + am.I64@.len()
        + am.F32@.len() + am.F64@.len()
}

impl AddressMatch {
    /// An `AddressMatch` with no offsets at all.
    pub fn new() -> (r: AddressMatch)
        ensures
            total_entries(r) == 0,
            forall|f: FilterOption| #[trigger] kind_entries(r, f).len() == 0,
    {
        AddressMatch {
            U8: vec![],
            U16: vec![],
            U32: vec![],
            U64: vec![],
            I32: vec![],
            I64: vec![],
            F32: vec![],
            F64: vec![],
        }
    }

    /// The total number of offsets over all eight interpretations.
    pub fn len(&self) -> (r: usize)
        requires
            total_entries(*self) <= usize::MAX,
        ensures
            r == total_entries(*self),
    {
        self.U8.len() + self.U16.len() + self.U32.len() + self.U64.len() + self.I32.len()
            + self.I64.len() + self.F32.len() + self.F64.len()
    }

    /// Whether no interpretation has any offset left.
    pub fn is_empty(&self) -> (r: bool)
        ensures
            r <==> total_entries(*self) == 0,
    {
        self.U8.len() == 0 && self.U16.len() == 0 && self.U32.len() == 0 && self.U64.len() == 0
            && self.I32.len() == 0 && self.I64.len() == 0 && self.F32.len() == 0 && self.F64.len()
            == 0
    }
}

/// Keeps, in order, exactly the previously found offsets whose window in the
/// fresh snapshot still decodes to the new pattern: the narrowing step of a
/// successive refinement. Every retained offset was present before.
pub fn refine_offsets(buffer: &[u8], page_matches: &Vec<usize>, width: usize, pattern: u64) -> (r:
    Vec<usize>)
    requires
        1 <= width <= 8,
        strictly_ascending(page_matches@),
        forall|m: int|
            0 <= m < page_matches@.len() ==> #[trigger] page_matches@[m] + width <= buffer@.len(),
    ensures
        strictly_ascending(r@),
        forall|x: usize| #[trigger]
            r@.contains(x) <==> (page_matches@.contains(x) && matches_at(
                buffer@,
                width as nat,
                pattern,
                x as int,
            )),
{
    let n: usize = page_matches.len();
    let mut out: Vec<usize> = Vec::new();
    let mut k: usize = 0;
    while k < n
        invariant
            0 <= k <= n == page_matches@.len(),
            1 <= width <= 8,
            strictly_ascending(page_matches@),
            forall|m: int|
                0 <= m < page_matches@.len() ==> #[trigger] page_matches@[m] + width
                    <= buffer@.len(),
            strictly_ascending(out@),
            forall|m: int|
                0 <= m < out@.len() && k < n ==> #[trigger] out@[m] < page_matches@[k as int],
            forall|x: usize| #[trigger]
                out@.contains(x) <==> (page_matches@.take(k as int).contains(x) && matches_at(
                    buffer@,
                    width as nat,
                    pattern,
                    x as int,
                )),
        decreases n - k,
    {
        let offset = page_matches[k];
        if decode_at(buffer, offset, width) == pattern {
            out.push(offset);
        }
        k = k + 1;
        proof {
            assert(page_matches@.take(k as int) =~= page_matches@.take(k - 1).push(
                page_matches@[k - 1],
            ));
        }
    }
    proof {
        assert(page_matches@.take(n as int) =~= page_matches@);
    }
    out
}

/// What one tile owes each interpretation `f`: an ascending duplicate-free
/// list holding exactly the tile's reports for `f`'s parsed target — nothing
/// when `f` is not enabled or its target does not parse.
pub open spec fn kind_tile_ok(
    v: Seq<usize>,
    buffer: Seq<u8>,
    f: FilterOption,
    filters: Seq<FilterOption>,
    target: Seq<u8>,
    start: int,
    size: int,
) -> bool {
    &&& strictly_ascending(v)
    &&& if filters.contains(f) {
        match target_pattern(f, target) {
            Some(p) => forall|j: usize| #[trigger]
                v.contains(j) <==> tile_reports(buffer, width_of(f), p, start, size, j as int),
            None => v.len() == 0,
        }
    } else {
        v.len() == 0
    }
}

/// What a whole scan owes each interpretation `f`: an ascending
/// duplicate-free list holding exactly the offsets of the buffer at which
/// `f`'s parsed target matches — nothing when `f` is not enabled or its
/// target does not parse.
pub open spec fn kind_scan_ok(
    v: Seq<usize>,
    buffer: Seq<u8>,
    f: FilterOption,
    filters: Seq<FilterOption>,
    target: Seq<u8>,
) -> bool {
    &&& strictly_ascending(v)
    &&& if filters.contains(f) {
        match target_pattern(f, target) {
            Some(p) => forall|j: usize| #[trigger]
                v.contains(j) <==> matches_at(buffer, width_of(f), p, j as int),
            None => v.len() == 0,
        }
    } else {
        v.len() == 0
    }
}

/// The scan of one tile under one interpretation: parses the target under
/// `filter` and reports the tile's matching offsets; a target the
/// interpretation cannot represent contributes nothing.
pub fn InitialCompareMemoryValue(
    filter: &FilterOption,
    target_value: &[u8],
    buffer: &[u8],
    start: usize,
    private_region_size: usize,
) -> (r: Vec<usize>)
    ensures
        strictly_ascending(r@),
        match target_pattern(*filter, target_value@) {
            Some(p) => forall|j: usize| #[trigger]
                r@.contains(j) <==> tile_reports(
                    buffer@,
                    width_of(*filter),
                    p,
                    start as int,
                    private_region_size as int,
                    j as int,
                ),
            None => r@.len() == 0,
        },
{
    match parse_target(filter, target_value) {
        Some(p) => scan_tile(buffer, filter.width(), p, start, private_region_size),
        None => Vec::new(),
    }
}

/// The scan of one tile under every enabled interpretation.
pub fn InitialMatchMemory(
    filter_list: &Vec<FilterOption>,
    target_value: &[u8],
    buffer: &[u8],
    start: usize,
    private_region_size: usize,
) -> (r: AddressMatch)
    ensures
        forall|f: FilterOption|
            kind_tile_ok(
                #[trigger] kind_entries(r, f),
                buffer@,
                f,
                filter_list@,
                target_value@,
                start as int,
                private_region_size as int,
            ),
{
    let mut match_address = AddressMatch::new();
    let n: usize = filter_list.len();
    let mut i: usize = 0;
    while i < n
        invariant
            0 <= i <= n == filter_list@.len(),
            forall|f: FilterOption|
                kind_tile_ok(
                    #[trigger] kind_entries(match_address, f),
                    buffer@,
                    f,
                    filter_list@.take(i as int),
                    target_value@,
                    start as int,
                    private_region_size as int,
                ),
        decreases n - i,
    {
        let filter = filter_list[i];
        let ghost before = match_address;
        let result = InitialCompareMemoryValue(
            &filter,
            target_value,
            buffer,
            start,
            private_region_size,
        );
        match filter {
            FilterOption::U8 => match_address.U8 = result,
            FilterOption::U16 => match_address.U16 = result,
            FilterOption::U32 => match_address.U32 = result,
            FilterOption::U64 => match_address.U64 = result,
            FilterOption::I32 => match_address.I32 = result,
            FilterOption::I64 => match_address.I64 = result,
            FilterOption::F32 => match_address.F32 = result,
            FilterOption::F64 => match_address.F64 = result,
        }
        proof {
            assert(filter_list@.take(i + 1) =~= filter_list@.take(i as int).push(filter));
            assert(filter_list@.take(i + 1).contains(filter));
            assert forall|f: FilterOption|
                kind_tile_ok(
                    #[trigger] kind_entries(match_address, f),
                    buffer@,
                    f,
                    filter_list@.take(i + 1),
                    target_value@,
                    start as int,
                    private_region_size as int,
                ) by {
                if f != filter {
                    assert(kind_entries(match_address, f) == kind_entries(before, f));
                    assert(filter_list@.take(i + 1).contains(f) <==> filter_list@.take(
                        i as int,
                    ).contains(f));
                }
            }
        }
        i = i + 1;
    }
    proof {
        assert(filter_list@.take(n as int) =~= filter_list@);
    }
    match_address
}

/// What the scan owes each interpretation once the tiles up to `covered` are
/// merged: everything reported so far matches, and every match below
/// `covered` is already reported.
pub open spec fn kind_scan_partial(
    v: Seq<usize>,
    buffer: Seq<u8>,
    f: FilterOption,
    filters: Seq<FilterOption>,
    target: Seq<u8>,
    covered: int,
) -> bool {
    &&& strictly_ascending(v)
    &&& if filters.contains(f) {
        match target_pattern(f, target) {
            Some(p) => {
                &&& (forall|j: usize| #[trigger]
                    v.contains(j) ==> matches_at(buffer, width_of(f), p, j as int))
                &&& (forall|j: usize|
                    matches_at(buffer, width_of(f), p, j as int) && j < covered ==> #[trigger] v.contains(
                        j,
                    ))
            },
            None => v.len() == 0,
        }
    } else {
        v.len() == 0
    }
}

/// The tile size of a scan of `len` bytes split over `p` workers: the
/// least size at which `p` contiguous tiles cover the whole buffer.
pub open spec fn tiles_size(len: nat, p: nat) -> nat {
    if p == 0 {
        0
    } else if len % p == 0 {
        len / p
    } else {
        len / p + 1
    }
}

/// `p` tiles of size `tiles_size(len, p)` reach the end of the buffer.
pub proof fn lemma_tiles_cover(len: nat, p: nat)
    requires
        p >= 1,
    ensures
        p * tiles_size(len, p) >= len,
{
    let q = (len as int) / (p as int);
    let r = (len as int) % (p as int);
    vstd::arithmetic::div_mod::lemma_fundamental_div_mod(len as int, p as int);
    vstd::arithmetic::div_mod::lemma_mod_division_less_than_divisor(len as int, p as int);
    if r == 0 {
        assert(p * tiles_size(len, p) == (p as int) * q);
    } else {
        assert((p as int) * (q + 1) == (p as int) * q + p) by (nonlinear_arith);
        assert(p * tiles_size(len, p) == (p as int) * (q + 1));
    }
}

/// Merging one more tile into the per-interpretation list extends the covered
/// prefix of the buffer to the tile's nominal upper end.
proof fn lemma_merge_tile_step(
    v_old: Seq<usize>,
    v_tile: Seq<usize>,
    v_new: Seq<usize>,
    buffer: Seq<u8>,
    f: FilterOption,
    filters: Seq<FilterOption>,
    target: Seq<u8>,
    start: int,
    size: int,
    new_covered: int,
)
    requires
        kind_scan_partial(v_old, buffer, f, filters, target, start),
        kind_tile_ok(v_tile, buffer, f, filters, target, start, size),
        strictly_ascending(v_new),
        forall|x: usize| #[trigger] v_new.contains(x) <==> (v_old.contains(x) || v_tile.contains(x)),
        0 <= start,
        start <= new_covered <= start + size,
        new_covered <= buffer.len(),
    ensures
        kind_scan_partial(v_new, buffer, f, filters, target, new_covered),
{
    if filters.contains(f) {
        match target_pattern(f, target) {
            Some(p) => {
                let w = width_of(f);
                assert forall|j: usize| #[trigger]
                    v_new.contains(j) implies matches_at(buffer, w, p, j as int) by {
                    if v_tile.contains(j) {
                        lemma_tile_end_range(start, size, buffer.len() as int, w as int);
                    }
                }
                assert forall|j: usize|
                    matches_at(buffer, w, p, j as int) && j < new_covered implies #[trigger] v_new.contains(
                    j,
                ) by {
                    if j < start {
                        assert(v_old.contains(j));
                    } else {
                        lemma_tile_covers(start, size, buffer.len() as int, w as int, j as int);
                        assert(tile_reports(buffer, w, p, start, size, j as int));
                        assert(v_tile.contains(j));
                    }
                }
            },
            None => {
                if v_new.len() > 0 {
                    assert(v_new.contains(v_new[0]));
                }
            },
        }
    } else {
        if v_new.len() > 0 {
            assert(v_new.contains(v_new[0]));
        }
    }
}

/// The full scan of one snapshot: splits the buffer into one tile per worker,
/// scans every tile under every enabled interpretation, and merges the
/// reports into one ascending duplicate-free list per interpretation that
/// holds exactly the buffer's matching offsets.
pub fn InitialMultithreadSearch(
    page_copy: &Vec<u8>,
    thread_count: usize,
    filter_list: &Vec<FilterOption>,
    target_value: &[u8],
) -> (r: AddressMatch)
    requires
        thread_count >= 1,
    ensures
        forall|f: FilterOption|
            kind_scan_ok(
                #[trigger] kind_entries(r, f),
                page_copy@,
                f,
                filter_list@,
                target_value@,
            ),
{
    let len: usize = page_copy.len();
    let quot: usize = len / thread_count;
    let rem: usize = len % thread_count;
    let size_per_thread: usize = if rem == 0 {
        quot
    } else {
        proof {
            vstd::arithmetic::div_mod::lemma_fundamental_div_mod(len as int, thread_count as int);
            vstd::arithmetic::div_mod::lemma_mod_division_less_than_divisor(
                len as int,
                thread_count as int,
            );
            assert(thread_count >= 2);
            assert(thread_count * quot >= 2 * quot) by (nonlinear_arith)
                requires
                    thread_count >= 2 && quot >= 0,
            ;
        }
        quot + 1
    };
    proof {
        assert(size_per_thread == tiles_size(len as nat, thread_count as nat));
        lemma_tiles_cover(len as nat, thread_count as nat);
    }
    let mut final_result = AddressMatch::new();
    let mut i: usize = 0;
    let mut start: usize = 0;
    loop
        invariant_except_break
            thread_count >= 1,
            0 <= i <= thread_count,
            len == page_copy@.len(),
            size_per_thread == tiles_size(len as nat, thread_count as nat),
            start <= len,
            start <= i * size_per_thread,
            start == i * size_per_thread || start == len,
            forall|f: FilterOption|
                kind_scan_partial(
                    #[trigger] kind_entries(final_result, f),
                    page_copy@,
                    f,
                    filter_list@,
                    target_value@,
                    start as int,
                ),
        ensures
            forall|f: FilterOption|
                kind_scan_partial(
                    #[trigger] kind_entries(final_result, f),
                    page_copy@,
                    f,
                    filter_list@,
                    target_value@,
                    len as int,
                ),
        decreases thread_count - i,
    {
        if i >= thread_count {
            proof {
                lemma_tiles_cover(len as nat, thread_count as nat);
                assert(start == len);
            }
            break;
        }
        if start >= len {
            break;
        }
        let result = InitialMatchMemory(
            filter_list,
            target_value,
            page_copy.as_slice(),
            start,
            size_per_thread,
        );
        let ghost before = final_result;
        let ghost old_start = start as int;
        proof {
            assert(kind_entries(final_result, FilterOption::U8) == final_result.U8@);
            assert(kind_entries(final_result, FilterOption::U16) == final_result.U16@);
            assert(kind_entries(final_result, FilterOption::U32) == final_result.U32@);
            assert(kind_entries(final_result, FilterOption::U64) == final_result.U64@);
            assert(kind_entries(final_result, FilterOption::I32) == final_result.I32@);
            assert(kind_entries(final_result, FilterOption::I64) == final_result.I64@);
            assert(kind_entries(final_result, FilterOption::F32) == final_result.F32@);
            assert(kind_entries(final_result, FilterOption::F64) == final_result.F64@);
            assert(kind_entries(result, FilterOption::U8) == result.U8@);
            assert(kind_entries(result, FilterOption::U16) == result.U16@);
            assert(kind_entries(result, FilterOption::U32) == result.U32@);
            assert(kind_entries(result, FilterOption::U64) == result.U64@);
            assert(kind_entries(result, FilterOption::I32) == result.I32@);
            assert(kind_entries(result, FilterOption::I64) == result.I64@);
            assert(kind_entries(result, FilterOption::F32) == result.F32@);
            assert(kind_entries(result, FilterOption::F64) == result.F64@);
        }
        final_result.U8 = merge_sorted(&final_result.U8, &result.U8);
        final_result.U16 = merge_sorted(&final_result.U16, &result.U16);
        final_result.U32 = merge_sorted(&final_result.U32, &result.U32);
        final_result.U64 = merge_sorted(&final_result.U64, &result.U64);
        final_result.I32 = merge_sorted(&final_result.I32, &result.I32);
        final_result.I64 = merge_sorted(&final_result.I64, &result.I64);
        final_result.F32 = merge_sorted(&final_result.F32, &result.F32);
        final_result.F64 = merge_sorted(&final_result.F64, &result.F64);
        i = i + 1;
        start = if len - start <= size_per_thread {
            len
        } else {
            start + size_per_thread
        };
        proof {
            assert(i * size_per_thread == old_start + size_per_thread) by (nonlinear_arith)
                requires
                    old_start == (i - 1) * size_per_thread,
            ;
            assert forall|f: FilterOption|
                kind_scan_partial(
                    #[trigger] kind_entries(final_result, f),
                    page_copy@,
                    f,
                    filter_list@,
                    target_value@,
                    start as int,
                ) by {
                lemma_merge_tile_step(
                    kind_entries(before, f),
                    kind_entries(result, f),
                    kind_entries(final_result, f),
                    page_copy@,
                    f,
                    filter_list@,
                    target_value@,
                    old_start,
                    size_per_thread as int,
                    start as int,
                );
            }
        }
    }
    proof {
        assert forall|f: FilterOption|
            kind_scan_ok(
                #[trigger] kind_entries(final_result, f),
                page_copy@,
                f,
                filter_list@,
                target_value@,
            ) by {
            if filter_list@.contains(f) {
                match target_pattern(f, target_value@) {
                    Some(p) => {
                        assert forall|j: usize|
                            matches_at(page_copy@, width_of(f), p, j as int) implies #[trigger] kind_entries(
                            final_result,
                            f,
                        ).contains(j) by {
                            assert(j + width_of(f) <= len && width_of(f) >= 1);
                        }
                    },
                    None => {},
                }
            }
        }
    }
    final_result
}

} // verus!
