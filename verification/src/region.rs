//! One scanned region of the foreign address space: which regions are worth
//! scanning, the per-region match sets an initial scan yields, and the
//! narrowing of those sets against a fresh snapshot.
//!
//! The caller enumerates the regions and takes the snapshots; everything here
//! works on the plain base address, length and bytes it hands over.

use vstd::prelude::*;

use crate::config::{width_of, FilterOption};
use crate::scan::{
    kind_entries, kind_scan_ok, matches_at, refine_offsets, strictly_ascending, total_entries,
    AddressMatch, InitialMultithreadSearch,
};
use crate::target::{parse_target, target_pattern};

verus! {

/// A committed writable region of the target process: its base address and
/// byte length. The addresses `base .. base + size` all exist in the target's
/// address space, so they fit the machine word.
#[derive(Clone, Copy, Debug, PartialEq, Eq, Structural)]
pub struct RegionInfo {
    pub base: usize,
    pub size: usize,
}

/// The region's address range does not wrap around the address space.
pub open spec fn region_wf(r: RegionInfo) -> bool {
    r.base + r.size <= usize::MAX
}

/// The protection value a region must show, once the guard and non-cacheable
/// bits are masked off, to be scanned: plain read-write.
pub const PAGE_READWRITE_PROTECTION: u32 = 0x04;

/// The masked protection value of a region that is also executable.
pub const PAGE_EXECUTE_READWRITE_PROTECTION: u32 = 0x40;

/// The guard bit of a protection value.
pub const PAGE_GUARD_BIT: u32 = 0x100;

/// The non-cacheable bit of a protection value.
pub const PAGE_NOCACHE_BIT: u32 = 0x200;

/// The state value of a committed region.
pub const MEM_COMMIT_STATE: u32 = 0x1000;

/// Whether a region with the given state and allocation protection takes part
/// in a scan: it must be committed, and its protection, with the guard and
/// non-cacheable bits masked off, must be exactly read-write or
/// execute-read-write. A read-write region with the guard bit set is thus
/// excluded.
pub fn is_scannable_region(state: u32, allocation_protect: u32) -> (r: bool)
    ensures
        r <==> ({
            let masked = allocation_protect & !(PAGE_GUARD_BIT | PAGE_NOCACHE_BIT);
            &&& (masked == PAGE_READWRITE_PROTECTION || masked
                == PAGE_EXECUTE_READWRITE_PROTECTION)
            &&& state == MEM_COMMIT_STATE
        }),
{
    let masked = allocation_protect & !(PAGE_GUARD_BIT | PAGE_NOCACHE_BIT);
    (masked == PAGE_READWRITE_PROTECTION || masked == PAGE_EXECUTE_READWRITE_PROTECTION) && state
        == MEM_COMMIT_STATE
}

/// The match sets of one region: for every interpretation, the ascending
/// duplicate-free offsets, relative to the region base, at which the region's
/// snapshot held the target.
#[derive(Clone, Debug)]
pub struct MemoryMatches {
    pub page_info: RegionInfo,
    pub matches: AddressMatch,
}

/// Every offset list is strictly ascending, every offset leaves room for its
/// interpretation's window inside the region, and the region itself is sound.
pub open spec fn matches_wf(m: MemoryMatches) -> bool {
    &&& region_wf(m.page_info)
    &&& forall|f: FilterOption| strictly_ascending(#[trigger] kind_entries(m.matches, f))
    &&& forall|f: FilterOption, i: int|
        0 <= i < kind_entries(m.matches, f).len() ==> #[trigger] kind_entries(m.matches, f)[i]
            + width_of(f) <= m.page_info.size
}

impl MemoryMatches {
    /// Pairs a region with the match sets a scan of it produced.
    pub fn new(page: RegionInfo, search_results: AddressMatch) -> (r: MemoryMatches)
        ensures
            r.page_info == page,
            r.matches == search_results,
    {
        MemoryMatches { page_info: page, matches: search_results }
    }

    /// The matches as absolute virtual addresses: each stored offset plus the
    /// region base, kind by kind, in the stored ascending order.
    pub fn get_absolute_virtual_address(&self) -> (r: AddressMatch)
        requires
            matches_wf(*self),
        ensures
            forall|f: FilterOption| #[trigger] kind_entries(r, f).len() == kind_entries(
                self.matches,
                f,
            ).len(),
            forall|f: FilterOption, i: int|
                0 <= i < kind_entries(r, f).len() ==> #[trigger] kind_entries(r, f)[i]
                    == kind_entries(self.matches, f)[i] + self.page_info.base,
    {
        let base = self.page_info.base;
        let size = self.page_info.size;
        proof {
            lemma_matches_fields(*self);
        }
        let r = AddressMatch {
            U8: shift_by_base(&self.matches.U8, base, size),
            U16: shift_by_base(&self.matches.U16, base, size),
            U32: shift_by_base(&self.matches.U32, base, size),
            U64: shift_by_base(&self.matches.U64, base, size),
            I32: shift_by_base(&self.matches.I32, base, size),
            I64: shift_by_base(&self.matches.I64, base, size),
            F32: shift_by_base(&self.matches.F32, base, size),
            F64: shift_by_base(&self.matches.F64, base, size),
        };
        r
    }
}

/// Spells the well-formedness bounds out for each of the eight offset lists.
proof fn lemma_matches_fields(m: MemoryMatches)
    requires
        matches_wf(m),
    ensures
        forall|i: int|
            0 <= i < m.matches.U8@.len() ==> #[trigger] m.matches.U8@[i] < m.page_info.size,
        forall|i: int|
            0 <= i < m.matches.U16@.len() ==> #[trigger] m.matches.U16@[i] < m.page_info.size,
        forall|i: int|
            0 <= i < m.matches.U32@.len() ==> #[trigger] m.matches.U32@[i] < m.page_info.size,
        forall|i: int|
            0 <= i < m.matches.U64@.len() ==> #[trigger] m.matches.U64@[i] < m.page_info.size,
        forall|i: int|
            0 <= i < m.matches.I32@.len() ==> #[trigger] m.matches.I32@[i] < m.page_info.size,
        forall|i: int|
            0 <= i < m.matches.I64@.len() ==> #[trigger] m.matches.I64@[i] < m.page_info.size,
        forall|i: int|
            0 <= i < m.matches.F32@.len() ==> #[trigger] m.matches.F32@[i] < m.page_info.size,
        forall|i: int|
            0 <= i < m.matches.F64@.len() ==> #[trigger] m.matches.F64@[i] < m.page_info.size,
{
    assert(kind_entries(m.matches, FilterOption::U8) == m.matches.U8@);
    assert(kind_entries(m.matches, FilterOption::U16) == m.matches.U16@);
    assert(kind_entries(m.matches, FilterOption::U32) == m.matches.U32@);
    assert(kind_entries(m.matches, FilterOption::U64) == m.matches.U64@);
    assert(kind_entries(m.matches, FilterOption::I32) == m.matches.I32@);
    assert(kind_entries(m.matches, FilterOption::I64) == m.matches.I64@);
    assert(kind_entries(m.matches, FilterOption::F32) == m.matches.F32@);
    assert(kind_entries(m.matches, FilterOption::F64) == m.matches.F64@);
}

/// No window, under any interpretation of `filters` whose target parses,
/// decodes to the target anywhere in the buffer.
pub open spec fn no_match_anywhere(buffer: Seq<u8>, filters: Seq<FilterOption>, target: Seq<u8>) -> bool {
    forall|f: FilterOption, j: usize|
        filters.contains(f) && target_pattern(f, target) is Some ==> !(#[trigger] matches_at(
            buffer,
            width_of(f),
            target_pattern(f, target)->Some_0,
            j as int,
        ))
}

/// The initial scan of one region: searches the region's snapshot under every
/// enabled interpretation and keeps the region exactly when something
/// matched. The returned match sets hold, per interpretation, exactly the
/// snapshot's matching offsets, in ascending order.
pub fn scan_region(
    page: RegionInfo,
    buffer: &Vec<u8>,
    thread_count: usize,
    filter_list: &Vec<FilterOption>,
    target_value: &[u8],
) -> (r: Option<MemoryMatches>)
    requires
        thread_count >= 1,
        buffer@.len() == page.size,
        region_wf(page),
    ensures
        match r {
            Some(m) => {
                &&& m.page_info == page
                &&& matches_wf(m)
                &&& total_entries(m.matches) > 0
                &&& forall|f: FilterOption|
                    kind_scan_ok(
                        #[trigger] kind_entries(m.matches, f),
                        buffer@,
                        f,
                        filter_list@,
                        target_value@,
                    )
            },
            None => no_match_anywhere(buffer@, filter_list@, target_value@),
        },
{
    let search = InitialMultithreadSearch(buffer, thread_count, filter_list, target_value);
    if search.is_empty() {
        proof {
            assert forall|f: FilterOption, j: usize|
                filter_list@.contains(f) && target_pattern(f, target_value@) is Some implies !(
            #[trigger] matches_at(
                buffer@,
                width_of(f),
                target_pattern(f, target_value@)->Some_0,
                j as int,
            )) by {
                let v = kind_entries(search, f);
                assert(kind_scan_ok(v, buffer@, f, filter_list@, target_value@));
                assert(v.len() == 0);
                if matches_at(
                    buffer@,
                    width_of(f),
                    target_pattern(f, target_value@)->Some_0,
                    j as int,
                ) {
                    assert(v.contains(j));
                }
            }
        }
        None
    } else {
        let m = MemoryMatches::new(page, search);
        proof {
            assert forall|f: FilterOption, i: int|
                0 <= i < kind_entries(m.matches, f).len() implies #[trigger] kind_entries(
                m.matches,
                f,
            )[i] + width_of(f) <= m.page_info.size by {
                let v = kind_entries(m.matches, f);
                assert(kind_scan_ok(v, buffer@, f, filter_list@, target_value@));
                assert(v.contains(v[i]));
            }
        }
        Some(m)
    }
}

/// What a refinement owes each interpretation `f`: where `f` is enabled and
/// its new target parses, exactly the previous offsets whose fresh window
/// still decodes to the new pattern, in order; everywhere else the previous
/// offsets, untouched.
pub open spec fn kind_refine_ok(
    v: Seq<usize>,
    prev: Seq<usize>,
    buffer: Seq<u8>,
    f: FilterOption,
    filters: Seq<FilterOption>,
    target: Seq<u8>,
) -> bool {
    if filters.contains(f) {
        match target_pattern(f, target) {
            Some(p) => forall|j: usize| #[trigger]
                v.contains(j) <==> (prev.contains(j) && matches_at(
                    buffer,
                    width_of(f),
                    p,
                    j as int,
                )),
            None => v == prev,
        }
    } else {
        v == prev
    }
}

/// Copies an offset list.
fn copy_offsets(v: &Vec<usize>) -> (r: Vec<usize>)
    ensures
        r@ == v@,
{
    let n: usize = v.len();
    let mut out: Vec<usize> = Vec::new();
    let mut i: usize = 0;
    while i < n
        invariant
            0 <= i <= n == v@.len(),
            out@ == v@.take(i as int),
        decreases n - i,
    {
        out.push(v[i]);
        proof {
            assert(v@.take(i + 1) =~= v@.take(i as int).push(v@[i as int]));
        }
        i = i + 1;
    }
    proof {
        assert(v@.take(n as int) =~= v@);
    }
    out
}

/// Whether the interpretation `f` is enabled.
fn contains_filter(filter_list: &Vec<FilterOption>, f: FilterOption) -> (r: bool)
    ensures
        r <==> filter_list@.contains(f),
{
    let n: usize = filter_list.len();
    let mut i: usize = 0;
    while i < n
        invariant
            0 <= i <= n == filter_list@.len(),
            forall|k: int| 0 <= k < i ==> filter_list@[k] != f,
        decreases n - i,
    {
        if filter_list[i] == f {
            return true;
        }
        i = i + 1;
    }
    false
}

/// Refines one interpretation's offsets: narrows them against the fresh
/// snapshot when `f` is enabled and its target parses, and otherwise hands
/// them back untouched.
fn refine_kind(
    prev: &Vec<usize>,
    buffer: &Vec<u8>,
    f: FilterOption,
    filter_list: &Vec<FilterOption>,
    target_value: &[u8],
) -> (r: Vec<usize>)
    requires
        strictly_ascending(prev@),
        forall|i: int| 0 <= i < prev@.len() ==> #[trigger] prev@[i] + width_of(f) <= buffer@.len(),
    ensures
        kind_refine_ok(r@, prev@, buffer@, f, filter_list@, target_value@),
        strictly_ascending(r@),
        forall|i: int| 0 <= i < r@.len() ==> #[trigger] r@[i] + width_of(f) <= buffer@.len(),
{
    let r: Vec<usize>;
    if contains_filter(filter_list, f) {
        match parse_target(&f, target_value) {
            Some(p) => {
                r = refine_offsets(buffer.as_slice(), prev, f.width(), p);
            },
            None => {
                r = copy_offsets(prev);
            },
        }
    } else {
        r = copy_offsets(prev);
    }
    proof {
        assert forall|i: int|
            0 <= i < r@.len() implies #[trigger] r@[i] + width_of(f) <= buffer@.len() by {
            assert(r@.contains(r@[i]));
            let m = choose|m: int| 0 <= m < prev@.len() && prev@[m] == r@[i];
            assert(prev@[m] + width_of(f) <= buffer@.len());
        }
    }
    r
}

/// The refinement of one retained region against a fresh snapshot of it: for
/// every enabled interpretation whose new target parses, only the offsets
/// whose current bytes still decode to the new target survive; every other
/// interpretation keeps its offsets unchanged. The region itself survives
/// exactly when any offset at all is left.
pub fn FilterMatchesRegion(
    page_section: &MemoryMatches,
    buffer: &Vec<u8>,
    filter_list: &Vec<FilterOption>,
    target_value: &[u8],
) -> (r: Option<MemoryMatches>)
    requires
        matches_wf(*page_section),
        buffer@.len() == page_section.page_info.size,
    ensures
        match r {
            Some(m) => {
                &&& m.page_info == page_section.page_info
                &&& matches_wf(m)
                &&& total_entries(m.matches) > 0
                &&& forall|f: FilterOption|
                    kind_refine_ok(
                        #[trigger] kind_entries(m.matches, f),
                        kind_entries(page_section.matches, f),
                        buffer@,
                        f,
                        filter_list@,
                        target_value@,
                    )
            },
            None => forall|f: FilterOption|
                kind_refine_ok(
                    Seq::<usize>::empty(),
                    #[trigger] kind_entries(page_section.matches, f),
                    buffer@,
                    f,
                    filter_list@,
                    target_value@,
                ),
        },
{
    proof {
        assert(kind_entries(page_section.matches, FilterOption::U8) == page_section.matches.U8@);
        assert(kind_entries(page_section.matches, FilterOption::U16) == page_section.matches.U16@);
        assert(kind_entries(page_section.matches, FilterOption::U32) == page_section.matches.U32@);
        assert(kind_entries(page_section.matches, FilterOption::U64) == page_section.matches.U64@);
        assert(kind_entries(page_section.matches, FilterOption::I32) == page_section.matches.I32@);
        assert(kind_entries(page_section.matches, FilterOption::I64) == page_section.matches.I64@);
        assert(kind_entries(page_section.matches, FilterOption::F32) == page_section.matches.F32@);
        assert(kind_entries(page_section.matches, FilterOption::F64) == page_section.matches.F64@);
    }
    let match_address = AddressMatch {
        U8: refine_kind(
            &page_section.matches.U8,
            buffer,
            FilterOption::U8,
            filter_list,
            target_value,
        ),
        U16: refine_kind(
            &page_section.matches.U16,
            buffer,
            FilterOption::U16,
            filter_list,
            target_value,
        ),
        U32: refine_kind(
            &page_section.matches.U32,
            buffer,
            FilterOption::U32,
            filter_list,
            target_value,
        ),
        U64: refine_kind(
            &page_section.matches.U64,
            buffer,
            FilterOption::U64,
            filter_list,
            target_value,
        ),
        I32: refine_kind(
            &page_section.matches.I32,
            buffer,
            FilterOption::I32,
            filter_list,
            target_value,
        ),
        I64: refine_kind(
            &page_section.matches.I64,
            buffer,
            FilterOption::I64,
            filter_list,
            target_value,
        ),
        F32: refine_kind(
            &page_section.matches.F32,
            buffer,
            FilterOption::F32,
            filter_list,
            target_value,
        ),
        F64: refine_kind(
            &page_section.matches.F64,
            buffer,
            FilterOption::F64,
            filter_list,
            target_value,
        ),
    };
    if match_address.is_empty() {
        proof {
            assert forall|f: FilterOption|
                kind_refine_ok(
                    Seq::<usize>::empty(),
                    #[trigger] kind_entries(page_section.matches, f),
                    buffer@,
                    f,
                    filter_list@,
                    target_value@,
                ) by {
                assert(kind_entries(match_address, f) =~= Seq::<usize>::empty());
            }
        }
        None
    } else {
        let m = MemoryMatches::new(page_section.page_info, match_address);
        Some(m)
    }
}

/// Adds the region base to every offset. Buffer offsets are bounded by the
/// region size, so the sums stay inside the address space.
fn shift_by_base(offsets: &Vec<usize>, base: usize, size: usize) -> (r: Vec<usize>)
    requires
        base + size <= usize::MAX,
        forall|i: int| 0 <= i < offsets@.len() ==> #[trigger] offsets@[i] < size,
    ensures
        r@.len() == offsets@.len(),
        forall|i: int| 0 <= i < r@.len() ==> #[trigger] r@[i] == offsets@[i] + base,
{
    let n: usize = offsets.len();
    let mut out: Vec<usize> = Vec::new();
    let mut i: usize = 0;
    while i < n
        invariant
            0 <= i <= n == offsets@.len(),
            base + size <= usize::MAX,
            forall|k: int| 0 <= k < offsets@.len() ==> #[trigger] offsets@[k] < size,
            out@.len() == i,
            forall|k: int| 0 <= k < i ==> #[trigger] out@[k] == offsets@[k] + base,
        decreases n - i,
    {
        out.push(offsets[i] + base);
        i = i + 1;
    }
    out
}

} // verus!
