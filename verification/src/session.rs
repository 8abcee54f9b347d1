//! The session: the list of per-region match sets the operator is narrowing
//! down, its lifecycle, and the totals and address lists the interactive
//! commands report.
//!
//! The caller owns the process capability; it replaces the list after an
//! initial scan, narrows it after a refinement, and closes the session when
//! the capability is lost or released.

use vstd::prelude::*;

use crate::config::FilterOption;
use crate::region::{matches_wf, MemoryMatches};
use crate::scan::{kind_entries, sat_add, total_entries, AddressMatch};

verus! {

/// Where the session stands: freshly attached with no matches, holding a
/// non-empty match set, or closed for good.
#[derive(Clone, Copy, Debug, PartialEq, Eq, Structural)]
pub enum SessionStatus {
    Attached,
    Scanned,
    Closed,
}

/// The number of matches over all regions and interpretations.
pub open spec fn total_matches(regions: Seq<MemoryMatches>) -> nat
    decreases regions.len(),
{
    if regions.len() == 0 {
        0
    } else {
        total_matches(regions.drop_last()) + total_entries(regions.last().matches)
    }
}

/// The session-wide state: the retained regions with their match sets, and
/// the lifecycle status.
#[derive(Debug)]
pub struct SessionState {
    pub matches: Vec<MemoryMatches>,
    pub status: SessionStatus,
}

/// Every retained region is well-formed, and while the session is open its
/// status says exactly whether any match is left.
pub open spec fn session_wf(s: SessionState) -> bool {
    &&& forall|i: int| 0 <= i < s.matches@.len() ==> matches_wf(#[trigger] s.matches@[i])
    &&& (s.status != SessionStatus::Closed ==> (s.status == SessionStatus::Scanned <==>
        total_matches(s.matches@) > 0))
}

/// The number of matches one region holds, clamped to the machine word.
fn region_count(m: &MemoryMatches) -> (r: usize)
    ensures
        r == if total_entries(m.matches) <= usize::MAX {
            total_entries(m.matches) as int
        } else {
            usize::MAX as int
        },
{
    let mut c: usize = sat_add(m.matches.U8.len(), m.matches.U16.len());
    c = sat_add(c, m.matches.U32.len());
    c = sat_add(c, m.matches.U64.len());
    c = sat_add(c, m.matches.I32.len());
    c = sat_add(c, m.matches.I64.len());
    c = sat_add(c, m.matches.F32.len());
    c = sat_add(c, m.matches.F64.len());
    c
}

/// The number of matches over all regions and interpretations, clamped to
/// the machine word.
pub fn GetNumberOfMatches(all_matches: &Vec<MemoryMatches>) -> (r: usize)
    ensures
        r == if total_matches(all_matches@) <= usize::MAX {
            total_matches(all_matches@) as int
        } else {
            usize::MAX as int
        },
{
    let n: usize = all_matches.len();
    let mut acc: usize = 0;
    let mut i: usize = 0;
    while i < n
        invariant
            0 <= i <= n == all_matches@.len(),
            acc == if total_matches(all_matches@.take(i as int)) <= usize::MAX {
                total_matches(all_matches@.take(i as int)) as int
            } else {
                usize::MAX as int
            },
        decreases n - i,
    {
        let c = region_count(&all_matches[i]);
        acc = sat_add(acc, c);
        proof {
            assert(all_matches@.take(i + 1).drop_last() =~= all_matches@.take(i as int));
            assert(all_matches@.take(i + 1).last() == all_matches@[i as int]);
        }
        i = i + 1;
    }
    proof {
        assert(all_matches@.take(n as int) =~= all_matches@);
    }
    acc
}

/// The offset list an `AddressMatch` holds for the interpretation `f`.
pub fn kind_field<'a>(am: &'a AddressMatch, f: &FilterOption) -> (r: &'a Vec<usize>)
    ensures
        r@ == kind_entries(*am, *f),
{
    match f {
        FilterOption::U8 => &am.U8,
        FilterOption::U16 => &am.U16,
        FilterOption::U32 => &am.U32,
        FilterOption::U64 => &am.U64,
        FilterOption::I32 => &am.I32,
        FilterOption::I64 => &am.I64,
        FilterOption::F32 => &am.F32,
        FilterOption::F64 => &am.F64,
    }
}

/// The absolute addresses of every match of the interpretation `f`: region by
/// region in their stored order, each region's offsets ascending, shifted by
/// that region's base.
pub open spec fn abs_addresses(regions: Seq<MemoryMatches>, f: FilterOption) -> Seq<usize>
    decreases regions.len(),
{
    if regions.len() == 0 {
        Seq::empty()
    } else {
        abs_addresses(regions.drop_last(), f) + shifted_entries(regions.last(), f)
    }
}

/// One region's offsets for `f`, shifted to absolute addresses.
pub open spec fn shifted_entries(m: MemoryMatches, f: FilterOption) -> Seq<usize> {
    Seq::new(
        kind_entries(m.matches, f).len(),
        |i: int| (kind_entries(m.matches, f)[i] + m.page_info.base) as usize,
    )
}

impl SessionState {
    /// A freshly attached session: no matches yet.
    pub fn new() -> (s: SessionState)
        ensures
            session_wf(s),
            s.status == SessionStatus::Attached,
            s.matches@.len() == 0,
    {
        SessionState { matches: Vec::new(), status: SessionStatus::Attached }
    }

    /// Installs the outcome of an initial scan or a refinement: the list
    /// replaces the old one in full, and the session is `Scanned` exactly
    /// when any match is left.
    pub fn install_results(&mut self, results: Vec<MemoryMatches>)
        requires
            old(self).status != SessionStatus::Closed,
            forall|i: int| 0 <= i < results@.len() ==> matches_wf(#[trigger] results@[i]),
        ensures
            session_wf(*final(self)),
            final(self).matches@ == results@,
            final(self).status == if total_matches(results@) > 0 {
                SessionStatus::Scanned
            } else {
                SessionStatus::Attached
            },
    {
        let count = GetNumberOfMatches(&results);
        self.matches = results;
        self.status = if count > 0 {
            SessionStatus::Scanned
        } else {
            SessionStatus::Attached
        };
    }

    /// Releases the session: terminal, whatever was held is dropped.
    pub fn close(&mut self)
        ensures
            session_wf(*final(self)),
            final(self).status == SessionStatus::Closed,
            final(self).matches@.len() == 0,
    {
        self.matches = Vec::new();
        self.status = SessionStatus::Closed;
    }

    /// The number of matches over all regions and interpretations, clamped to
    /// the machine word.
    pub fn total_count(&self) -> (r: usize)
        ensures
            r == if total_matches(self.matches@) <= usize::MAX {
                total_matches(self.matches@) as int
            } else {
                usize::MAX as int
            },
    {
        GetNumberOfMatches(&self.matches)
    }

    /// Every absolute address at which the interpretation `f` still matches:
    /// region by region, ascending within each region.
    pub fn absolute_addresses(&self, f: &FilterOption) -> (r: Vec<usize>)
        requires
            session_wf(*self),
        ensures
            r@ == abs_addresses(self.matches@, *f),
    {
        let n: usize = self.matches.len();
        let mut out: Vec<usize> = Vec::new();
        let mut i: usize = 0;
        while i < n
            invariant
                0 <= i <= n == self.matches@.len(),
                forall|k: int| 0 <= k < n ==> matches_wf(#[trigger] self.matches@[k]),
                out@ == abs_addresses(self.matches@.take(i as int), *f),
            decreases n - i,
        {
            let region = &self.matches[i];
            let av = region.get_absolute_virtual_address();
            let v = kind_field(&av, f);
            let ghost before = out@;
            let m: usize = v.len();
            let mut k: usize = 0;
            while k < m
                invariant
                    0 <= k <= m == v@.len(),
                    out@ == before + v@.take(k as int),
                decreases m - k,
            {
                out.push(v[k]);
                proof {
                    assert(v@.take(k + 1) =~= v@.take(k as int).push(v@[k as int]));
                    assert(before + v@.take(k + 1) =~= (before + v@.take(k as int)).push(
                        v@[k as int],
                    ));
                }
                k = k + 1;
            }
            proof {
                assert(v@.take(m as int) =~= v@);
                assert(v@ =~= shifted_entries(self.matches@[i as int], *f));
                assert(self.matches@.take(i + 1).drop_last() =~= self.matches@.take(i as int));
                assert(self.matches@.take(i + 1).last() == self.matches@[i as int]);
            }
            i = i + 1;
        }
        proof {
            assert(self.matches@.take(n as int) =~= self.matches@);
        }
        out
    }
}

/// The outcome of one write sweep over `attempted` match addresses, of which
/// `failed` could not be written: the sweep succeeds exactly when at least
/// one write went through, and otherwise reports the failure count.
pub fn write_sweep_outcome(attempted: usize, failed: usize) -> (r: Result<(), usize>)
    requires
        failed <= attempted,
    ensures
        r is Ok <==> failed < attempted,
        r is Err ==> r->Err_0 == failed,
{
    if failed < attempted {
        Ok(())
    } else {
        Err(failed)
    }
}

} // verus!
