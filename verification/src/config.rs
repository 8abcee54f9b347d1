//! Session configuration: which numeric interpretations a scan uses, what it
//! does (search, write, display, exit) and the knobs of the write loop.

use vstd::prelude::*;

verus! {

/// The numeric interpretations under which a byte window can be compared with
/// the target value.
#[derive(Clone, Copy, Debug, PartialEq, Eq, Structural)]
pub enum FilterOption {
    U8,
    U16,
    U32,
    U64,
    I32,
    I64,
    F32,
    F64,
}

/// Byte width of one value of the given interpretation.
pub open spec fn width_of(f: FilterOption) -> nat {
    match f {
        FilterOption::U8 => 1,
        FilterOption::U16 => 2,
        FilterOption::U32 => 4,
        FilterOption::U64 => 8,
        FilterOption::I32 => 4,
        FilterOption::I64 => 8,
        FilterOption::F32 => 4,
        FilterOption::F64 => 8,
    }
}

/// The interpretations whose comparison is integer equality of the decoded
/// window. The two floating-point interpretations compare by IEEE-754
/// equality of the decoded bits, which this crate does not evaluate itself:
/// their targets are parsed by the caller into bit patterns.
pub open spec fn is_integer_kind(f: FilterOption) -> bool {
    match f {
        FilterOption::F32 => false,
        FilterOption::F64 => false,
        _ => true,
    }
}

impl FilterOption {
    /// Byte width of one value of this interpretation.
    pub fn width(&self) -> (w: usize)
        ensures
            w == width_of(*self),
            1 <= w <= 8,
    {
        match self {
            FilterOption::U8 => 1,
            FilterOption::U16 => 2,
            FilterOption::U32 => 4,
            FilterOption::U64 => 8,
            FilterOption::I32 => 4,
            FilterOption::I64 => 8,
            FilterOption::F32 => 4,
            FilterOption::F64 => 8,
        }
    }
}

/// What the scanner should do with the parsed command.
#[derive(Clone, Copy, Debug, PartialEq, Eq, Structural)]
pub enum Action {
    Search,
    Display,
    WriteMemory,
    Exit,
}

/// Whether a search replaces the match set or narrows the previous one.
#[derive(Clone, Copy, Debug, PartialEq, Eq, Structural)]
pub enum ScanStartFlag {
    NewScan,
    ReuseResults,
    UnknownInitialValue,
}

/// How the comparison against memory is performed.
#[derive(Clone, Copy, Debug, PartialEq, Eq, Structural)]
pub enum ScanType {
    ExactValue,
    UnknownValue,
}

/// Everything one command line determines: the action, the enabled
/// interpretations, the target value (kept as the bytes the operator typed),
/// and the scan and write options.
#[derive(Debug)]
pub struct Configuration {
    pub action: Action,
    pub help: bool,
    pub filters: Vec<FilterOption>,
    pub scan_start: ScanStartFlag,
    pub scan_type: ScanType,
    pub value_to_search: Vec<u8>,
    pub sleep_time: u64,
    pub freeze: bool,
    pub address_selected: usize,
    pub thread_count: usize,
}

/// Field-by-field equality of two configurations, with the vector fields
/// compared by contents.
pub open spec fn config_eq(a: &Configuration, b: &Configuration) -> bool {
    &&& a.action == b.action
    &&& a.help == b.help
    &&& a.filters@ == b.filters@
    &&& a.scan_start == b.scan_start
    &&& a.scan_type == b.scan_type
    &&& a.value_to_search@ == b.value_to_search@
    &&& a.sleep_time == b.sleep_time
    &&& a.freeze == b.freeze
    &&& a.address_selected == b.address_selected
    &&& a.thread_count == b.thread_count
}

/// Contents equality of two interpretation lists.
fn filters_eq(a: &Vec<FilterOption>, b: &Vec<FilterOption>) -> (r: bool)
    ensures
        r <==> a@ == b@,
{
    if a.len() != b.len() {
        return false;
    }
    let n = a.len();
    let mut i: usize = 0;
    while i < n
        invariant
            0 <= i <= n,
            a@.len() == n,
            b@.len() == n,
            forall|k: int| 0 <= k < i ==> a@[k] == b@[k],
        decreases n - i,
    {
        if a[i] != b[i] {
            return false;
        }
        i = i + 1;
    }
    proof {
        assert(a@ =~= b@);
    }
    true
}

/// Contents equality of two byte strings.
pub fn bytes_eq(a: &[u8], b: &[u8]) -> (r: bool)
    ensures
        r <==> a@ == b@,
{
    if a.len() != b.len() {
        return false;
    }
    let n = a.len();
    let mut i: usize = 0;
    while i < n
        invariant
            0 <= i <= n,
            a@.len() == n,
            b@.len() == n,
            forall|k: int| 0 <= k < i ==> a@[k] == b@[k],
        decreases n - i,
    {
        if a[i] != b[i] {
            return false;
        }
        i = i + 1;
    }
    proof {
        assert(a@ =~= b@);
    }
    true
}

impl PartialEq for Configuration {
    fn eq(&self, other: &Self) -> (r: bool) {
        if self.action != other.action {
            return false;
        }
        if self.help != other.help {
            return false;
        }
        if !filters_eq(&self.filters, &other.filters) {
            return false;
        }
        if self.scan_start != other.scan_start {
            return false;
        }
        if self.scan_type != other.scan_type {
            return false;
        }
        if !bytes_eq(self.value_to_search.as_slice(), other.value_to_search.as_slice()) {
            return false;
        }
        if self.sleep_time != other.sleep_time {
            return false;
        }
        if self.freeze != other.freeze {
            return false;
        }
        if self.address_selected != other.address_selected {
            return false;
        }
        if self.thread_count != other.thread_count {
            return false;
        }
        true
    }
}

impl vstd::std_specs::cmp::PartialEqSpecImpl for Configuration {
    open spec fn obeys_eq_spec() -> bool {
        true
    }

    open spec fn eq_spec(&self, other: &Configuration) -> bool {
        config_eq(self, other)
    }
}

impl Eq for Configuration {

}

impl Configuration {
    /// The configuration a command starts from: a single-threaded exact-value
    /// search for the 32-bit unsigned value `0`, replacing the match set.
    pub fn new() -> (c: Configuration)
        ensures
            c.action == Action::Search,
            !c.help,
            c.filters@ =~= seq![FilterOption::U32],
            c.scan_start == ScanStartFlag::NewScan,
            c.scan_type == ScanType::ExactValue,
            c.value_to_search@ =~= seq![48u8],
            c.sleep_time == 0,
            !c.freeze,
            c.address_selected == 0,
            c.thread_count == 1,
    {
        Configuration {
            action: Action::Search,
            help: false,
            filters: vec![FilterOption::U32],
            scan_start: ScanStartFlag::NewScan,
            scan_type: ScanType::ExactValue,
            value_to_search: vec![48u8],
            sleep_time: 0,
            freeze: false,
            address_selected: 0,
            thread_count: 1,
        }
    }

    /// Replaces the enabled interpretations, leaving everything else as it is.
    pub fn SetFilterMask(&mut self, filter_vector: Vec<FilterOption>)
        ensures
            final(self).filters@ == filter_vector@,
            final(self).action == old(self).action,
            final(self).help == old(self).help,
            final(self).scan_start == old(self).scan_start,
            final(self).scan_type == old(self).scan_type,
            final(self).value_to_search@ == old(self).value_to_search@,
            final(self).sleep_time == old(self).sleep_time,
            final(self).freeze == old(self).freeze,
            final(self).address_selected == old(self).address_selected,
            final(self).thread_count == old(self).thread_count,
    {
        self.filters = filter_vector;
    }
}

} // verus!
