//! The capacity oracle: how many bytes of payload one symbol of a format
//! holds, found by bisection against the encoding backend, and the safe
//! capacity that is left of it once the safety margin is taken off.

use crate::backend::{encodable, fits};
use crate::format::{ErrorCorrection, FormatParameter};
use crate::probe::{probe_pattern, probe_payload};
use vstd::prelude::*;

verus! {

/// Version of the symbols that the pipeline draws.
pub const DEFAULT_QR_CODE_VERSION: i16 = 8;

/// Loose ceiling of the payload lengths that are probed.
pub const PROBE_UPPER_BOUND: usize = 3000;

/// Share of the raw capacity, in hundredths, that is held back.
pub const SAFETY_MARGIN_PERCENT: usize = 20;

/// No length from 1 up to the ceiling had a symbol: the format parameter
/// cannot be worked with.
#[derive(Clone, Copy, Debug, PartialEq, Eq, Structural)]
pub struct ProbeExhaustionError;

/// The format parameter that the pipeline draws with.
pub open spec fn spec_default_format() -> FormatParameter {
    FormatParameter { version: DEFAULT_QR_CODE_VERSION, level: ErrorCorrection::L }
}

/// The format parameter that the pipeline draws with.
pub fn default_format() -> (format: FormatParameter)
    ensures
        format == spec_default_format(),
        format.wf(),
        format.supported(),
{
    FormatParameter { version: DEFAULT_QR_CODE_VERSION, level: ErrorCorrection::L }
}

/// The part of a raw capacity that is held back: the margin's share of it,
/// rounded down.
pub open spec fn safety_margin(raw: int) -> int {
    raw * SAFETY_MARGIN_PERCENT / 100
}

/// The capacity that is left of a raw capacity: `raw - floor(raw * margin)`.
pub open spec fn safe_capacity_spec(raw: int) -> int {
    raw - safety_margin(raw)
}

/// The capacity that is left of a raw capacity once the safety margin is
/// taken off. It never exceeds the raw capacity, and of a positive raw
/// capacity something is left.
pub fn safe_capacity(raw: usize) -> (safe: usize)
    ensures
        safe == safe_capacity_spec(raw as int),
        safe <= raw,
        raw >= 1 ==> safe >= 1,
{
    let hundreds = raw / 100;
    let rest = raw % 100;
    let margin = hundreds * SAFETY_MARGIN_PERCENT + rest * SAFETY_MARGIN_PERCENT / 100;
    raw - margin
}

/// Where a bisection over payload lengths stands: the window `low..=high` of
/// lengths still in question, and the longest length found feasible.
#[derive(Clone, Copy, Debug, PartialEq, Eq, Structural)]
pub struct CapacitySearch {
    pub low: usize,
    pub high: usize,
    pub best: Option<usize>,
}

/// The result of bisecting the window `low..=high` for the longest length
/// that `feasible` accepts, with `best` the longest accepted so far: the
/// midpoint is tried; where it is accepted it becomes the best and the upper
/// half is searched, where not the lower half is.
pub open spec fn bisect(
    feasible: spec_fn(int) -> bool,
    low: int,
    high: int,
    best: Option<int>,
) -> Option<int>
    decreases high + 1 - low,
{
    if low > high {
        best
    } else {
        let mid = (low + high) / 2;
        if feasible(mid) {
            bisect(feasible, mid + 1, high, Some(mid))
        } else {
            bisect(feasible, low, mid - 1, best)
        }
    }
}

/// `best` as a mathematical value.
pub open spec fn as_length(best: Option<usize>) -> Option<int> {
    match best {
        Some(n) => Some(n as int),
        None => None,
    }
}

impl CapacitySearch {
    /// The window starts at length 1, and the best is the length just below
    /// the window, if any length was accepted yet.
    pub open spec fn wf(self) -> bool {
        &&& 1 <= self.low <= self.high + 1
        &&& self.high < usize::MAX
        &&& self.best == if self.low == 1 {
            None
        } else {
            Some((self.low - 1) as usize)
        }
    }

    /// The search is over: no length is in question any more.
    pub open spec fn is_over(self) -> bool {
        self.low > self.high
    }

    /// The length that is tried next.
    pub open spec fn spec_candidate(self) -> int {
        (self.low + self.high) / 2
    }

    /// The search after the candidate was found feasible or not.
    pub open spec fn spec_record(self, feasible: bool) -> CapacitySearch {
        if feasible {
            CapacitySearch {
                low: (self.spec_candidate() + 1) as usize,
                high: self.high,
                best: Some(self.spec_candidate() as usize),
            }
        } else {
            CapacitySearch {
                low: self.low,
                high: (self.spec_candidate() - 1) as usize,
                best: self.best,
            }
        }
    }

    /// What the search will end with if `feasible` answers from here on.
    pub open spec fn outcome(self, feasible: spec_fn(int) -> bool) -> Option<int> {
        bisect(feasible, self.low as int, self.high as int, as_length(self.best))
    }

    /// The lengths that the search will still try if `feasible` answers from
    /// here on.
    pub open spec fn remaining(self, feasible: spec_fn(int) -> bool) -> Seq<int> {
        probes(feasible, self.low as int, self.high as int)
    }

    /// A search over the lengths from 1 to `upper_bound`.
    pub fn new(upper_bound: usize) -> (search: CapacitySearch)
        requires
            upper_bound < usize::MAX,
        ensures
            search == (CapacitySearch { low: 1, high: upper_bound, best: None }),
            search.wf(),
    {
        CapacitySearch { low: 1, high: upper_bound, best: None }
    }

    /// The length to try next, or `None` when the search is over.
    pub fn candidate(&self) -> (mid: Option<usize>)
        requires
            self.wf(),
        ensures
            mid == if self.is_over() {
                None
            } else {
                Some(self.spec_candidate() as usize)
            },
            mid matches Some(m) ==> self.low <= m <= self.high,
    {
        if self.low > self.high {
            None
        } else {
            Some(self.low + (self.high - self.low) / 2)
        }
    }

    /// Takes the answer for the candidate: a feasible candidate becomes the
    /// best and the search goes on above it, an infeasible one bounds the
    /// search from above.
    pub fn record(&mut self, feasible: bool)
        requires
            old(self).wf(),
            !old(self).is_over(),
        ensures
            *final(self) == old(self).spec_record(feasible),
            final(self).wf(),
            2 * (final(self).high + 1 - final(self).low) <= old(self).high + 1 - old(self).low,
            !(final(self).low <= old(self).spec_candidate() <= final(self).high),
    {
        let mid = self.low + (self.high - self.low) / 2;
        if feasible {
            self.best = Some(mid);
            self.low = mid + 1;
        } else {
            self.high = mid - 1;
        }
    }

    /// The longest length found feasible, once the search is over.
    pub fn result(&self) -> (best: Option<usize>)
        requires
            self.wf(),
            self.is_over(),
        ensures
            best == self.best,
            forall|feasible: spec_fn(int) -> bool|
                as_length(best) == #[trigger] self.outcome(feasible),
    {
        self.best
    }
}

/// Recording the true answer for the candidate does not change what the
/// search will end with.
pub proof fn lemma_record_keeps_outcome(search: CapacitySearch, feasible: spec_fn(int) -> bool)
    requires
        search.wf(),
        !search.is_over(),
    ensures
        search.spec_record(feasible(search.spec_candidate())).outcome(feasible) == search.outcome(
            feasible,
        ),
        search.remaining(feasible) == seq![search.spec_candidate()] + search.spec_record(
            feasible(search.spec_candidate()),
        ).remaining(feasible),
{
}

proof fn lemma_bisect_window(
    feasible: spec_fn(int) -> bool,
    low: int,
    high: int,
    best: Option<int>,
    floor: int,
    ceiling: int,
)
    requires
        floor <= low <= high + 1,
        high <= ceiling,
        best == if low == floor {
            None
        } else {
            Some(low - 1)
        },
        low > floor ==> feasible(low - 1),
        high < ceiling ==> !feasible(high + 1),
    ensures
        match bisect(feasible, low, high, best) {
            Some(m) => floor <= m <= ceiling && feasible(m) && (m < ceiling ==> !feasible(m + 1)),
            None => floor <= ceiling ==> !feasible(floor),
        },
    decreases high + 1 - low,
{
    if low <= high {
        let mid = (low + high) / 2;
        if feasible(mid) {
            lemma_bisect_window(feasible, mid + 1, high, Some(mid), floor, ceiling);
        } else {
            lemma_bisect_window(feasible, low, mid - 1, best, floor, ceiling);
        }
    }
}

/// What a bisection over `1..=upper_bound` ends with, whatever `feasible`
/// is: a length that is feasible and whose successor is not, unless it is
/// the upper bound itself; or nothing, and then length 1 is not feasible.
pub proof fn lemma_bisect_result(feasible: spec_fn(int) -> bool, upper_bound: int)
    requires
        upper_bound >= 0,
    ensures
        match bisect(feasible, 1, upper_bound, None) {
            Some(m) => 1 <= m <= upper_bound && feasible(m) && (m < upper_bound ==> !feasible(
                m + 1,
            )),
            None => upper_bound >= 1 ==> !feasible(1),
        },
{
    lemma_bisect_window(feasible, 1, upper_bound, None, 1, upper_bound);
}

/// The lengths that the bisection of the window `low..=high` tries, in the
/// order tried.
pub open spec fn probes(feasible: spec_fn(int) -> bool, low: int, high: int) -> Seq<int>
    decreases high + 1 - low,
{
    if low > high {
        Seq::empty()
    } else {
        let mid = (low + high) / 2;
        if feasible(mid) {
            seq![mid] + probes(feasible, mid + 1, high)
        } else {
            seq![mid] + probes(feasible, low, mid - 1)
        }
    }
}

/// How often a window of `width` lengths can be halved before it is empty.
pub open spec fn halvings(width: nat) -> nat
    decreases width,
{
    if width == 0 {
        0
    } else {
        1 + halvings(width / 2)
    }
}

proof fn lemma_halvings_grow(narrow: nat, wide: nat)
    requires
        narrow <= wide,
    ensures
        halvings(narrow) <= halvings(wide),
    decreases wide,
{
    if narrow > 0 {
        lemma_halvings_grow(narrow / 2, wide / 2);
    }
}

/// A bisection is short and never asks twice: it tries no more lengths than
/// its window can be halved, each of them inside the window, and no length
/// more than once, whatever the answers are.
pub proof fn lemma_probes_few_and_distinct(feasible: spec_fn(int) -> bool, low: int, high: int)
    requires
        low <= high + 1,
    ensures
        probes(feasible, low, high).len() <= halvings((high + 1 - low) as nat),
        forall|k: int|
            0 <= k < probes(feasible, low, high).len() ==> low <= #[trigger] probes(
                feasible,
                low,
                high,
            )[k] <= high,
        forall|j: int, k: int|
            0 <= j < k < probes(feasible, low, high).len() ==> probes(feasible, low, high)[j]
                != probes(feasible, low, high)[k],
    decreases high + 1 - low,
{
    if low <= high {
        let mid = (low + high) / 2;
        let width = (high + 1 - low) as nat;
        let all = probes(feasible, low, high);
        if feasible(mid) {
            let rest = probes(feasible, mid + 1, high);
            lemma_probes_few_and_distinct(feasible, mid + 1, high);
            lemma_halvings_grow((high - mid) as nat, width / 2);
            assert(all == seq![mid] + rest);
            assert forall|k: int| 0 <= k < all.len() implies low <= #[trigger] all[k] <= high by {
                if k > 0 {
                    assert(all[k] == rest[k - 1]);
                }
            }
            assert forall|j: int, k: int| 0 <= j < k < all.len() implies all[j] != all[k] by {
                assert(all[k] == rest[k - 1]);
                if j > 0 {
                    assert(all[j] == rest[j - 1]);
                }
            }
        } else {
            let rest = probes(feasible, low, mid - 1);
            lemma_probes_few_and_distinct(feasible, low, mid - 1);
            lemma_halvings_grow((mid - low) as nat, width / 2);
            assert(all == seq![mid] + rest);
            assert forall|k: int| 0 <= k < all.len() implies low <= #[trigger] all[k] <= high by {
                if k > 0 {
                    assert(all[k] == rest[k - 1]);
                }
            }
            assert forall|j: int, k: int| 0 <= j < k < all.len() implies all[j] != all[k] by {
                assert(all[k] == rest[k - 1]);
                if j > 0 {
                    assert(all[j] == rest[j - 1]);
                }
            }
        }
    }
}

/// Probing the lengths from 1 to the default ceiling takes at most 12 calls
/// of the backend.
pub proof fn lemma_twelve_probes_suffice(feasible: spec_fn(int) -> bool)
    ensures
        probes(feasible, 1, PROBE_UPPER_BOUND as int).len() <= 12,
{
    lemma_probes_few_and_distinct(feasible, 1, PROBE_UPPER_BOUND as int);
    assert(halvings(3000) == 12) by {
        reveal_with_fuel(halvings, 13);
    }
}

/// Longer payloads never fit where shorter ones do not: feasibility does not
/// come back once it is lost, anywhere in `1..=upper_bound`.
pub open spec fn monotone(feasible: spec_fn(int) -> bool, upper_bound: int) -> bool {
    forall|a: int, b: int|
        1 <= a <= b <= upper_bound && #[trigger] feasible(b) ==> #[trigger] feasible(a)
}

/// Where feasibility is monotone in the length, the bisection finds the
/// capacity: every length up to its result is feasible and none beyond it,
/// and it ends with nothing only where no length is feasible.
pub proof fn lemma_bisect_finds_maximum(feasible: spec_fn(int) -> bool, upper_bound: int)
    requires
        upper_bound >= 0,
        monotone(feasible, upper_bound),
    ensures
        match bisect(feasible, 1, upper_bound, None) {
            Some(m) => forall|n: int| 1 <= n <= upper_bound ==> (#[trigger] feasible(n) <==> n <= m),
            None => forall|n: int| 1 <= n <= upper_bound ==> !#[trigger] feasible(n),
        },
{
    lemma_bisect_result(feasible, upper_bound);
    match bisect(feasible, 1, upper_bound, None) {
        Some(m) => {
            assert forall|n: int| 1 <= n <= upper_bound implies (#[trigger] feasible(n) <==> n
                <= m) by {
                if n <= m {
                    assert(feasible(m));
                } else if feasible(n) {
                    assert(feasible(m + 1));
                }
            }
        },
        None => {
            assert forall|n: int| 1 <= n <= upper_bound implies !#[trigger] feasible(n) by {
                if feasible(n) {
                    assert(feasible(1));
                }
            }
        },
    }
}

/// Whether the probe payload of `len` bytes has a symbol under `format`.
pub open spec fn probe_fits(len: int, format: FormatParameter) -> bool {
    encodable(probe_pattern(len as nat), format)
}

/// The question that the oracle puts to the backend, as a function of the
/// length.
pub open spec fn probe_oracle(format: FormatParameter) -> spec_fn(int) -> bool {
    |len: int| probe_fits(len, format)
}

/// The raw capacity of `format`: the result of bisecting the probe lengths
/// from 1 to `upper_bound` against the backend.
pub open spec fn raw_capacity(format: FormatParameter, upper_bound: int) -> Option<int> {
    bisect(probe_oracle(format), 1, upper_bound, None)
}

/// Finds the raw capacity of `format` by bisection over the probe lengths
/// from 1 to `upper_bound`. The probe payload of the length found has a
/// symbol, and the one a byte longer has none, unless the length found is the
/// upper bound itself. `None` says that not even one byte was feasible.
pub fn discover_raw_capacity(format: &FormatParameter, upper_bound: usize) -> (raw: Option<usize>)
    requires
        upper_bound < usize::MAX,
    ensures
        as_length(raw) == raw_capacity(*format, upper_bound as int),
        raw matches Some(m) ==> {
            &&& 1 <= m <= upper_bound
            &&& probe_fits(m as int, *format)
            &&& m < upper_bound ==> !probe_fits(m + 1, *format)
        },
        raw is None && upper_bound >= 1 ==> !probe_fits(1, *format),
{
    let ghost oracle = probe_oracle(*format);
    let mut search = CapacitySearch::new(upper_bound);
    loop
        invariant
            search.wf(),
            oracle == probe_oracle(*format),
            search.outcome(oracle) == raw_capacity(*format, upper_bound as int),
        ensures
            search.is_over(),
        decreases search.high + 1 - search.low,
    {
        match search.candidate() {
            None => {
                break;
            },
            Some(mid) => {
                let payload = probe_payload(mid);
                let feasible = fits(payload.as_slice(), format);
                proof {
                    assert(feasible == oracle(search.spec_candidate()));
                    lemma_record_keeps_outcome(search, oracle);
                }
                search.record(feasible);
            },
        }
    }
    proof {
        lemma_bisect_result(oracle, upper_bound as int);
    }
    search.result()
}

/// The safe capacity that follows from what probing found, where it found a
/// feasible length; the error where it found none.
pub fn capacity_of_probe(raw: Option<usize>) -> (capacity: Result<usize, ProbeExhaustionError>)
    ensures
        match capacity {
            Ok(safe) => raw matches Some(found) && safe == safe_capacity_spec(found as int),
            Err(_) => raw.is_none(),
        },
{
    match raw {
        Some(found) => Ok(safe_capacity(found)),
        None => Err(ProbeExhaustionError),
    }
}

/// The safe capacity of `format`, or the error that says that probing found
/// no feasible length at all.
pub fn discover(format: &FormatParameter) -> (capacity: Result<usize, ProbeExhaustionError>)
    ensures
        match capacity {
            Ok(safe) => {
                &&& raw_capacity(*format, PROBE_UPPER_BOUND as int) matches Some(raw)
                &&& safe == safe_capacity_spec(raw)
                &&& 1 <= safe <= raw
            },
            Err(_) => raw_capacity(*format, PROBE_UPPER_BOUND as int) is None,
        },
{
    capacity_of_probe(discover_raw_capacity(format, PROBE_UPPER_BOUND))
}

/// The safe capacity of the default format in bytes per chunk, or the error
/// that says that probing found no feasible length at all.
pub fn get_max_qr_capacity() -> (capacity: Result<usize, ProbeExhaustionError>)
    ensures
        match capacity {
            Ok(safe) => {
                &&& raw_capacity(spec_default_format(), PROBE_UPPER_BOUND as int) matches Some(raw)
                &&& safe == safe_capacity_spec(raw)
                &&& 1 <= safe <= raw
            },
            Err(_) => raw_capacity(spec_default_format(), PROBE_UPPER_BOUND as int) is None,
        },
{
    let format = default_format();
    discover(&format)
}

} // verus!
