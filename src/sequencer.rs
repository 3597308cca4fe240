use vstd::prelude::*;

verus! {

/// A finished analysis: the label of the audio that starts at `timestamp`
/// (counted in samples from the start of the stream).
///
/// Results compare by timestamp alone.
#[derive(Clone, Debug)]
pub struct AnalysisResult {
    pub timestamp: u64,
    pub note: String,
}

impl PartialEq for AnalysisResult {
    fn eq(&self, other: &AnalysisResult) -> (r: bool)
        ensures
            r == (self.timestamp == other.timestamp),
    {
        self.timestamp == other.timestamp
    }
}

impl vstd::std_specs::cmp::PartialEqSpecImpl for AnalysisResult {
    open spec fn obeys_eq_spec() -> bool {
        true
    }

    open spec fn eq_spec(&self, other: &AnalysisResult) -> bool {
        self.timestamp == other.timestamp
    }
}

impl Eq for AnalysisResult {

}

/// Ordering of two timestamps.
pub open spec fn timestamp_order(a: u64, b: u64) -> core::cmp::Ordering {
    if a < b {
        core::cmp::Ordering::Less
    } else if a > b {
        core::cmp::Ordering::Greater
    } else {
        core::cmp::Ordering::Equal
    }
}

impl PartialOrd for AnalysisResult {
    fn partial_cmp(&self, other: &AnalysisResult) -> (r: Option<core::cmp::Ordering>)
        ensures
            r == Some(timestamp_order(self.timestamp, other.timestamp)),
    {
        if self.timestamp < other.timestamp {
            Some(core::cmp::Ordering::Less)
        } else if self.timestamp > other.timestamp {
            Some(core::cmp::Ordering::Greater)
        } else {
            Some(core::cmp::Ordering::Equal)
        }
    }
}

impl vstd::std_specs::cmp::PartialOrdSpecImpl for AnalysisResult {
    open spec fn obeys_partial_cmp_spec() -> bool {
        true
    }

    open spec fn partial_cmp_spec(&self, other: &AnalysisResult) -> Option<core::cmp::Ordering> {
        Some(timestamp_order(self.timestamp, other.timestamp))
    }
}

/// Timestamps never decrease along `s`.
pub open spec fn is_time_ordered(s: Seq<AnalysisResult>) -> bool {
    forall|i: int, j: int| 0 <= i <= j < s.len() ==> s[i].timestamp <= s[j].timestamp
}

/// A buffer of analysis results that releases them in timestamp order, and
/// only once the playback clock has reached them.
pub struct ResultSequencer {
    pending: Vec<AnalysisResult>,
}

impl View for ResultSequencer {
    type V = Seq<AnalysisResult>;

    /// The queued results, earliest first; results with equal timestamps keep
    /// the order in which they were pushed.
    closed spec fn view(&self) -> Seq<AnalysisResult> {
        self.pending@
    }
}

impl ResultSequencer {
    #[verifier::type_invariant]
    spec fn inv(&self) -> bool {
        is_time_ordered(self.pending@)
    }

    /// An empty sequencer.
    pub fn new() -> (r: ResultSequencer)
        ensures
            r@ == Seq::<AnalysisResult>::empty(),
    {
        ResultSequencer { pending: Vec::new() }
    }

    /// Number of queued results.
    pub fn len(&self) -> (r: usize)
        ensures
            r == self@.len(),
    {
        self.pending.len()
    }

    /// Queues `result` after every queued result with a timestamp at or
    /// before its own, and before every later one. The slot is found by
    /// binary search; the queue is kept as a sorted vector, so the insertion
    /// itself moves the later entries.
    pub fn push(&mut self, result: AnalysisResult)
        ensures
            exists|p: int|
                0 <= p <= old(self)@.len() && final(self)@ == old(self)@.insert(p, result) && (
                forall|j: int| 0 <= j < p ==> old(self)@[j].timestamp <= result.timestamp) && (
                forall|j: int| p <= j < old(self)@.len() ==> old(self)@[j].timestamp > result.timestamp),
            is_time_ordered(final(self)@),
    {
        proof {
            use_type_invariant(&*self);
        }
        let mut pending: Vec<AnalysisResult> = Vec::new();
        std::mem::swap(&mut pending, &mut self.pending);
        let ghost s = pending@;
        let mut lo: usize = 0;
        let mut hi: usize = pending.len();
        while lo < hi
            invariant
                0 <= lo <= hi <= s.len(),
                pending@ == s,
                is_time_ordered(s),
                forall|j: int| 0 <= j < lo ==> s[j].timestamp <= result.timestamp,
                forall|j: int| hi <= j < s.len() ==> s[j].timestamp > result.timestamp,
            decreases hi - lo,
        {
            let mid = lo + (hi - lo) / 2;
            if pending[mid].timestamp <= result.timestamp {
                lo = mid + 1;
            } else {
                hi = mid;
            }
        }
        let ghost p = lo as int;
        pending.insert(lo, result);
        assert(is_time_ordered(pending@)) by {
            assert forall|i: int, j: int| 0 <= i <= j < pending@.len() implies pending@[i].timestamp
                <= pending@[j].timestamp by {
                if i < p && j > p {
                    assert(pending@[j] == s[j - 1]);
                } else if i > p {
                    assert(pending@[j] == s[j - 1]);
                    assert(pending@[i] == s[i - 1]);
                }
            }
        }
        self.pending = pending;
        assert(self@ == s.insert(p, result));
        assert(s == old(self)@);
    }

    /// Removes and returns, earliest first, every queued result whose
    /// timestamp is at or before `current_time`; later results stay queued.
    pub fn drain_up_to(&mut self, current_time: u64) -> (r: Vec<AnalysisResult>)
        ensures
            r@ + final(self)@ == old(self)@,
            forall|i: int| 0 <= i < r@.len() ==> (#[trigger] r@[i]).timestamp <= current_time,
            forall|i: int| 0 <= i < final(self)@.len() ==> (#[trigger] final(self)@[i]).timestamp > current_time,
            is_time_ordered(r@),
            is_time_ordered(final(self)@),
    {
        proof {
            use_type_invariant(&*self);
        }
        let mut pending: Vec<AnalysisResult> = Vec::new();
        std::mem::swap(&mut pending, &mut self.pending);
        let ghost s = pending@;
        let mut c: usize = 0;
        while c < pending.len() && pending[c].timestamp <= current_time
            invariant
                c <= s.len(),
                pending@ == s,
                forall|j: int| 0 <= j < c ==> s[j].timestamp <= current_time,
            decreases s.len() - c,
        {
            c += 1;
        }
        let rest = pending.split_off(c);
        assert(pending@ + rest@ =~= s);
        assert forall|i: int| 0 <= i < rest@.len() implies (#[trigger] rest@[i]).timestamp > current_time by {
            assert(rest@[i] == s[c + i]);
            assert(s[c as int].timestamp > current_time);
        }
        self.pending = rest;
        pending
    }
}

/// Draining twice at the same time releases nothing the second time: after a
/// drain at `t`, everything still queued lies after `t`.
pub proof fn lemma_drain_twice_releases_nothing(
    queued: Seq<AnalysisResult>,
    released: Seq<AnalysisResult>,
    left: Seq<AnalysisResult>,
    t: u64,
)
    requires
        forall|i: int| 0 <= i < queued.len() ==> (#[trigger] queued[i]).timestamp > t,
        released + left == queued,
        forall|i: int| 0 <= i < released.len() ==> (#[trigger] released[i]).timestamp <= t,
    ensures
        released.len() == 0,
        left == queued,
{
    if released.len() > 0 {
        assert(queued[0] == released[0]);
    }
    assert(left =~= queued);
}

} // verus!
