use vstd::prelude::*;

use crate::record::RecordView;
use crate::record::WeatherRecord;

verus! {

/// The shared in-memory holder of the most recently fetched records.
///
/// All access from concurrent request handlers must go through one
/// mutual-exclusion lock around a value of this type; under that lock every
/// `replace` and every `snapshot` is one atomic step, so the contracts below
/// describe exactly the states a caller can observe.
pub struct WeatherCache {
    records: Vec<WeatherRecord>,
}

impl View for WeatherCache {
    type V = Seq<RecordView>;

    closed spec fn view(&self) -> Seq<RecordView> {
        self.records.deep_view()
    }
}

impl WeatherCache {
    /// Creates the cache in its initial state: no records.
    pub fn new() -> (r: WeatherCache)
        ensures
            r@ == Seq::<RecordView>::empty(),
    {
        let cache = WeatherCache { records: Vec::new() };
        assert(cache@ =~= Seq::<RecordView>::empty());
        cache
    }

    /// Overwrites the stored records with `new_records` as a whole; the
    /// previous contents are discarded, never merged.
    pub fn replace(&mut self, new_records: Vec<WeatherRecord>)
        ensures
            final(self)@ == new_records.deep_view(),
    {
        self.records = new_records;
    }

    /// Returns a copy of the stored records; the cache itself is unchanged.
    /// Two snapshots with no replace between them therefore return equal
    /// sequences.
    pub fn snapshot(&self) -> (r: Vec<WeatherRecord>)
        ensures
            r.deep_view() == self@,
    {
        crate::record::clone_records(&self.records)
    }
}

/// The cache contents after the `replace` calls whose arguments are
/// `history`, applied in the order the lock admitted them: each call
/// overwrites the contents with its argument, and the cache starts empty.
pub open spec fn contents_after(history: Seq<Seq<RecordView>>) -> Seq<RecordView>
    decreases history.len(),
{
    if history.len() == 0 {
        Seq::empty()
    } else {
        history.last()
    }
}

/// Cache atomicity: however the lock has serialized the `replace` calls, a
/// snapshot taken now returns either the empty initial sequence or the
/// complete argument of one of those calls — never a mixture of two calls'
/// elements.
pub proof fn lemma_snapshot_is_whole_replace(history: Seq<Seq<RecordView>>)
    ensures
        contents_after(history) == Seq::<RecordView>::empty() || exists|i: int|
            0 <= i < history.len() && history[i] == contents_after(history),
{
    if history.len() > 0 {
        assert(history[history.len() - 1] == contents_after(history));
    }
}

/// Last writer wins: after at least one `replace`, the cache holds exactly
/// the argument of the call the lock admitted last.
pub proof fn lemma_last_writer_wins(history: Seq<Seq<RecordView>>)
    requires
        history.len() > 0,
    ensures
        contents_after(history) == history.last(),
{
}

/// Idempotent read: two snapshots of the same cache contents, taken with no
/// replace between them, are equal — each is exactly the current contents.
pub proof fn lemma_snapshot_idempotent(
    contents: Seq<RecordView>,
    first: Seq<RecordView>,
    second: Seq<RecordView>,
)
    requires
        first == contents,
        second == contents,
    ensures
        first == second,
{
}

} // verus!
