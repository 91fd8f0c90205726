use vstd::prelude::*;

verus! {

/// The mathematical model of a weather record: the identifier, the raw bytes
/// of the description, and the raw bytes of the temperature's decimal text.
pub ghost struct RecordView {
    pub id: u64,
    pub description: Seq<u8>,
    pub temperature: Seq<u8>,
}

/// One weather record as fetched from the provider and cached.
///
/// The temperature is carried verbatim as the decimal text the provider sent
/// (for example `295.2`), so the value is relayed without any rounding.
pub struct WeatherRecord {
    pub id: u64,
    pub description: Vec<u8>,
    pub temperature: Vec<u8>,
}

impl View for WeatherRecord {
    type V = RecordView;

    open spec fn view(&self) -> RecordView {
        RecordView {
            id: self.id,
            description: self.description@,
            temperature: self.temperature@,
        }
    }
}

impl DeepView for WeatherRecord {
    type V = RecordView;

    open spec fn deep_view(&self) -> RecordView {
        self.view()
    }
}

impl WeatherRecord {
    /// Builds a record after checking its parts: the temperature bytes must
    /// be a decimal number token and the description must hold no control
    /// bytes, so that the record survives the wire format unchanged.
    pub fn new(id: u64, description: Vec<u8>, temperature: Vec<u8>) -> (r: Option<WeatherRecord>)
        ensures
            match r {
                Some(record) => record@ == (RecordView {
                    id,
                    description: description@,
                    temperature: temperature@,
                }) && crate::wire::wf_record(record@),
                None => !crate::wire::wf_record(
                    RecordView { id, description: description@, temperature: temperature@ },
                ),
            },
    {
        let mut i: usize = 0;
        while i < description.len()
            invariant
                i <= description@.len(),
                forall|j: int| 0 <= j < i ==> description@[j] >= 0x20,
            decreases description@.len() - i,
        {
            if description[i] < 0x20 {
                proof {
                    let rv = RecordView {
                        id,
                        description: description@,
                        temperature: temperature@,
                    };
                    assert(rv.description[i as int] < 0x20);
                    assert(!crate::wire::wf_record(rv));
                }
                return None;
            }
            i = i + 1;
        }
        if !crate::wire::check_number_token(temperature.as_slice()) {
            return None;
        }
        Some(WeatherRecord { id, description, temperature })
    }
}

impl Clone for WeatherRecord {
    fn clone(&self) -> (r: Self)
        ensures
            r@ == self@,
    {
        WeatherRecord {
            id: self.id,
            description: self.description.clone(),
            temperature: self.temperature.clone(),
        }
    }
}

/// Copies a vector of records; the copy models the same sequence.
pub fn clone_records(records: &Vec<WeatherRecord>) -> (r: Vec<WeatherRecord>)
    ensures
        r.deep_view() == records.deep_view(),
{
    let mut copy: Vec<WeatherRecord> = Vec::new();
    let ghost target = records.deep_view();
    let mut i: usize = 0;
    assert(copy.deep_view() =~= target.take(0));
    while i < records.len()
        invariant
            i <= records@.len(),
            target == records.deep_view(),
            copy.deep_view() == target.take(i as int),
        decreases records@.len() - i,
    {
        let ghost prev = copy@;
        proof {
            assert(target.len() == records@.len());
            assert(Seq::new(prev.len(), |k: int| prev[k].deep_view()).len() == prev.len());
            assert(target.take(i as int).len() == i);
        }
        let element = records[i].clone();
        copy.push(element);
        proof {
            assert(copy@ == prev.push(element));
            assert(copy@.len() == prev.len() + 1);
            assert(prev.len() == i);
            assert(copy@.len() == i + 1);
            assert forall|j: int| 0 <= j < i + 1 implies copy.deep_view()[j] == target.take(
                i + 1,
            )[j] by {
                assert(copy.deep_view()[j] == copy@[j].deep_view());
                assert(target.take(i + 1)[j] == target[j]);
                assert(target[j] == records@[j].deep_view());
                if j < i {
                    assert(copy@[j] == prev[j]);
                    assert(prev[j].deep_view() == target.take(i as int)[j]);
                } else {
                    assert(copy@[j].deep_view() == records@[i as int].deep_view());
                }
            }
            assert(copy.deep_view() =~= target.take(i + 1));
        }
        i = i + 1;
    }
    assert(copy.deep_view() =~= target);
    copy
}

} // verus!
