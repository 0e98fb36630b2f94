use vstd::prelude::*;

verus! {

/// One record of the message log, as the log container hands it over.
#[derive(Debug, Clone, PartialEq, Eq)]
pub enum LogRecord {
    /// A data record, with its message payload.
    Data(Vec<u8>),
    /// A well-formed record that carries no message data.
    Other,
    /// A record that the container could not read.
    Corrupt,
}

/// The skip policy: only data records reach the decoder.
pub open spec fn is_data(r: LogRecord) -> bool {
    r is Data
}

/// The payloads that a run of records hands on, in order.
pub open spec fn kept_payloads(rs: Seq<LogRecord>) -> Seq<Seq<u8>>
    decreases rs.len(),
{
    if rs.len() == 0 {
        Seq::empty()
    } else {
        let before = kept_payloads(rs.drop_last());
        match rs.last() {
            LogRecord::Data(p) => before.push(p@),
            _ => before,
        }
    }
}

/// Whether a record is a data record, the only kind that is decoded.
pub fn is_data_record(r: &LogRecord) -> (b: bool)
    ensures
        b == is_data(*r),
{
    match r {
        LogRecord::Data(_) => true,
        _ => false,
    }
}

/// The payload of a data record; nothing for any other record.
pub fn record_payload(r: &LogRecord) -> (p: Option<&[u8]>)
    ensures
        p is Some == is_data(*r),
        p matches Some(b) ==> (*r matches LogRecord::Data(v) && b@ == v@),
{
    match r {
        LogRecord::Data(v) => {
            Some(v.as_slice())
        },
        _ => None,
    }
}

/// The payloads of all data records, in order.
pub fn data_payloads(records: &Vec<LogRecord>) -> (r: Vec<Vec<u8>>)
    ensures
        r@.len() == kept_payloads(records@).len(),
        forall|i: int| 0 <= i < r@.len() ==> #[trigger] r@[i]@ == kept_payloads(records@)[i],
{
    let mut out: Vec<Vec<u8>> = Vec::new();
    let mut i: usize = 0;
    while i < records.len()
        invariant
            i <= records@.len(),
            out@.len() == kept_payloads(records@.take(i as int)).len(),
            forall|j: int| 0 <= j < out@.len() ==> #[trigger] out@[j]@ == kept_payloads(records@.take(i as int))[j],
        decreases records@.len() - i,
    {
        proof {
            assert(records@.take(i as int + 1).drop_last() =~= records@.take(i as int));
        }
        match &records[i] {
            LogRecord::Data(v) => {
                out.push(v.clone());
            },
            _ => {},
        }
        i = i + 1;
    }
    assert(records@.take(records@.len() as int) =~= records@);
    out
}

proof fn lemma_kept_concat(a: Seq<LogRecord>, b: Seq<LogRecord>)
    ensures
        kept_payloads(a + b) == kept_payloads(a) + kept_payloads(b),
    decreases b.len(),
{
    if b.len() == 0 {
        assert(a + b =~= a);
        assert(kept_payloads(a) + kept_payloads(b) =~= kept_payloads(a));
    } else {
        lemma_kept_concat(a, b.drop_last());
        assert((a + b).drop_last() =~= a + b.drop_last());
        assert((a + b).last() == b.last());
        match b.last() {
            LogRecord::Data(p) => {
                assert(kept_payloads(a) + kept_payloads(b.drop_last()).push(p@) =~= (kept_payloads(a)
                    + kept_payloads(b.drop_last())).push(p@));
            },
            _ => {},
        }
    }
}

/// A log with one unreadable record among others hands on exactly the
/// payloads of the same log with that record taken out.
pub proof fn lemma_corrupt_record_skipped(before: Seq<LogRecord>, after: Seq<LogRecord>)
    ensures
        kept_payloads(before + seq![LogRecord::Corrupt] + after) == kept_payloads(before + after),
{
    let c = seq![LogRecord::Corrupt];
    lemma_kept_concat(before + c, after);
    lemma_kept_concat(before, c);
    lemma_kept_concat(before, after);
    assert(c.drop_last() =~= Seq::<LogRecord>::empty());
    assert(c.last() == LogRecord::Corrupt);
    assert(kept_payloads(Seq::<LogRecord>::empty()) == Seq::<Seq<u8>>::empty());
    assert(kept_payloads(c) == kept_payloads(c.drop_last()));
    assert(kept_payloads(c) =~= Seq::<Seq<u8>>::empty());
    assert(kept_payloads(before) + kept_payloads(c) =~= kept_payloads(before));
}

} // verus!
