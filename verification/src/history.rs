use crate::errors::RawstErr;
use crate::args::HistoryArgs;
use vstd::prelude::*;
use vstd::std_specs::vec::vec_index_mut;

verus! {

/// A record's lifecycle: created `Pending` when a task starts, moved to
/// `Completed` exactly once, after both the fetch and the merge succeed.
#[derive(Clone, Copy, Debug, PartialEq, Eq, Structural)]
pub enum RecordStatus {
    Pending,
    Completed,
}

/// One persisted history entry: the durable metadata a later resume needs to
/// rebuild the task.
#[derive(Clone, Debug)]
pub struct Record {
    pub id: String,
    pub iri: String,
    pub file_name: String,
    pub file_size: u64,
    pub file_location: String,
    pub threads_used: usize,
    pub timestamp: String,
    pub status: RecordStatus,
    pub headers: Vec<(String, String)>,
}

impl Record {
    /// Builds a new record; every record starts out `Pending`.
    pub fn new(
        id: String,
        iri: String,
        file_name: String,
        file_size: u64,
        file_location: String,
        threads_used: usize,
        timestamp: String,
        headers_used: Vec<(String, String)>,
    ) -> (r: Record)
        ensures
            r == (Record {
                id,
                iri,
                file_name,
                file_size,
                file_location,
                threads_used,
                timestamp,
                status: RecordStatus::Pending,
                headers: headers_used,
            }),
    {
        Record {
            id,
            iri,
            file_name,
            file_size,
            file_location,
            threads_used,
            timestamp,
            status: RecordStatus::Pending,
            headers: headers_used,
        }
    }
}

/// The record store's handle: where the persisted record array lives. The
/// transport layer reads and rewrites that file; the operations on the
/// records themselves are below.
pub struct HistoryManager {
    pub file_path: String,
}

impl HistoryManager {
    pub fn new(file_path: String) -> (m: HistoryManager)
        ensures
            m.file_path == file_path,
    {
        HistoryManager { file_path }
    }
}

/// The first record carrying the given id, if any.
pub open spec fn spec_find_record(records: Seq<Record>, id: Seq<char>) -> Option<Record>
    decreases records.len(),
{
    if records.len() == 0 {
        None
    } else if records[0].id@ == id {
        Some(records[0])
    } else {
        spec_find_record(records.drop_first(), id)
    }
}

/// Looks a record up by id; the first match wins.
pub fn get_record<'a>(records: &'a Vec<Record>, id: &String) -> (r: Option<&'a Record>)
    ensures
        match r {
            Some(rec) => spec_find_record(records@, id@) == Some(*rec),
            None => spec_find_record(records@, id@) is None,
        },
{
    let mut i: usize = 0;
    proof {
        assert(records@.skip(0) =~= records@);
    }
    while i < records.len()
        invariant
            0 <= i <= records@.len(),
            spec_find_record(records@.skip(i as int), id@) == spec_find_record(records@, id@),
        decreases records@.len() - i,
    {
        proof {
            assert(records@.skip(i as int).drop_first() =~= records@.skip(i + 1));
            assert(records@.skip(i as int)[0] == records@[i as int]);
        }
        if records[i].id == *id {
            return Some(&records[i]);
        }
        i = i + 1;
    }
    proof {
        assert(records@.skip(records@.len() as int) =~= Seq::<Record>::empty());
    }
    None
}

/// The most recently added record that is still `Pending`, if any.
pub open spec fn spec_recent_pending(records: Seq<Record>) -> Option<Record>
    decreases records.len(),
{
    if records.len() == 0 {
        None
    } else if records.last().status is Pending {
        Some(records.last())
    } else {
        spec_recent_pending(records.drop_last())
    }
}

/// Finds the most recently added record that is still `Pending`: the one an
/// id-less resume request picks up.
pub fn get_recent_pending<'a>(records: &'a Vec<Record>) -> (r: Option<&'a Record>)
    ensures
        match r {
            Some(rec) => spec_recent_pending(records@) == Some(*rec),
            None => spec_recent_pending(records@) is None,
        },
{
    let mut i: usize = records.len();
    proof {
        assert(records@.subrange(0, records@.len() as int) =~= records@);
    }
    while i > 0
        invariant
            0 <= i <= records@.len(),
            spec_recent_pending(records@.subrange(0, i as int)) == spec_recent_pending(records@),
        decreases i,
    {
        proof {
            assert(records@.subrange(0, i as int).drop_last() =~= records@.subrange(0, i - 1));
            assert(records@.subrange(0, i as int).last() == records@[i - 1]);
        }
        if matches!(records[i - 1].status, RecordStatus::Pending) {
            return Some(&records[i - 1]);
        }
        i = i - 1;
    }
    proof {
        assert(records@.subrange(0, 0) =~= Seq::<Record>::empty());
    }
    None
}

/// Appends a freshly created record to the store's array.
pub fn add_record(records: &mut Vec<Record>, record: Record)
    ensures
        final(records)@ == old(records)@.push(record),
{
    records.push(record);
}

/// Marks every record carrying the given id as `Completed`, leaving all
/// other records untouched.
pub fn update_record(records: &mut Vec<Record>, id: &String)
    ensures
        final(records)@.len() == old(records)@.len(),
        forall|i: int|
            0 <= i < old(records)@.len() ==> #[trigger] final(records)@[i] == (
            if old(records)@[i].id@ == id@ {
                Record { status: RecordStatus::Completed, ..old(records)@[i] }
            } else {
                old(records)@[i]
            }),
{
    let n = records.len();
    let mut i: usize = 0;
    while i < n
        invariant
            0 <= i <= n == records@.len(),
            records@.len() == old(records)@.len(),
            forall|k: int|
                0 <= k < i ==> #[trigger] records@[k] == (
                if old(records)@[k].id@ == id@ {
                    Record { status: RecordStatus::Completed, ..old(records)@[k] }
                } else {
                    old(records)@[k]
                }),
            forall|k: int| i <= k < n ==> #[trigger] records@[k] == old(records)@[k],
        decreases n - i,
    {
        if records[i].id == *id {
            let rec = vec_index_mut(records, i);
            rec.status = RecordStatus::Completed;
        }
        i = i + 1;
    }
}

/// What a history request asks for.
#[derive(Clone, Copy, Debug, PartialEq, Eq, Structural)]
pub enum HistoryAction {
    Show,
    Clear,
}

/// Decides what a history request asks for: showing wins over clearing, and
/// a request that asks for neither is rejected.
pub fn check_history_args(args: HistoryArgs) -> (r: Result<HistoryAction, RawstErr>)
    ensures
        r == (if args.show {
            Ok::<HistoryAction, RawstErr>(HistoryAction::Show)
        } else if args.clear {
            Ok::<HistoryAction, RawstErr>(HistoryAction::Clear)
        } else {
            Err::<HistoryAction, RawstErr>(RawstErr::InvalidArgs)
        }),
{
    if args.show {
        Ok(HistoryAction::Show)
    } else if args.clear {
        Ok(HistoryAction::Clear)
    } else {
        Err(RawstErr::InvalidArgs)
    }
}

} // verus!
