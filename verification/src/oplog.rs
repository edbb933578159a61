//! The operation log: an append-only journal of operation lifecycle events.
//!
//! An entry's sequence number is its position in the journal. Of each
//! operation the journal holds, in this order, one `Started` entry, any
//! number of `Progress` entries, and at most one closing entry (`Terminal`
//! or `Error`).

use vstd::prelude::*;
use crate::ids::{ModuleInstanceId, OperationId};

verus! {

/// What an entry records of its operation.
#[derive(Clone, Copy, Debug, PartialEq, Eq, Structural)]
pub enum EntryKind {
    /// The operation began.
    Started,
    /// A transition of one of its machines was committed.
    Progress,
    /// The operation ended with its final outcome.
    Terminal,
    /// A transition function aborted; the operation failed.
    Error,
}

impl EntryKind {
    /// Tells whether an entry of this kind ends its operation.
    pub open spec fn closes(self) -> bool {
        self == EntryKind::Terminal || self == EntryKind::Error
    }

    /// Tells whether an entry of this kind ends its operation.
    #[verifier::when_used_as_spec(closes)]
    pub fn is_closing(self) -> (closing: bool)
        ensures
            closing == self.closes(),
    {
        match self {
            EntryKind::Terminal | EntryKind::Error => true,
            _ => false,
        }
    }
}

/// One record of the journal.
#[derive(Debug)]
pub struct OperationLogEntry {
    pub kind: EntryKind,
    pub module_instance_id: Option<ModuleInstanceId>,
    pub operation_id: OperationId,
    pub created_at: u64,
    pub payload: Vec<u8>,
}

/// An entry as a mathematical value.
pub struct EntryView {
    pub kind: EntryKind,
    pub module_instance_id: Option<ModuleInstanceId>,
    pub operation_id: OperationId,
    pub created_at: u64,
    pub payload: Seq<u8>,
}

impl View for OperationLogEntry {
    type V = EntryView;

    open spec fn view(&self) -> EntryView {
        EntryView {
            kind: self.kind,
            module_instance_id: self.module_instance_id,
            operation_id: self.operation_id,
            created_at: self.created_at,
            payload: self.payload@,
        }
    }
}

impl Clone for OperationLogEntry {
    fn clone(&self) -> (copy: Self)
        ensures
            copy@ == self@,
    {
        OperationLogEntry {
            kind: self.kind,
            module_instance_id: self.module_instance_id,
            operation_id: self.operation_id,
            created_at: self.created_at,
            payload: self.payload.clone(),
        }
    }
}

/// The entries of a list as mathematical values.
pub open spec fn entry_views(entries: Seq<OperationLogEntry>) -> Seq<EntryView> {
    entries.map_values(|e: OperationLogEntry| e@)
}

/// Why an entry cannot be appended.
#[derive(Clone, Copy, Debug, PartialEq, Eq, Structural)]
pub enum LogError {
    /// The operation already has a `Started` entry.
    AlreadyStarted,
    /// The operation has no `Started` entry yet.
    NotStarted,
    /// The operation already has a closing entry.
    Closed,
}

/// The journal holds a `Started` entry of the operation.
pub open spec fn started(log: Seq<EntryView>, operation_id: OperationId) -> bool {
    exists|i: int|
        0 <= i < log.len() && (#[trigger] log[i]).operation_id == operation_id && log[i].kind
            == EntryKind::Started
}

/// The journal holds a closing entry of the operation.
pub open spec fn closed(log: Seq<EntryView>, operation_id: OperationId) -> bool {
    exists|i: int|
        0 <= i < log.len() && (#[trigger] log[i]).operation_id == operation_id
            && log[i].kind.closes()
}

/// What speaks against appending an entry of `kind` for the operation, if
/// anything does.
pub open spec fn refusal(log: Seq<EntryView>, kind: EntryKind, operation_id: OperationId) -> Option<
    LogError,
> {
    if kind == EntryKind::Started {
        if started(log, operation_id) {
            Some(LogError::AlreadyStarted)
        } else {
            None
        }
    } else if !started(log, operation_id) {
        Some(LogError::NotStarted)
    } else if closed(log, operation_id) {
        Some(LogError::Closed)
    } else {
        None
    }
}

/// Every entry was admissible after those before it: of each operation the
/// journal holds `Started`, then `Progress` entries, then at most one closing
/// entry.
pub open spec fn ordered(log: Seq<EntryView>) -> bool {
    forall|i: int|
        0 <= i < log.len() ==> refusal(
            log.subrange(0, i),
            (#[trigger] log[i]).kind,
            log[i].operation_id,
        ) is None
}

/// The journal after an attempt to append: longer by the entry where
/// nothing speaks against it, unchanged otherwise.
pub open spec fn appended(log: Seq<EntryView>, entry: EntryView) -> Seq<EntryView> {
    if refusal(log, entry.kind, entry.operation_id) is None {
        log.push(entry)
    } else {
        log
    }
}

/// Appending an admissible entry keeps the journal ordered.
pub proof fn lemma_appended_ordered(log: Seq<EntryView>, entry: EntryView)
    requires
        ordered(log),
    ensures
        ordered(appended(log, entry)),
{
    let after = appended(log, entry);
    assert forall|i: int| 0 <= i < after.len() implies refusal(
        after.subrange(0, i),
        (#[trigger] after[i]).kind,
        after[i].operation_id,
    ) is None by {
        if i < log.len() {
            assert(after.subrange(0, i) == log.subrange(0, i));
            assert(after[i] == log[i]);
        } else {
            assert(after.subrange(0, i) == log);
        }
    }
}

/// The operation log.
#[derive(Debug)]
pub struct OperationLog {
    entries: Vec<OperationLogEntry>,
}

impl View for OperationLog {
    type V = Seq<EntryView>;

    closed spec fn view(&self) -> Seq<EntryView> {
        entry_views(self.entries@)
    }
}

impl OperationLog {
    /// The journal's entries are in lifecycle order.
    pub open spec fn wf(&self) -> bool {
        ordered(self@)
    }

    /// An empty journal.
    pub fn new() -> (log: Self)
        ensures
            log@ == Seq::<EntryView>::empty(),
            log.wf(),
    {
        let log = OperationLog { entries: Vec::new() };
        assert(log@ =~= Seq::<EntryView>::empty());
        log
    }

    /// Rebuilds a journal from its entries in the order of their sequence
    /// numbers, if they are in lifecycle order.
    pub fn from_entries(entries: Vec<OperationLogEntry>) -> (log: Option<Self>)
        ensures
            match log {
                Some(log) => log.wf() && log@ == entry_views(entries@),
                None => !ordered(entry_views(entries@)),
            },
    {
        let ghost all = entry_views(entries@);
        let mut log = OperationLog::new();
        let mut i: usize = 0;
        assert(all.subrange(0, 0) =~= Seq::<EntryView>::empty());
        while i < entries.len()
            invariant
                i <= entries.len(),
                all == entry_views(entries@),
                log.wf(),
                log@ == all.subrange(0, i as int),
            decreases entries.len() - i,
        {
            let entry = entries[i].clone();
            assert(entry@ == all[i as int]);
            match log.append(entry) {
                Err(_) => {
                    return None;
                },
                Ok(_) => {
                    assert(log@ =~= all.subrange(0, i + 1));
                },
            }
            i += 1;
        }
        assert(all.subrange(0, i as int) == all);
        Some(log)
    }

    /// The entries, in the order of their sequence numbers.
    pub fn entries(&self) -> (entries: Vec<OperationLogEntry>)
        ensures
            entry_views(entries@) == self@,
    {
        let mut entries: Vec<OperationLogEntry> = Vec::new();
        let mut i: usize = 0;
        while i < self.entries.len()
            invariant
                i <= self.entries.len(),
                entry_views(entries@) == self@.subrange(0, i as int),
            decreases self.entries.len() - i,
        {
            let ghost before = entry_views(entries@);
            let entry = self.entries[i].clone();
            entries.push(entry);
            assert(entry_views(entries@) =~= before.push(self@[i as int]));
            i += 1;
        }
        assert(self@.subrange(0, i as int) == self@);
        entries
    }

    /// The number of entries, which is the next sequence number.
    pub fn len(&self) -> (n: usize)
        ensures
            n == self@.len(),
    {
        self.entries.len()
    }

    /// The entry with the given sequence number, if there is one.
    pub fn get(&self, seq: u64) -> (entry: Option<OperationLogEntry>)
        ensures
            match entry {
                Some(e) => seq < self@.len() && e@ == self@[seq as int],
                None => seq >= self@.len(),
            },
    {
        if seq < self.entries.len() as u64 {
            Some(self.entries[seq as usize].clone())
        } else {
            None
        }
    }

    /// Tells whether the operation has a `Started` entry.
    pub fn is_started(&self, operation_id: &OperationId) -> (yes: bool)
        ensures
            yes == started(self@, *operation_id),
    {
        let mut i: usize = 0;
        while i < self.entries.len()
            invariant
                i <= self.entries.len(),
                forall|j: int|
                    0 <= j < i ==> !((#[trigger] self@[j]).operation_id == *operation_id
                        && self@[j].kind == EntryKind::Started),
            decreases self.entries.len() - i,
        {
            let entry = &self.entries[i];
            assert(self@[i as int] == entry@);
            if entry.operation_id == *operation_id && entry.kind == EntryKind::Started {
                return true;
            }
            i += 1;
        }
        false
    }

    /// Tells whether the operation has a closing entry.
    pub fn is_closed(&self, operation_id: &OperationId) -> (yes: bool)
        ensures
            yes == closed(self@, *operation_id),
    {
        let mut i: usize = 0;
        while i < self.entries.len()
            invariant
                i <= self.entries.len(),
                forall|j: int|
                    0 <= j < i ==> !((#[trigger] self@[j]).operation_id == *operation_id
                        && self@[j].kind.closes()),
            decreases self.entries.len() - i,
        {
            let entry = &self.entries[i];
            assert(self@[i as int] == entry@);
            if entry.operation_id == *operation_id && entry.kind.is_closing() {
                return true;
            }
            i += 1;
        }
        false
    }

    /// Appends an entry where the lifecycle order admits it and gives its
    /// sequence number; otherwise leaves the journal as it is and says what
    /// speaks against the entry.
    pub fn append(&mut self, entry: OperationLogEntry) -> (r: Result<u64, LogError>)
        requires
            old(self).wf(),
        ensures
            final(self).wf(),
            final(self)@ == appended(old(self)@, entry@),
            match refusal(old(self)@, entry.kind, entry.operation_id) {
                None => r == Ok::<u64, LogError>(old(self)@.len() as u64),
                Some(e) => r == Err::<u64, LogError>(e),
            },
    {
        proof {
            lemma_appended_ordered(self@, entry@);
        }
        let is_start = match entry.kind {
            EntryKind::Started => true,
            _ => false,
        };
        let has_start = self.is_started(&entry.operation_id);
        if is_start {
            if has_start {
                return Err(LogError::AlreadyStarted);
            }
        } else {
            if !has_start {
                return Err(LogError::NotStarted);
            }
            if self.is_closed(&entry.operation_id) {
                return Err(LogError::Closed);
            }
        }
        let seq = self.entries.len() as u64;
        let ghost pushed = entry@;
        self.entries.push(entry);
        assert(self@ =~= old(self)@.push(pushed));
        Ok(seq)
    }

    /// The entries of one operation, in journal order.
    pub fn entries_of(&self, operation_id: &OperationId) -> (found: Vec<OperationLogEntry>)
        ensures
            found@.map_values(|e: OperationLogEntry| e@) == self@.filter(
                |e: EntryView| e.operation_id == *operation_id,
            ),
    {
        let mut found: Vec<OperationLogEntry> = Vec::new();
        let ghost pred = |e: EntryView| e.operation_id == *operation_id;
        let mut i: usize = 0;
        assert(self@.subrange(0, 0) =~= Seq::<EntryView>::empty());
        assert(found@.map_values(|e: OperationLogEntry| e@) =~= Seq::<EntryView>::empty());
        proof {
            reveal(Seq::filter);
        }
        while i < self.entries.len()
            invariant
                i <= self.entries.len(),
                pred == |e: EntryView| e.operation_id == *operation_id,
                found@.map_values(|e: OperationLogEntry| e@) == self@.subrange(0, i as int).filter(
                    pred,
                ),
            decreases self.entries.len() - i,
        {
            let entry = &self.entries[i];
            proof {
                let before = self@.subrange(0, i as int);
                let next = self@.subrange(0, i + 1);
                assert(next.drop_last() == before);
                assert(next.last() == entry@);
                reveal(Seq::filter);
            }
            if entry.operation_id == *operation_id {
                let ghost prev = found@.map_values(|e: OperationLogEntry| e@);
                found.push(entry.clone());
                assert(found@.map_values(|e: OperationLogEntry| e@) =~= prev.push(entry@));
            }
            i += 1;
        }
        assert(self@.subrange(0, i as int) == self@);
        found
    }
}

} // verus!
