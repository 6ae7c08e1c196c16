//! An append-only, in-memory audit log of security-relevant actions. Writing
//! a record cannot fail and never blocks the operation that triggered it;
//! where records are to be persisted, a caller drains or copies them on its
//! own schedule.

use vstd::prelude::*;

verus! {

/// One security-relevant event: who (if anyone was authenticated), what, any
/// structured detail the caller attaches, and when.
pub struct AuditRecord {
    pub actor: Option<Vec<u8>>,
    pub action: Vec<u8>,
    pub detail: Vec<u8>,
    pub timestamp: u64,
}

/// The mathematical value of an `AuditRecord`.
pub struct AuditRecordView {
    pub actor: Option<Seq<u8>>,
    pub action: Seq<u8>,
    pub detail: Seq<u8>,
    pub timestamp: u64,
}

impl View for AuditRecord {
    type V = AuditRecordView;

    open spec fn view(&self) -> AuditRecordView {
        AuditRecordView {
            actor: match self.actor {
                Some(a) => Some(a@),
                None => None,
            },
            action: self.action@,
            detail: self.detail@,
            timestamp: self.timestamp,
        }
    }
}

/// The append-only record of gated operations.
pub struct AuditLog {
    records: Vec<AuditRecord>,
}

impl View for AuditLog {
    type V = Seq<AuditRecordView>;

    closed spec fn view(&self) -> Seq<AuditRecordView> {
        self.records@.map_values(|r: AuditRecord| r@)
    }
}

impl AuditLog {
    pub fn new() -> (r: AuditLog)
        ensures
            r@ == Seq::<AuditRecordView>::empty(),
    {
        let r = AuditLog { records: Vec::new() };
        proof {
            assert(r@ =~= Seq::<AuditRecordView>::empty());
        }
        r
    }

    /// Append one record. Nothing is ever removed or overwritten, and the
    /// write cannot fail.
    pub fn record(&mut self, rec: AuditRecord)
        ensures
            final(self)@ == old(self)@.push(rec@),
    {
        let ghost prev = self.records@;
        self.records.push(rec);
        proof {
            assert(self@ =~= prev.map_values(|r: AuditRecord| r@).push(rec@));
        }
    }

    pub fn len(&self) -> (r: usize)
        ensures
            r == self@.len(),
    {
        self.records.len()
    }

    /// Read one record back, oldest first.
    pub fn get(&self, i: usize) -> (r: &AuditRecord)
        requires
            i < self@.len(),
        ensures
            r@ == self@[i as int],
    {
        &self.records[i]
    }
}

} // verus!
