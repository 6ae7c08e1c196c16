//! Short-lived one-time verification codes, one per contact. Issuing a code
//! for a contact overwrites whatever code that contact had, so at most one
//! unconsumed, unexpired code is ever valid per contact. A code is consumed
//! by its first successful verification and never validates again.

use vstd::prelude::*;
use vstd::slice::slice_to_vec;
use crate::bytes::{ct_bytes_eq, is_digit};
use crate::crypto::random_u32;
use crate::errors::AuthError;

verus! {

/// The stored state of one contact's code.
pub struct CodeView {
    pub code: Seq<u8>,
    pub expires_at: u64,
    pub consumed: bool,
}

struct CodeEntry {
    contact: Vec<u8>,
    code: Vec<u8>,
    expires_at: u64,
    consumed: bool,
}

/// When a `verify(contact, code)` call at time `now` succeeds, given what is
/// stored for the contact: there is a stored code, it is unconsumed, its
/// expiry lies strictly ahead, and the presented code matches it.
pub open spec fn code_ok(stored: Option<CodeView>, code: Seq<u8>, now: u64) -> bool {
    match stored {
        Some(c) => !c.consumed && now < c.expires_at && c.code == code,
        None => false,
    }
}

spec fn entry_view(e: CodeEntry) -> CodeView {
    CodeView { code: e.code@, expires_at: e.expires_at, consumed: e.consumed }
}

spec fn seq_code_of(s: Seq<CodeEntry>, contact: Seq<u8>) -> Option<CodeView>
    decreases s.len(),
{
    if s.len() == 0 {
        None
    } else if s[0].contact@ == contact {
        Some(entry_view(s[0]))
    } else {
        seq_code_of(s.drop_first(), contact)
    }
}

spec fn distinct_contacts(s: Seq<CodeEntry>) -> bool {
    forall|i: int, j: int|
        0 <= i < j < s.len() ==> !(#[trigger] s[i].contact@ == #[trigger] s[j].contact@)
}

proof fn lemma_code_none(s: Seq<CodeEntry>, contact: Seq<u8>)
    ensures
        (seq_code_of(s, contact) is None) <==> (forall|i: int|
            0 <= i < s.len() ==> (#[trigger] s[i].contact@) != contact),
    decreases s.len(),
{
    reveal_with_fuel(seq_code_of, 3);
    if s.len() > 0 {
        lemma_code_none(s.drop_first(), contact);
        assert forall|i: int| 1 <= i < s.len() implies s.drop_first()[i - 1] == s[i] by {}
    }
}

proof fn lemma_code_found(s: Seq<CodeEntry>, contact: Seq<u8>, i: int)
    requires
        distinct_contacts(s),
        0 <= i < s.len(),
        s[i].contact@ == contact,
    ensures
        seq_code_of(s, contact) == Some(entry_view(s[i])),
    decreases s.len(),
{
    reveal_with_fuel(seq_code_of, 3);
    if i > 0 {
        lemma_code_found(s.drop_first(), contact, i - 1);
    }
}

proof fn lemma_code_update_other(s: Seq<CodeEntry>, i: int, e: CodeEntry, contact: Seq<u8>)
    requires
        0 <= i < s.len(),
        e.contact@ == s[i].contact@,
        contact != e.contact@,
    ensures
        seq_code_of(s.update(i, e), contact) == seq_code_of(s, contact),
    decreases s.len(),
{
    reveal_with_fuel(seq_code_of, 3);
    let s2 = s.update(i, e);
    if i == 0 {
        assert(s2[0] == e);
        assert(s2.drop_first() =~= s.drop_first());
    } else {
        assert(s2[0] == s[0]);
        if s[0].contact@ != contact {
            assert(s2.drop_first() =~= s.drop_first().update(i - 1, e));
            lemma_code_update_other(s.drop_first(), i - 1, e, contact);
        }
    }
}

proof fn lemma_code_push_other(s: Seq<CodeEntry>, e: CodeEntry, contact: Seq<u8>)
    requires
        contact != e.contact@,
    ensures
        seq_code_of(s.push(e), contact) == seq_code_of(s, contact),
    decreases s.len(),
{
    reveal_with_fuel(seq_code_of, 3);
    let s2 = s.push(e);
    if s.len() == 0 {
        assert(s2[0] == e);
        assert(s2.drop_first() =~= Seq::<CodeEntry>::empty());
        assert(seq_code_of(Seq::<CodeEntry>::empty(), contact) is None);
    } else {
        assert(s2[0] == s[0]);
        if s[0].contact@ != contact {
            assert(s2.drop_first() =~= s.drop_first().push(e));
            lemma_code_push_other(s.drop_first(), e, contact);
        }
    }
}

proof fn lemma_code_update(s: Seq<CodeEntry>, i: int, e: CodeEntry)
    requires
        distinct_contacts(s),
        0 <= i < s.len(),
        e.contact@ == s[i].contact@,
    ensures
        distinct_contacts(s.update(i, e)),
        seq_code_of(s.update(i, e), e.contact@) == Some(entry_view(e)),
        forall|c: Seq<u8>|
            c != e.contact@ ==> #[trigger] seq_code_of(s.update(i, e), c) == seq_code_of(s, c),
{
    let s2 = s.update(i, e);
    assert forall|p: int, q: int|
        0 <= p < q < s2.len() implies !(#[trigger] s2[p].contact@ == #[trigger] s2[q].contact@) by {
        assert(s2[p].contact@ == s[p].contact@);
        assert(s2[q].contact@ == s[q].contact@);
    }
    lemma_code_found(s2, e.contact@, i);
    assert forall|c: Seq<u8>|
        c != e.contact@ implies #[trigger] seq_code_of(s2, c) == seq_code_of(s, c) by {
        lemma_code_update_other(s, i, e, c);
    }
}

proof fn lemma_code_push(s: Seq<CodeEntry>, e: CodeEntry)
    requires
        distinct_contacts(s),
        seq_code_of(s, e.contact@) is None,
    ensures
        distinct_contacts(s.push(e)),
        seq_code_of(s.push(e), e.contact@) == Some(entry_view(e)),
        forall|c: Seq<u8>|
            c != e.contact@ ==> #[trigger] seq_code_of(s.push(e), c) == seq_code_of(s, c),
{
    lemma_code_none(s, e.contact@);
    let s2 = s.push(e);
    assert forall|p: int, q: int|
        0 <= p < q < s2.len() implies !(#[trigger] s2[p].contact@ == #[trigger] s2[q].contact@) by {
        if q < s.len() {
            assert(s2[p] == s[p] && s2[q] == s[q]);
        } else {
            assert(s2[q] == e && s2[p] == s[p]);
        }
    }
    lemma_code_found(s2, e.contact@, s.len() as int);
    assert forall|c: Seq<u8>|
        c != e.contact@ implies #[trigger] seq_code_of(s2, c) == seq_code_of(s, c) by {
        lemma_code_push_other(s, e, c);
    }
}

fn find_contact(entries: &Vec<CodeEntry>, contact: &[u8]) -> (r: Option<usize>)
    ensures
        match r {
            Some(i) => i < entries@.len() && entries@[i as int].contact@ == contact@,
            None => forall|j: int|
                0 <= j < entries@.len() ==> (#[trigger] entries@[j].contact@) != contact@,
        },
{
    let n = entries.len();
    let mut i: usize = 0;
    while i < n
        invariant
            n == entries@.len(),
            i <= n,
            forall|j: int| 0 <= j < i ==> (#[trigger] entries@[j].contact@) != contact@,
        decreases n - i,
    {
        if ct_bytes_eq(entries[i].contact.as_slice(), contact) {
            return Some(i);
        }
        i = i + 1;
    }
    None
}

/// Draw a fresh six-digit ASCII code from the machine's randomness.
fn generate_code() -> (r: Vec<u8>)
    ensures
        r@.len() == 6,
        forall|i: int| 0 <= i < r@.len() ==> is_digit(#[trigger] r@[i]),
{
    let mut m = random_u32();
    let mut v: Vec<u8> = Vec::new();
    let mut i: usize = 0;
    while i < 6
        invariant
            i <= 6,
            v@.len() == i,
            forall|j: int| 0 <= j < i ==> is_digit(#[trigger] v@[j]),
        decreases 6 - i,
    {
        let d = m % 10;
        v.push(48 + d as u8);
        m = m / 10;
        i = i + 1;
    }
    v
}

/// Issues and validates one-time codes, keyed by contact. Owns its entries
/// exclusively; callers share it only behind their own mutual exclusion.
pub struct CodeStore {
    entries: Vec<CodeEntry>,
}

impl CodeStore {
    /// The entries never hold two codes for one contact.
    pub closed spec fn wf(&self) -> bool {
        distinct_contacts(self.entries@)
    }

    /// The code currently stored for a contact, if any.
    pub closed spec fn code_of(&self, contact: Seq<u8>) -> Option<CodeView> {
        seq_code_of(self.entries@, contact)
    }

    /// An empty store: no contact holds a code yet.
    pub fn new() -> (r: CodeStore)
        ensures
            r.wf(),
            forall|c: Seq<u8>| r.code_of(c) is None,
    {
        let r = CodeStore { entries: Vec::new() };
        proof {
            assert forall|c: Seq<u8>| r.code_of(c) is None by {
                lemma_code_none(r.entries@, c);
            }
        }
        r
    }

    /// Issue a fresh six-digit code for `contact`, good until `now + ttl`,
    /// overwriting — and so invalidating — any code the contact had. The
    /// caller dispatches the returned code over its notification channel;
    /// issuance does not depend on that delivery.
    pub fn issue(&mut self, contact: &[u8], now: u64, ttl: u64) -> (code: Vec<u8>)
        requires
            old(self).wf(),
            now + ttl <= u64::MAX,
        ensures
            final(self).wf(),
            code@.len() == 6,
            forall|i: int| 0 <= i < code@.len() ==> is_digit(#[trigger] code@[i]),
            final(self).code_of(contact@) == Some(
                (CodeView { code: code@, expires_at: (now + ttl) as u64, consumed: false }),
            ),
            forall|c: Seq<u8>|
                c != contact@ ==> #[trigger] final(self).code_of(c) == old(self).code_of(c),
    {
        let code = generate_code();
        let entry = CodeEntry {
            contact: slice_to_vec(contact),
            code: slice_to_vec(code.as_slice()),
            expires_at: now + ttl,
            consumed: false,
        };
        match find_contact(&self.entries, contact) {
            Some(i) => {
                proof {
                    lemma_code_update(self.entries@, i as int, entry);
                }
                self.entries[i] = entry;
            }
            None => {
                proof {
                    lemma_code_none(self.entries@, contact@);
                    lemma_code_push(self.entries@, entry);
                }
                self.entries.push(entry);
            }
        }
        code
    }

    /// Validate a presented code for `contact` at time `now`: success exactly
    /// when a stored, unconsumed, unexpired code matches it (the comparison
    /// is constant-time). On success the code is marked consumed, so the same
    /// code never validates twice; on failure nothing changes, and the one
    /// merged error says no more than that no valid code matched.
    pub fn verify(&mut self, contact: &[u8], code: &[u8], now: u64) -> (r: Result<(), AuthError>)
        requires
            old(self).wf(),
        ensures
            final(self).wf(),
            r is Ok <==> code_ok(old(self).code_of(contact@), code@, now),
            r is Err ==> r == Err::<(), AuthError>(AuthError::CodeInvalid) && *final(self) == *old(
                self,
            ),
            r is Ok ==> final(self).code_of(contact@) == Some(
                (CodeView {
                    code: code@,
                    expires_at: old(self).code_of(contact@)->Some_0.expires_at,
                    consumed: true,
                }),
            ),
            forall|c: Seq<u8>|
                c != contact@ ==> #[trigger] final(self).code_of(c) == old(self).code_of(c),
    {
        let i = match find_contact(&self.entries, contact) {
            Some(i) => i,
            None => {
                proof {
                    lemma_code_none(self.entries@, contact@);
                }
                return Err(AuthError::CodeInvalid);
            }
        };
        proof {
            lemma_code_found(self.entries@, contact@, i as int);
        }
        if self.entries[i].consumed {
            return Err(AuthError::CodeInvalid);
        }
        if !(now < self.entries[i].expires_at) {
            return Err(AuthError::CodeInvalid);
        }
        if !ct_bytes_eq(self.entries[i].code.as_slice(), code) {
            return Err(AuthError::CodeInvalid);
        }
        let consumed_entry = CodeEntry {
            contact: slice_to_vec(contact),
            code: slice_to_vec(code),
            expires_at: self.entries[i].expires_at,
            consumed: true,
        };
        proof {
            lemma_code_update(self.entries@, i as int, consumed_entry);
        }
        self.entries[i] = consumed_entry;
        Ok(())
    }
}

/// A newly issued code displaces the old one: once a different code is stored
/// for the contact, verifying the old code fails.
pub proof fn lemma_new_code_invalidates_old(stored: CodeView, old_code: Seq<u8>, now: u64)
    requires
        stored.code != old_code,
    ensures
        !code_ok(Some(stored), old_code, now),
{
}

/// A code is single-use: once its stored entry is marked consumed, no later
/// verification of any code for that contact succeeds against it.
pub proof fn lemma_code_single_use(stored: CodeView, code: Seq<u8>, later: u64)
    requires
        stored.consumed,
    ensures
        !code_ok(Some(stored), code, later),
{
}

/// A code dies with its TTL: at or past its expiry it fails even when the
/// presented code is the right one.
pub proof fn lemma_code_expires(stored: CodeView, code: Seq<u8>, t: u64)
    requires
        t >= stored.expires_at,
    ensures
        !code_ok(Some(stored), code, t),
{
}

} // verus!
