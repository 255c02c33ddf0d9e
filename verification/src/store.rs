//! The record store: one credential for each service name.

use crate::text::text_eq;
use vstd::prelude::*;

verus! {

/// A credential: the name of a service, and the username and the password
/// held for it. The password is plain text.
#[derive(Clone, Debug, PartialEq, Eq)]
pub struct PasswordEntry {
    pub service: String,
    pub username: String,
    pub password: String,
}

/// What a `PasswordEntry` holds, as three texts.
pub struct EntryView {
    pub service: Seq<char>,
    pub username: Seq<char>,
    pub password: Seq<char>,
}

impl View for PasswordEntry {
    type V = EntryView;

    open spec fn view(&self) -> EntryView {
        EntryView { service: self.service@, username: self.username@, password: self.password@ }
    }
}

/// Whether one of `records` is held for `service`.
pub open spec fn holds_service(records: Seq<EntryView>, service: Seq<char>) -> bool {
    exists|i: int| 0 <= i < records.len() && (#[trigger] records[i]).service == service
}

/// A position at which `records` holds `service`, where there is one.
pub open spec fn position_of(records: Seq<EntryView>, service: Seq<char>) -> int
    recommends
        holds_service(records, service),
{
    choose|i: int| 0 <= i < records.len() && (#[trigger] records[i]).service == service
}

/// No two of `records` are held for the same service.
pub open spec fn distinct_services(records: Seq<EntryView>) -> bool {
    forall|i: int, j: int|
        0 <= i < j < records.len() ==> (#[trigger] records[i]).service != (
        #[trigger] records[j]).service
}

/// `records` after `entry` is put in: in the place of the record held for
/// its service, or at the end where there is none.
pub open spec fn upsert_records(records: Seq<EntryView>, entry: EntryView) -> Seq<EntryView> {
    if holds_service(records, entry.service) {
        records.update(position_of(records, entry.service), entry)
    } else {
        records.push(entry)
    }
}

/// `records` without the record held for `service`.
pub open spec fn delete_records(records: Seq<EntryView>, service: Seq<char>) -> Seq<EntryView> {
    if holds_service(records, service) {
        records.remove(position_of(records, service))
    } else {
        records
    }
}

/// The mapping from service name to record that `records` stand for.
pub open spec fn records_map(records: Seq<EntryView>) -> Map<Seq<char>, EntryView> {
    Map::new(
        |service: Seq<char>| holds_service(records, service),
        |service: Seq<char>| records[position_of(records, service)],
    )
}

/// The service and the username of each of `records`, in their order.
pub open spec fn listing(records: Seq<EntryView>) -> Seq<(Seq<char>, Seq<char>)> {
    Seq::new(records.len(), |i: int| (records[i].service, records[i].username))
}

/// The texts of `pairs`.
pub open spec fn pair_texts(pairs: Seq<(String, String)>) -> Seq<(Seq<char>, Seq<char>)> {
    Seq::new(pairs.len(), |i: int| (pairs[i].0@, pairs[i].1@))
}

/// Whether `part` stands somewhere in `text`, character beside character.
pub open spec fn occurs_in(part: Seq<char>, text: Seq<char>) -> bool {
    exists|at: int|
        0 <= at && at + part.len() <= text.len() && #[trigger] text.subrange(
            at,
            at + part.len(),
        ) == part
}

/// Among distinct records a service is held at one position only.
pub proof fn lemma_position_of(records: Seq<EntryView>, i: int)
    requires
        distinct_services(records),
        0 <= i < records.len(),
    ensures
        holds_service(records, records[i].service),
        position_of(records, records[i].service) == i,
{
}

/// Every key of the mapping is the service of the record under it.
pub proof fn lemma_keys_name_records(records: Seq<EntryView>, service: Seq<char>)
    requires
        records_map(records).contains_key(service),
    ensures
        records_map(records)[service].service == service,
{
}

/// Putting an entry in keeps the services distinct and, in the mapping,
/// inserts the entry under its service.
pub proof fn lemma_upsert_records(records: Seq<EntryView>, entry: EntryView)
    requires
        distinct_services(records),
    ensures
        distinct_services(upsert_records(records, entry)),
        records_map(upsert_records(records, entry)) == records_map(records).insert(
            entry.service,
            entry,
        ),
{
    let after = upsert_records(records, entry);
    let at: int = if holds_service(records, entry.service) {
        position_of(records, entry.service)
    } else {
        records.len() as int
    };
    assert forall|j: int| 0 <= j < after.len() && j != at implies after[j] == records[j]
        && after[j].service != entry.service by {
        if holds_service(records, entry.service) {
            lemma_position_of(records, at);
        }
    }
    assert forall|i: int, j: int| 0 <= i < j < after.len() implies (#[trigger] after[i]).service
        != (#[trigger] after[j]).service by {}
    let left = records_map(after);
    let right = records_map(records).insert(entry.service, entry);
    assert forall|k: Seq<char>| left.contains_key(k) <==> right.contains_key(k) by {
        if right.contains_key(k) && k == entry.service {
            assert(after[at].service == k);
        }
    }
    assert forall|k: Seq<char>| left.contains_key(k) implies left[k] == right[k] by {
        let p = position_of(after, k);
        lemma_position_of(after, p);
        if p != at {
            lemma_position_of(records, p);
        }
    }
}

/// Deleting a service keeps the services distinct and, in the mapping,
/// removes the service.
pub proof fn lemma_delete_records(records: Seq<EntryView>, service: Seq<char>)
    requires
        distinct_services(records),
    ensures
        distinct_services(delete_records(records, service)),
        records_map(delete_records(records, service)) == records_map(records).remove(service),
{
    let after = delete_records(records, service);
    let left = records_map(after);
    let right = records_map(records).remove(service);
    if holds_service(records, service) {
        let at = position_of(records, service);
        lemma_position_of(records, at);
        assert forall|j: int| 0 <= j < after.len() implies (#[trigger] after[j]) == records[if j
            < at {
            j
        } else {
            j + 1
        }] && after[j].service != service by {}
        assert forall|i: int, j: int| 0 <= i < j < after.len() implies (
        #[trigger] after[i]).service != (#[trigger] after[j]).service by {}
        assert forall|k: Seq<char>| left.contains_key(k) <==> right.contains_key(k) by {
            if right.contains_key(k) {
                let q = position_of(records, k);
                let p: int = if q < at {
                    q
                } else {
                    q - 1
                };
                assert(after[p].service == k);
            }
        }
        assert forall|k: Seq<char>| left.contains_key(k) implies left[k] == right[k] by {
            let p = position_of(after, k);
            let q: int = if p < at {
                p
            } else {
                p + 1
            };
            lemma_position_of(records, q);
        }
    }
}

/// Putting two entries in for one service leaves the second: the last
/// write wins.
pub proof fn lemma_upsert_overwrites(records: Seq<EntryView>, first: EntryView, second: EntryView)
    requires
        distinct_services(records),
        first.service == second.service,
    ensures
        upsert_records(upsert_records(records, first), second) == upsert_records(records, second),
        records_map(upsert_records(upsert_records(records, first), second))[second.service]
            == second,
{
    let once = upsert_records(records, first);
    lemma_upsert_records(records, first);
    lemma_upsert_records(once, second);
    lemma_upsert_records(records, second);
    let at: int = if holds_service(records, first.service) {
        position_of(records, first.service)
    } else {
        records.len() as int
    };
    lemma_position_of(once, at);
}

/// Records that agree in every service and username have the same listing,
/// whatever their passwords are.
pub proof fn lemma_listing_ignores_passwords(first: Seq<EntryView>, second: Seq<EntryView>)
    requires
        first.len() == second.len(),
        forall|i: int|
            0 <= i < first.len() ==> (#[trigger] first[i]).service == second[i].service
                && first[i].username == second[i].username,
    ensures
        listing(first) == listing(second),
{
}

/// A stored password stands nowhere in the listing, provided that it stands
/// in no service name and in no username of the records.
pub proof fn lemma_listing_omits_passwords(records: Seq<EntryView>, holder: int)
    requires
        0 <= holder < records.len(),
        forall|i: int|
            0 <= i < records.len() ==> !occurs_in(
                records[holder].password,
                (#[trigger] records[i]).service,
            ) && !occurs_in(records[holder].password, records[i].username),
    ensures
        forall|j: int|
            0 <= j < listing(records).len() ==> !occurs_in(
                records[holder].password,
                (#[trigger] listing(records)[j]).0,
            ) && !occurs_in(records[holder].password, listing(records)[j].1),
{
}

/// The records of a vault, at most one for each service name.
pub struct RecordStore {
    entries: Vec<PasswordEntry>,
}

impl View for RecordStore {
    type V = Map<Seq<char>, EntryView>;

    /// The store as a mapping from service name to record.
    open spec fn view(&self) -> Map<Seq<char>, EntryView> {
        records_map(self.records())
    }
}

impl RecordStore {
    /// The records, in the order in which their services first came in.
    pub closed spec fn records(&self) -> Seq<EntryView> {
        Seq::new(self.entries@.len(), |i: int| self.entries@[i]@)
    }

    /// What every store keeps: no service is held twice.
    #[verifier::type_invariant]
    pub open spec fn well_formed(&self) -> bool {
        distinct_services(self.records())
    }

    /// A store that holds nothing.
    pub fn new() -> (store: RecordStore)
        ensures
            store.records() == Seq::<EntryView>::empty(),
            store@ == Map::<Seq<char>, EntryView>::empty(),
    {
        let store = RecordStore { entries: Vec::new() };
        store
    }

    /// The number of records.
    pub fn len(&self) -> (n: usize)
        ensures
            n == self.records().len(),
    {
        self.entries.len()
    }

    /// Whether the store holds nothing.
    pub fn is_empty(&self) -> (empty: bool)
        ensures
            empty == (self.records().len() == 0),
    {
        self.entries.len() == 0
    }

    /// The record at `index` in the order of `records`.
    pub fn entry_at(&self, index: usize) -> (entry: &PasswordEntry)
        requires
            index < self.records().len(),
        ensures
            entry@ == self.records()[index as int],
    {
        &self.entries[index]
    }

    fn find(&self, service: &str) -> (at: usize)
        ensures
            at <= self.records().len(),
            at < self.records().len() ==> self.records()[at as int].service == service@,
            at == self.records().len() ==> !holds_service(self.records(), service@),
    {
        let mut i: usize = 0;
        while i < self.entries.len()
            invariant
                i <= self.entries.len(),
                self.records().len() == self.entries.len(),
                forall|j: int| 0 <= j < i ==> (#[trigger] self.records()[j]).service != service@,
            decreases self.entries.len() - i,
        {
            if text_eq(self.entries[i].service.as_str(), service) {
                return i;
            }
            i = i + 1;
        }
        i
    }

    /// Puts a record in for `service`. A record already held for that
    /// service is replaced and lost.
    pub fn upsert(&mut self, service: String, username: String, password: String)
        ensures
            final(self).records() == upsert_records(
                old(self).records(),
                EntryView { service: service@, username: username@, password: password@ },
            ),
            final(self)@ == old(self)@.insert(
                service@,
                EntryView { service: service@, username: username@, password: password@ },
            ),
    {
        proof {
            use_type_invariant(&*self);
        }
        let ghost before = self.records();
        let ghost entry_view = EntryView {
            service: service@,
            username: username@,
            password: password@,
        };
        let at = self.find(service.as_str());
        let entry = PasswordEntry { service, username, password };
        proof {
            lemma_upsert_records(before, entry_view);
            if at < before.len() {
                lemma_position_of(before, at as int);
            }
        }
        let mut entries: Vec<PasswordEntry> = Vec::new();
        std::mem::swap(&mut entries, &mut self.entries);
        if at < entries.len() {
            entries[at] = entry;
        } else {
            entries.push(entry);
        }
        assert(Seq::new(entries@.len(), |i: int| entries@[i]@) =~= upsert_records(
            before,
            entry_view,
        ));
        self.entries = entries;
    }

    /// The record held for `service`, if there is one.
    pub fn get(&self, service: &str) -> (found: Option<&PasswordEntry>)
        ensures
            found is Some <==> self@.contains_key(service@),
            found matches Some(entry) ==> entry@ == self@[service@] && entry@.service == service@,
    {
        proof {
            use_type_invariant(self);
        }
        let at = self.find(service);
        if at < self.entries.len() {
            proof {
                lemma_position_of(self.records(), at as int);
            }
            Some(&self.entries[at])
        } else {
            None
        }
    }

    /// Removes the record held for `service` and says whether there was one.
    /// Without one the store stays as it was.
    pub fn delete(&mut self, service: &str) -> (removed: bool)
        ensures
            removed == old(self)@.contains_key(service@),
            final(self).records() == delete_records(old(self).records(), service@),
            final(self)@ == old(self)@.remove(service@),
            !removed ==> final(self).records() == old(self).records(),
    {
        proof {
            use_type_invariant(&*self);
        }
        let ghost before = self.records();
        let at = self.find(service);
        proof {
            lemma_delete_records(before, service@);
            if at < before.len() {
                lemma_position_of(before, at as int);
            }
        }
        if at < self.entries.len() {
            let mut entries: Vec<PasswordEntry> = Vec::new();
            std::mem::swap(&mut entries, &mut self.entries);
            entries.remove(at);
            assert(Seq::new(entries@.len(), |i: int| entries@[i]@) =~= delete_records(
                before,
                service@,
            ));
            self.entries = entries;
            true
        } else {
            false
        }
    }

    /// The service and the username of every record, in the order of
    /// `records`. No password is handed out.
    pub fn list(&self) -> (pairs: Vec<(String, String)>)
        ensures
            pair_texts(pairs@) == listing(self.records()),
    {
        let mut pairs: Vec<(String, String)> = Vec::new();
        let mut i: usize = 0;
        while i < self.entries.len()
            invariant
                i <= self.entries.len(),
                self.records().len() == self.entries.len(),
                pairs@.len() == i,
                forall|j: int|
                    0 <= j < i ==> (#[trigger] pairs@[j]).0@ == self.records()[j].service
                        && pairs@[j].1@ == self.records()[j].username,
            decreases self.entries.len() - i,
        {
            let entry = &self.entries[i];
            pairs.push((entry.service.clone(), entry.username.clone()));
            i = i + 1;
        }
        pairs
    }
}

} // verus!
