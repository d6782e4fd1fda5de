//! The transfer coordinator's correlation table: every inbound
//! file-transfer request is keyed by a fresh correlation id and waits for
//! exactly one external decision. Responding with a valid pending id
//! removes the entry and hands back its single-use response slot; a
//! second response with the same id, or one arriving after the waiting
//! side timed out and purged the entry, is a silent no-op.
//!
//! The slot type is a parameter: the host stores its one-shot completion
//! handle in it, and the table never looks inside.

use vstd::prelude::*;

verus! {

/// What the table holds for the request payload: the files offered for
/// transfer, each with its name and size.
pub struct FileInfo {
    pub name: String,
    pub size: u64,
}

/// The requesting device, as shown to the human who decides.
pub struct DeviceInfo {
    pub hostname: String,
    pub os_type: String,
}

/// The payload of a transfer request: what is offered, by whom, and the
/// address the receiver is reached at.
pub struct TransferRequest {
    pub files_info: Vec<FileInfo>,
    pub device_info: DeviceInfo,
    pub receiver_info: String,
}

impl TransferRequest {
    /// Assemble the request sent to the receiver at `receiver_ip`.
    pub fn assemble(files: Vec<FileInfo>, device: DeviceInfo, receiver_ip: String) -> (r:
        TransferRequest)
        ensures
            r.files_info@ == files@,
            r.device_info == device,
            r.receiver_info@ == receiver_ip@,
    {
        TransferRequest { files_info: files, device_info: device, receiver_info: receiver_ip }
    }
}

/// One pending entry: a correlation id and the single-use slot that the
/// eventual decision is delivered through.
struct PendingEntry<S> {
    id: String,
    slot: S,
}

/// The mapping a response-slot table denotes, read off its entries.
pub open spec fn slot_map<S>(entries: Seq<(Seq<char>, S)>) -> Map<Seq<char>, S>
    decreases entries.len(),
{
    if entries.len() == 0 {
        Map::empty()
    } else {
        slot_map(entries.drop_last()).insert(entries.last().0, entries.last().1)
    }
}

/// No two entries carry the same id.
pub open spec fn distinct_ids<S>(entries: Seq<(Seq<char>, S)>) -> bool {
    forall|i: int, j: int|
        0 <= i < j < entries.len() ==> (#[trigger] entries[i].0) != (#[trigger] entries[j].0)
}

proof fn lemma_slot_map_contains<S>(entries: Seq<(Seq<char>, S)>, id: Seq<char>)
    ensures
        slot_map(entries).contains_key(id) <==> exists|i: int|
            0 <= i < entries.len() && (#[trigger] entries[i].0) == id,
    decreases entries.len(),
{
    if entries.len() > 0 {
        lemma_slot_map_contains(entries.drop_last(), id);
        if slot_map(entries).contains_key(id) {
            if entries.last().0 != id {
                let i = choose|i: int|
                    0 <= i < entries.drop_last().len() && (#[trigger] entries.drop_last()[i].0)
                        == id;
                assert(entries[i].0 == id);
            }
        }
        if exists|i: int| 0 <= i < entries.len() && (#[trigger] entries[i].0) == id {
            let i = choose|i: int| 0 <= i < entries.len() && (#[trigger] entries[i].0) == id;
            if i < entries.len() - 1 {
                assert(entries.drop_last()[i].0 == id);
            }
        }
    }
}

proof fn lemma_slot_map_value<S>(entries: Seq<(Seq<char>, S)>, i: int)
    requires
        distinct_ids(entries),
        0 <= i < entries.len(),
    ensures
        slot_map(entries).contains_key(entries[i].0),
        slot_map(entries)[entries[i].0] == entries[i].1,
    decreases entries.len(),
{
    lemma_slot_map_contains(entries, entries[i].0);
    if i < entries.len() - 1 {
        assert(entries.drop_last()[i].0 == entries[i].0);
        lemma_slot_map_value(entries.drop_last(), i);
        assert(entries.last().0 != entries[i].0);
    }
}

proof fn lemma_slot_map_push<S>(entries: Seq<(Seq<char>, S)>, id: Seq<char>, slot: S)
    ensures
        slot_map(entries.push((id, slot))) == slot_map(entries).insert(id, slot),
{
    assert(entries.push((id, slot)).drop_last() =~= entries);
    assert(entries.push((id, slot)).last() == (id, slot));
}

proof fn lemma_slot_map_update<S>(entries: Seq<(Seq<char>, S)>, i: int, slot: S)
    requires
        distinct_ids(entries),
        0 <= i < entries.len(),
    ensures
        slot_map(entries.update(i, (entries[i].0, slot))) == slot_map(entries).insert(
            entries[i].0,
            slot,
        ),
    decreases entries.len(),
{
    let id = entries[i].0;
    let updated = entries.update(i, (id, slot));
    if i == entries.len() - 1 {
        assert(updated.drop_last() =~= entries.drop_last());
        assert(slot_map(updated) == slot_map(entries.drop_last()).insert(id, slot));
        assert(slot_map(entries).insert(id, slot) =~= slot_map(entries.drop_last()).insert(
            id,
            slot,
        ));
    } else {
        assert(updated.drop_last() =~= entries.drop_last().update(i, (id, slot)));
        assert(entries.drop_last()[i] == entries[i]);
        lemma_slot_map_update(entries.drop_last(), i, slot);
        let lk = entries.last().0;
        let lv = entries.last().1;
        assert(updated.last() == entries.last());
        assert(slot_map(updated) == slot_map(entries.drop_last()).insert(id, slot).insert(
            lk,
            lv,
        ));
        assert(lk != id);
        assert(slot_map(entries.drop_last()).insert(id, slot).insert(lk, lv) =~= slot_map(
            entries.drop_last(),
        ).insert(lk, lv).insert(id, slot));
    }
}

proof fn lemma_slot_map_remove<S>(entries: Seq<(Seq<char>, S)>, i: int)
    requires
        distinct_ids(entries),
        0 <= i < entries.len(),
    ensures
        slot_map(entries.remove(i)) == slot_map(entries).remove(entries[i].0),
    decreases entries.len(),
{
    let id = entries[i].0;
    if i == entries.len() - 1 {
        assert(entries.remove(i) =~= entries.drop_last());
        lemma_slot_map_contains(entries.drop_last(), id);
        assert(forall|j: int|
            0 <= j < entries.drop_last().len() ==> (#[trigger] entries.drop_last()[j].0) != id);
        assert(!slot_map(entries.drop_last()).contains_key(id));
        assert(slot_map(entries).remove(id) =~= slot_map(entries.drop_last()));
    } else {
        assert(entries.remove(i).drop_last() =~= entries.drop_last().remove(i));
        assert(entries.drop_last()[i] == entries[i]);
        lemma_slot_map_remove(entries.drop_last(), i);
        let lk = entries.last().0;
        let lv = entries.last().1;
        assert(entries.remove(i).last() == entries.last());
        assert(slot_map(entries.remove(i)) == slot_map(entries.drop_last()).remove(id).insert(
            lk,
            lv,
        ));
        assert(lk != id);
        assert(slot_map(entries.drop_last()).remove(id).insert(lk, lv) =~= slot_map(
            entries.drop_last(),
        ).insert(lk, lv).remove(id));
    }
}

/// What responding with `id` does to the table `m`: a valid pending id
/// yields its slot and leaves the table without it; an unknown or already
/// consumed id yields nothing and changes nothing.
pub open spec fn respond_model<S>(m: Map<Seq<char>, S>, id: Seq<char>) -> (
    Map<Seq<char>, S>,
    Option<S>,
) {
    if m.contains_key(id) {
        (m.remove(id), Some(m[id]))
    } else {
        (m, None)
    }
}

/// The table of pending transfer requests, keyed by correlation id.
pub struct PendingTable<S> {
    entries: Vec<PendingEntry<S>>,
}

impl<S> View for PendingTable<S> {
    type V = Map<Seq<char>, S>;

    closed spec fn view(&self) -> Map<Seq<char>, S> {
        slot_map(self.entry_views())
    }
}

impl<S> PendingTable<S> {
    /// The id/slot pairs the table holds, in insertion order.
    closed spec fn entry_views(&self) -> Seq<(Seq<char>, S)> {
        self.entries@.map_values(|e: PendingEntry<S>| (e.id@, e.slot))
    }

    /// No two entries carry the same id.
    pub closed spec fn wf(&self) -> bool {
        distinct_ids(self.entry_views())
    }

    /// An empty table.
    pub fn new() -> (r: PendingTable<S>)
        ensures
            r.wf(),
            r@ == Map::<Seq<char>, S>::empty(),
    {
        let r = PendingTable { entries: Vec::new() };
        proof {
            assert(r.entry_views() =~= Seq::<(Seq<char>, S)>::empty());
        }
        r
    }

    /// The index of the entry for `id`, if one is pending.
    fn find(&self, id: &String) -> (r: Option<usize>)
        requires
            self.wf(),
        ensures
            match r {
                Some(i) => i < self.entry_views().len() && self.entry_views()[i as int].0 == id@,
                None => !self@.contains_key(id@),
            },
    {
        let n = self.entries.len();
        let mut k: usize = 0;
        while k < n
            invariant
                0 <= k <= n,
                n == self.entry_views().len(),
                self.entry_views() == self.entries@.map_values(
                    |e: PendingEntry<S>| (e.id@, e.slot),
                ),
                forall|j: int| 0 <= j < k ==> (#[trigger] self.entry_views()[j].0) != id@,
            decreases n - k,
        {
            if self.entries[k].id == *id {
                return Some(k);
            }
            k = k + 1;
        }
        proof {
            lemma_slot_map_contains(self.entry_views(), id@);
        }
        None
    }

    /// Whether a request with this correlation id is still pending.
    pub fn is_pending(&self, id: &String) -> (r: bool)
        requires
            self.wf(),
        ensures
            r == self@.contains_key(id@),
    {
        let found = self.find(id);
        match found {
            Some(i) => {
                proof {
                    lemma_slot_map_value(self.entry_views(), i as int);
                }
                true
            },
            None => false,
        }
    }

    /// Record a new pending request under `id`. An id already present has
    /// its slot replaced, as a fresh insertion under that id.
    pub fn insert_pending(&mut self, id: String, slot: S)
        requires
            old(self).wf(),
        ensures
            final(self).wf(),
            final(self)@ == old(self)@.insert(id@, slot),
    {
        let found = self.find(&id);
        match found {
            Some(i) => {
                proof {
                    lemma_slot_map_update(self.entry_views(), i as int, slot);
                }
                let _ = self.entries.remove(i);
                let e = PendingEntry { id, slot };
                self.entries.insert(i, e);
                proof {
                    assert(self.entry_views() =~= old(self).entry_views().update(
                        i as int,
                        (self.entry_views()[i as int].0, self.entry_views()[i as int].1),
                    ));
                    assert(forall|a: int|
                        0 <= a < self.entry_views().len() ==> (#[trigger] self.entry_views()[a].0)
                            == old(self).entry_views()[a].0);
                }
            },
            None => {
                proof {
                    lemma_slot_map_push(self.entry_views(), id@, slot);
                    lemma_slot_map_contains(self.entry_views(), id@);
                }
                let e = PendingEntry { id, slot };
                self.entries.push(e);
                proof {
                    assert(self.entry_views() =~= old(self).entry_views().push(
                        (self.entry_views().last().0, self.entry_views().last().1),
                    ));
                    assert(forall|a: int|
                        0 <= a < self.entry_views().len() - 1 ==> (
                        #[trigger] self.entry_views()[a].0) == old(self).entry_views()[a].0);
                }
            },
        }
    }

    /// Record an inbound transfer request under a fresh correlation id
    /// and return the id, for the notification sent to the deciding UI.
    pub fn register_transfer_request(&mut self, slot: S) -> (id: String)
        requires
            old(self).wf(),
        ensures
            final(self).wf(),
            final(self)@ == old(self)@.insert(id@, slot),
            id@.len() == 36,
    {
        let id = crate::discovery::new_random_id();
        let id_for_caller = id.clone();
        self.insert_pending(id, slot);
        id_for_caller
    }

    /// Consume the pending request `id`: a valid id yields its response
    /// slot and removes the entry; an unknown or already consumed id is a
    /// silent no-op, because the waiting side may have timed out already.
    pub fn respond_to_request(&mut self, id: &String) -> (r: Option<S>)
        requires
            old(self).wf(),
        ensures
            final(self).wf(),
            final(self)@ == respond_model(old(self)@, id@).0,
            r == respond_model(old(self)@, id@).1,
    {
        let found = self.find(id);
        match found {
            Some(i) => {
                proof {
                    lemma_slot_map_value(self.entry_views(), i as int);
                    lemma_slot_map_remove(self.entry_views(), i as int);
                }
                let e = self.entries.remove(i);
                proof {
                    assert(self.entry_views() =~= old(self).entry_views().remove(i as int));
                    assert(forall|a: int, b: int|
                        0 <= a < b < self.entry_views().len() ==> (
                        #[trigger] self.entry_views()[a].0) != (
                        #[trigger] self.entry_views()[b].0)) by {
                        assert(forall|a: int|
                            0 <= a < self.entry_views().len() ==> (
                            #[trigger] self.entry_views()[a].0) == if a < i {
                                old(self).entry_views()[a].0
                            } else {
                                old(self).entry_views()[a + 1].0
                            });
                    }
                }
                Some(e.slot)
            },
            None => None,
        }
    }

    /// Purge the entry for `id`, dropping its slot: what the waiting side
    /// does when its decision window closes, so that a timed-out id is no
    /// longer valid. A no-op for an id that is not pending.
    pub fn purge(&mut self, id: &String) -> (removed: bool)
        requires
            old(self).wf(),
        ensures
            final(self).wf(),
            final(self)@ == respond_model(old(self)@, id@).0,
            removed == old(self)@.contains_key(id@),
    {
        let r = self.respond_to_request(id);
        match r {
            Some(_) => true,
            None => false,
        }
    }
}

/// A valid pending id is answered exactly once: responding yields the
/// stored slot and removes the entry, so the same id answered again — or
/// answered after a timeout purged it — yields nothing and changes
/// nothing.
pub proof fn lemma_respond_at_most_once<S>(m: Map<Seq<char>, S>, id: Seq<char>)
    requires
        m.contains_key(id),
    ensures
        respond_model(m, id).1 == Some(m[id]),
        !respond_model(m, id).0.contains_key(id),
        respond_model(respond_model(m, id).0, id).1 == None::<S>,
        respond_model(respond_model(m, id).0, id).0 == respond_model(m, id).0,
{
}

} // verus!
