//! The four AMS slots and the spool each holds: mounting, unmounting and
//! moving spools keep every spool in one slot at most.
use crate::error::AppError;
use crate::text::str_eq;
use vstd::prelude::*;

verus! {

/// The number of AMS slots.
pub const SLOT_COUNT: usize = 4;

/// What each of the slots 1 to 4 holds, by spool id.
#[derive(Debug, Clone)]
pub struct SlotTable {
    slots: Vec<Option<String>>,
}

pub open spec fn id_view(o: Option<String>) -> Option<Seq<char>> {
    match o {
        Some(s) => Some(s@),
        None => None,
    }
}

/// Four slots, and no spool in two of them.
pub open spec fn table_ok(t: Seq<Option<Seq<char>>>) -> bool {
    &&& t.len() == SLOT_COUNT
    &&& forall|a: int, b: int|
        0 <= a < t.len() && 0 <= b < t.len() && a != b && (#[trigger] t[a]) is Some ==> t[a]
            != #[trigger] t[b]
}

/// The slot that holds `spool`, by position.
pub open spec fn slot_of(t: Seq<Option<Seq<char>>>, spool: Seq<char>) -> Option<int> {
    if exists|k: int| 0 <= k < t.len() && t[k] == Some(spool) {
        Some(choose|k: int| 0 <= k < t.len() && t[k] == Some(spool))
    } else {
        None
    }
}

/// The call succeeded with the spool id `v`, or with no spool where `v` is `None`.
pub open spec fn returned(r: Result<Option<String>, AppError>, v: Option<Seq<char>>) -> bool {
    r matches Ok(o) && id_view(o) == v
}

pub open spec fn valid_slot(slot_number: u8) -> bool {
    1 <= slot_number <= SLOT_COUNT
}

/// Mounting `spool` in `slot_number`: the slot must exist, the spool must
/// not be archived nor sit in a slot already. It replaces what the slot held.
pub open spec fn mount_spec(
    t: Seq<Option<Seq<char>>>,
    slot_number: u8,
    spool: Seq<char>,
    archived: bool,
) -> Result<Seq<Option<Seq<char>>>, AppError> {
    if !valid_slot(slot_number) {
        Err(AppError::InvalidSlot)
    } else if archived {
        Err(AppError::ArchivedSpool)
    } else if slot_of(t, spool) is Some {
        Err(AppError::SlotConflict)
    } else {
        Ok(t.update(slot_number - 1, Some(spool)))
    }
}

/// Unmounting empties an existing slot.
pub open spec fn unmount_spec(t: Seq<Option<Seq<char>>>, slot_number: u8) -> Result<
    Seq<Option<Seq<char>>>,
    AppError,
> {
    if !valid_slot(slot_number) {
        Err(AppError::InvalidSlot)
    } else {
        Ok(t.update(slot_number - 1, None))
    }
}

/// Moving a mounted spool to another existing slot swaps it with whatever
/// that slot held; moving it to its own slot changes nothing; a spool in no
/// slot cannot be moved.
pub open spec fn move_spec(t: Seq<Option<Seq<char>>>, spool: Seq<char>, destination: u8) -> Result<
    Seq<Option<Seq<char>>>,
    AppError,
> {
    if !valid_slot(destination) {
        Err(AppError::InvalidSlot)
    } else {
        match slot_of(t, spool) {
            None => Err(AppError::SlotConflict),
            Some(source) => if source == destination - 1 {
                Ok(t)
            } else {
                Ok(t.update(source, t[destination - 1]).update(destination - 1, Some(spool)))
            },
        }
    }
}

proof fn lemma_slot_of_found(t: Seq<Option<Seq<char>>>, spool: Seq<char>, k: int)
    requires
        table_ok(t),
        0 <= k < t.len(),
        t[k] == Some(spool),
    ensures
        slot_of(t, spool) == Some(k),
{
    let c = choose|c: int| 0 <= c < t.len() && t[c] == Some(spool);
    if c != k {
        assert(t[k] is Some);
        assert(t[k] != t[c]);
    }
}

impl View for SlotTable {
    type V = Seq<Option<Seq<char>>>;

    closed spec fn view(&self) -> Seq<Option<Seq<char>>> {
        self.slots@.map_values(|o: Option<String>| id_view(o))
    }
}

impl SlotTable {
    /// Four slots, and no spool in two of them.
    pub open spec fn wf(&self) -> bool {
        table_ok(self@)
    }

    /// Four empty slots.
    pub fn new() -> (r: Self)
        ensures
            r.wf(),
            r@ == seq![None::<Seq<char>>, None, None, None],
    {
        let slots: Vec<Option<String>> = vec![None, None, None, None];
        let r = SlotTable { slots };
        assert(r@ =~= seq![None::<Seq<char>>, None, None, None]);
        r
    }

    /// The table the stored assignments of slots 1 to 4 make, when they are
    /// four and no spool appears twice.
    pub fn from_assignments(slots: Vec<Option<String>>) -> (r: Option<Self>)
        ensures
            r is Some <==> table_ok(slots@.map_values(|o: Option<String>| id_view(o))),
            r matches Some(t) ==> t.wf() && t@ == slots@.map_values(|o: Option<String>| id_view(o)),
    {
        let ghost v = slots@.map_values(|o: Option<String>| id_view(o));
        if slots.len() != SLOT_COUNT {
            return None;
        }
        let table = SlotTable { slots };
        assert(table@ == v);
        let mut j: usize = 0;
        while j < table.slots.len()
            invariant
                j <= v.len(),
                v.len() == SLOT_COUNT,
                v == slots@.map_values(|o: Option<String>| id_view(o)),
                table@ == v,
                table.slots@.len() == v.len(),
                forall|a: int, b: int|
                    0 <= a < j && 0 <= b < j && a != b && (#[trigger] v[a]) is Some ==> v[a]
                        != #[trigger] v[b],
            decreases table.slots.len() - j,
        {
            if let Some(id) = &table.slots[j] {
                assert(v[j as int] == Some(id@));
                let mut i: usize = 0;
                while i < j
                    invariant
                        i <= j < v.len(),
                        v == slots@.map_values(|o: Option<String>| id_view(o)),
                        table@ == v,
                        table.slots@.len() == v.len(),
                        v[j as int] == Some(id@),
                        forall|a: int| 0 <= a < i ==> v[a] != v[j as int],
                    decreases j - i,
                {
                    match &table.slots[i] {
                        Some(other) => {
                            assert(v[i as int] == Some(other@));
                            if str_eq(other.as_str(), id.as_str()) {
                                proof {
                                    assert(v[i as int] == v[j as int]);
                                    assert(!table_ok(v));
                                }
                                return None;
                            }
                        },
                        None => {
                            assert(v[i as int] is None);
                        },
                    }
                    i = i + 1;
                }
            }
            proof {
                assert forall|a: int, b: int|
                    0 <= a < j + 1 && 0 <= b < j + 1 && a != b && (#[trigger] v[a]) is Some implies v[a]
                    != #[trigger] v[b] by {
                    if a == j && v[b] is Some {
                        assert(v[b] != v[j as int]);
                    } else if b == j && v[a] is Some {
                        assert(v[a] != v[j as int]);
                    }
                }
            }
            j = j + 1;
        }
        Some(table)
    }

    fn find(&self, spool_id: &str) -> (r: Option<usize>)
        requires
            self.wf(),
        ensures
            r matches Some(k) ==> slot_of(self@, spool_id@) == Some(k as int),
            r is None ==> slot_of(self@, spool_id@) is None,
    {
        let mut k: usize = 0;
        while k < self.slots.len()
            invariant
                k <= self.slots@.len(),
                self.wf(),
                forall|j: int| 0 <= j < k ==> self@[j] != Some(spool_id@),
            decreases self.slots.len() - k,
        {
            match &self.slots[k] {
                Some(id) => {
                    assert(self@[k as int] == Some(id@));
                    if str_eq(id.as_str(), spool_id) {
                        proof {
                            lemma_slot_of_found(self@, spool_id@, k as int);
                        }
                        return Some(k);
                    }
                },
                None => {
                    assert(self@[k as int] is None);
                },
            }
            k = k + 1;
        }
        None
    }

    /// The spool in a slot; a slot outside 1 to 4 does not exist.
    pub fn slot_spool(&self, slot_number: u8) -> (r: Result<Option<String>, AppError>)
        requires
            self.wf(),
        ensures
            valid_slot(slot_number) ==> returned(r, self@[slot_number - 1]),
            !valid_slot(slot_number) ==> r == Err::<Option<String>, AppError>(AppError::InvalidSlot),
    {
        if slot_number < 1 || slot_number as usize > SLOT_COUNT {
            return Err(AppError::InvalidSlot);
        }
        let held = self.slots[slot_number as usize - 1].clone();
        assert(self@[slot_number - 1] == id_view(self.slots@[slot_number - 1]));
        Ok(held)
    }

    /// Whether a spool sits in any slot.
    pub fn is_mounted(&self, spool_id: &str) -> (r: bool)
        requires
            self.wf(),
        ensures
            r == (slot_of(self@, spool_id@) is Some),
    {
        self.find(spool_id).is_some()
    }

    /// A spool can be archived only while it sits in no slot.
    pub fn check_archivable(&self, spool_id: &str) -> (r: Result<(), AppError>)
        requires
            self.wf(),
        ensures
            r is Ok <==> slot_of(self@, spool_id@) is None,
            r matches Err(e) ==> e == AppError::SlotConflict,
    {
        if self.is_mounted(spool_id) {
            Err(AppError::SlotConflict)
        } else {
            Ok(())
        }
    }

    fn put(&mut self, k: usize, value: Option<String>)
        requires
            k < old(self).slots@.len(),
        ensures
            final(self)@ == old(self)@.update(k as int, id_view(value)),
            final(self).slots@.len() == old(self).slots@.len(),
    {
        self.slots.set(k, value);
        proof {
            assert(self@ =~= old(self)@.update(k as int, id_view(value)));
        }
    }

    /// Mounts a spool; see `mount_spec`. Returns the spool it replaced.
    pub fn mount(&mut self, slot_number: u8, spool_id: &str, archived: bool) -> (r: Result<
        Option<String>,
        AppError,
    >)
        requires
            old(self).wf(),
        ensures
            final(self).wf(),
            match mount_spec(old(self)@, slot_number, spool_id@, archived) {
                Ok(t) => final(self)@ == t && returned(r, old(self)@[slot_number - 1]),
                Err(e) => r == Err::<Option<String>, AppError>(e) && final(self)@ == old(self)@,
            },
    {
        if slot_number < 1 || slot_number as usize > SLOT_COUNT {
            return Err(AppError::InvalidSlot);
        }
        if archived {
            return Err(AppError::ArchivedSpool);
        }
        if self.find(spool_id).is_some() {
            return Err(AppError::SlotConflict);
        }
        let k = slot_number as usize - 1;
        let replaced = self.slots[k].clone();
        assert(old(self)@[k as int] == id_view(old(self).slots@[k as int]));
        self.put(k, Some(spool_id.to_owned()));
        proof {
            let t = self@;
            assert forall|a: int, b: int|
                0 <= a < t.len() && 0 <= b < t.len() && a != b && (#[trigger] t[a]) is Some implies t[a]
                != #[trigger] t[b] by {
                if a == k {
                    assert(old(self)@[b] != Some(spool_id@));
                } else if b == k {
                    assert(old(self)@[a] != Some(spool_id@));
                } else {
                    assert(old(self)@[a] != old(self)@[b]);
                }
            }
        }
        Ok(replaced)
    }

    /// Empties a slot; see `unmount_spec`. Returns the spool it held.
    pub fn unmount(&mut self, slot_number: u8) -> (r: Result<Option<String>, AppError>)
        requires
            old(self).wf(),
        ensures
            final(self).wf(),
            match unmount_spec(old(self)@, slot_number) {
                Ok(t) => final(self)@ == t && returned(r, old(self)@[slot_number - 1]),
                Err(e) => r == Err::<Option<String>, AppError>(e) && final(self)@ == old(self)@,
            },
    {
        if slot_number < 1 || slot_number as usize > SLOT_COUNT {
            return Err(AppError::InvalidSlot);
        }
        let k = slot_number as usize - 1;
        let held = self.slots[k].clone();
        assert(old(self)@[k as int] == id_view(old(self).slots@[k as int]));
        self.put(k, None);
        proof {
            let t = self@;
            assert forall|a: int, b: int|
                0 <= a < t.len() && 0 <= b < t.len() && a != b && (#[trigger] t[a]) is Some implies t[a]
                != #[trigger] t[b] by {
                if a != k && b != k {
                    assert(old(self)@[a] != old(self)@[b]);
                }
            }
        }
        Ok(held)
    }

    /// Moves a mounted spool; see `move_spec`. Returns the spool it displaced.
    pub fn move_spool(&mut self, spool_id: &str, destination: u8) -> (r: Result<
        Option<String>,
        AppError,
    >)
        requires
            old(self).wf(),
        ensures
            final(self).wf(),
            match move_spec(old(self)@, spool_id@, destination) {
                Ok(t) => final(self)@ == t && r is Ok,
                Err(e) => r == Err::<Option<String>, AppError>(e) && final(self)@ == old(self)@,
            },
    {
        if destination < 1 || destination as usize > SLOT_COUNT {
            return Err(AppError::InvalidSlot);
        }
        let source = match self.find(spool_id) {
            Some(s) => s,
            None => return Err(AppError::SlotConflict),
        };
        let d = destination as usize - 1;
        if source == d {
            return Ok(None);
        }
        let displaced = self.slots[d].clone();
        let moving = self.slots[source].clone();
        assert(old(self)@[d as int] == id_view(old(self).slots@[d as int]));
        assert(old(self)@[source as int] == id_view(old(self).slots@[source as int]));
        self.put(source, displaced.clone());
        self.put(d, moving);
        proof {
            let o = old(self)@;
            let t = self@;
            assert(o[source as int] == Some(spool_id@)) by {
                lemma_slot_of_witness(o, spool_id@);
            }
            assert(t =~= o.update(source as int, o[d as int]).update(d as int, Some(spool_id@)));
            assert forall|a: int, b: int|
                0 <= a < t.len() && 0 <= b < t.len() && a != b && (#[trigger] t[a]) is Some implies t[a]
                != #[trigger] t[b] by {
                let pa = if a == source { d as int } else if a == d { source as int } else { a };
                let pb = if b == source { d as int } else if b == d { source as int } else { b };
                assert(t[a] == o[pa]);
                assert(t[b] == o[pb]);
                assert(o[pa] != o[pb]);
            }
        }
        Ok(displaced)
    }
}

proof fn lemma_slot_of_witness(t: Seq<Option<Seq<char>>>, spool: Seq<char>)
    requires
        slot_of(t, spool) is Some,
    ensures
        0 <= slot_of(t, spool)->0 < t.len(),
        t[slot_of(t, spool)->0] == Some(spool),
{
}

/// Moving a spool and moving it back restores every slot.
pub proof fn lemma_move_back_restores(
    t: Seq<Option<Seq<char>>>,
    spool: Seq<char>,
    destination: u8,
    source: u8,
)
    requires
        table_ok(t),
        valid_slot(source),
        t[source - 1] == Some(spool),
        move_spec(t, spool, destination) is Ok,
    ensures
        move_spec(move_spec(t, spool, destination)->Ok_0, spool, source) == Ok::<
            Seq<Option<Seq<char>>>,
            AppError,
        >(t),
{
    lemma_slot_of_found(t, spool, source - 1);
    let t2 = move_spec(t, spool, destination)->Ok_0;
    if destination != source {
        let s = source - 1;
        let d = destination - 1;
        assert(t2 =~= t.update(s, t[d]).update(d, Some(spool)));
        assert(table_ok(t2)) by {
            assert forall|a: int, b: int|
                0 <= a < t2.len() && 0 <= b < t2.len() && a != b && (#[trigger] t2[a]) is Some implies t2[a]
                != #[trigger] t2[b] by {
                let pa = if a == s { d } else if a == d { s } else { a };
                let pb = if b == s { d } else if b == d { s } else { b };
                assert(t2[a] == t[pa]);
                assert(t2[b] == t[pb]);
            }
        }
        lemma_slot_of_found(t2, spool, d);
        assert(t2.update(d, t2[s]).update(s, Some(spool)) =~= t);
    }
}

/// Mounting a spool and unmounting its slot leaves that slot empty and every
/// other slot as it was.
pub proof fn lemma_unmount_after_mount(
    t: Seq<Option<Seq<char>>>,
    slot_number: u8,
    spool: Seq<char>,
)
    requires
        table_ok(t),
        mount_spec(t, slot_number, spool, false) is Ok,
    ensures
        unmount_spec(mount_spec(t, slot_number, spool, false)->Ok_0, slot_number) == Ok::<
            Seq<Option<Seq<char>>>,
            AppError,
        >(t.update(slot_number - 1, None)),
{
    let t2 = mount_spec(t, slot_number, spool, false)->Ok_0;
    assert(t2.update(slot_number - 1, None) =~= t.update(slot_number - 1, None));
}

} // verus!
