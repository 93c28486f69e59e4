use vstd::prelude::*;
use crate::record::{Record, RecordView};
use crate::error::StoreError;

verus! {

/// The views of a sequence of records.
pub open spec fn views_of(rows: Seq<Record>) -> Seq<RecordView> {
    rows.map_values(|r: Record| r@)
}

/// Mathematical state of the record store: the persisted rows in insertion
/// order, and the next identity value the store will assign.
#[verifier::ext_equal]
pub struct StoreModel {
    pub rows: Seq<RecordView>,
    pub next_id: int,
}

impl StoreModel {
    /// Store invariant: identities start at 1, stay below the identity
    /// counter, and are pairwise distinct.
    pub open spec fn inv(self) -> bool {
        &&& 1 <= self.next_id
        &&& forall|i: int|
            0 <= i < self.rows.len() ==> 1 <= #[trigger] self.rows[i].id < self.next_id
        &&& forall|i: int, j: int|
            0 <= i < j < self.rows.len() ==> self.rows[i].id != self.rows[j].id
    }

    /// One create: the store assigns the counter value as the new row's id,
    /// appends the row, and advances the counter.
    pub open spec fn create_step(self, txt: Seq<char>) -> (StoreModel, RecordView) {
        let r = RecordView { id: self.next_id, txt };
        (StoreModel { rows: self.rows.push(r), next_id: self.next_id + 1 }, r)
    }

    /// Some persisted row carries `id`.
    pub open spec fn has_id(self, id: int) -> bool {
        exists|i: int| 0 <= i < self.rows.len() && #[trigger] self.rows[i].id == id
    }

    /// An index of a row carrying `id`; under [`StoreModel::inv`] it is the
    /// only one.
    pub open spec fn index_of_id(self, id: int) -> int {
        choose|i: int| 0 <= i < self.rows.len() && #[trigger] self.rows[i].id == id
    }

    /// One delete: when a row matches, remove exactly that row and hand its
    /// prior contents back; otherwise fail.
    pub open spec fn delete_step(self, id: int) -> Option<(StoreModel, RecordView)> {
        if self.has_id(id) {
            let i = self.index_of_id(id);
            Some(
                (
                    StoreModel { rows: self.rows.remove(i), next_id: self.next_id },
                    self.rows[i],
                ),
            )
        } else {
            None
        }
    }
}

/// Round trip: after `create(txt)`, the listing contains the returned
/// record, its text is `txt`, its id differs from every prior row's, the
/// prior rows are untouched, and the invariant still holds.
pub proof fn lemma_create_round_trip(s: StoreModel, txt: Seq<char>)
    requires
        s.inv(),
    ensures
        ({
            let (s2, r) = s.create_step(txt);
            &&& r.txt == txt
            &&& s2.rows.len() == s.rows.len() + 1
            &&& s2.rows.contains(r)
            &&& forall|i: int| 0 <= i < s.rows.len() ==> #[trigger] s.rows[i].id != r.id
            &&& forall|i: int| 0 <= i < s.rows.len() ==> s2.rows[i] == s.rows[i]
            &&& s2.inv()
        }),
{
    let (s2, r) = s.create_step(txt);
    assert(s2.rows[s.rows.len() as int] == r);
}

/// A successful delete of `id` removes the one matching row; a second
/// delete of the same `id` fails.
pub proof fn lemma_delete_exactly_once(s: StoreModel, id: int)
    requires
        s.inv(),
        s.delete_step(id) is Some,
    ensures
        ({
            match s.delete_step(id) {
                Some((s2, r)) => {
                    &&& r.id == id
                    &&& s2.rows.len() + 1 == s.rows.len()
                    &&& s2.delete_step(id) is None
                    &&& s2.inv()
                },
                None => false,
            }
        }),
{
    let i = s.index_of_id(id);
    assert(0 <= i < s.rows.len() && s.rows[i].id == id);
    let (s2, r) = match s.delete_step(id) {
        Some(p) => p,
        None => arbitrary(),
    };
    assert forall|j: int| 0 <= j < s2.rows.len() implies #[trigger] s2.rows[j].id != id by {
        if j < i {
            assert(s2.rows[j] == s.rows[j]);
        } else {
            assert(s2.rows[j] == s.rows[j + 1]);
        }
    }
    assert forall|a: int, b: int|
        0 <= a < b < s2.rows.len() implies s2.rows[a].id != s2.rows[b].id by {
        let a0 = if a < i { a } else { a + 1 };
        let b0 = if b < i { b } else { b + 1 };
        assert(s2.rows[a] == s.rows[a0]);
        assert(s2.rows[b] == s.rows[b0]);
    }
}

/// One store operation, as seen by a single logical client.
pub enum StoreOp {
    Create { txt: Seq<char> },
    Delete { id: int },
}

/// The state after one operation (a failed delete leaves the state as is).
pub open spec fn apply_op(s: StoreModel, op: StoreOp) -> StoreModel {
    match op {
        StoreOp::Create { txt } => s.create_step(txt).0,
        StoreOp::Delete { id } => match s.delete_step(id) {
            Some((s2, _)) => s2,
            None => s,
        },
    }
}

/// The state after a sequence of operations, applied in order.
pub open spec fn apply_ops(s: StoreModel, ops: Seq<StoreOp>) -> StoreModel
    decreases ops.len(),
{
    if ops.len() == 0 {
        s
    } else {
        apply_ops(apply_op(s, ops.first()), ops.drop_first())
    }
}

/// Successful creates minus successful deletes along the run starting at `s`.
pub open spec fn op_delta(s: StoreModel, ops: Seq<StoreOp>) -> int
    decreases ops.len(),
{
    if ops.len() == 0 {
        0
    } else {
        let d = match ops.first() {
            StoreOp::Create { txt } => 1int,
            StoreOp::Delete { id } => if s.delete_step(id) is Some {
                -1int
            } else {
                0int
            },
        };
        d + op_delta(apply_op(s, ops.first()), ops.drop_first())
    }
}

/// Every single operation preserves the store invariant.
pub proof fn lemma_apply_op_inv(s: StoreModel, op: StoreOp)
    requires
        s.inv(),
    ensures
        apply_op(s, op).inv(),
{
    match op {
        StoreOp::Create { txt } => {
            lemma_create_round_trip(s, txt);
        },
        StoreOp::Delete { id } => {
            if s.delete_step(id) is Some {
                lemma_delete_exactly_once(s, id);
            }
        },
    }
}

/// The listing reflects the store state: after any interleaving of creates
/// and deletes by a single logical client, the row count equals the starting
/// count plus the successful creates minus the successful deletes.
pub proof fn lemma_list_count(s: StoreModel, ops: Seq<StoreOp>)
    requires
        s.inv(),
    ensures
        apply_ops(s, ops).inv(),
        apply_ops(s, ops).rows.len() == s.rows.len() + op_delta(s, ops),
    decreases ops.len(),
{
    if ops.len() > 0 {
        lemma_apply_op_inv(s, ops.first());
        lemma_list_count(apply_op(s, ops.first()), ops.drop_first());
        match ops.first() {
            StoreOp::Create { txt } => {},
            StoreOp::Delete { id } => {
                if s.delete_step(id) is Some {
                    lemma_delete_exactly_once(s, id);
                }
            },
        }
    }
}

/// The state and returned records after a sequence of creates.
pub open spec fn create_all(s: StoreModel, txts: Seq<Seq<char>>) -> (StoreModel, Seq<RecordView>)
    decreases txts.len(),
{
    if txts.len() == 0 {
        (s, Seq::empty())
    } else {
        let (s1, r) = s.create_step(txts.first());
        let (s2, rs) = create_all(s1, txts.drop_first());
        (s2, seq![r] + rs)
    }
}

/// Identity uniqueness: the ids handed out by any sequence of creates are
/// consecutive counter values, hence pairwise distinct.
pub proof fn lemma_create_ids_distinct(s: StoreModel, txts: Seq<Seq<char>>)
    requires
        s.inv(),
    ensures
        ({
            let (s2, rs) = create_all(s, txts);
            &&& rs.len() == txts.len()
            &&& forall|i: int| 0 <= i < rs.len() ==> #[trigger] rs[i].id == s.next_id + i
            &&& forall|i: int, j: int| 0 <= i < j < rs.len() ==> rs[i].id != rs[j].id
            &&& s2.inv()
        }),
    decreases txts.len(),
{
    if txts.len() > 0 {
        let (s1, r) = s.create_step(txts.first());
        lemma_create_round_trip(s, txts.first());
        lemma_create_ids_distinct(s1, txts.drop_first());
        let (s2, rs) = create_all(s1, txts.drop_first());
        assert forall|i: int| 0 <= i < rs.len() + 1 implies #[trigger] (seq![r] + rs)[i].id
            == s.next_id + i by {
            if i > 0 {
                assert((seq![r] + rs)[i] == rs[i - 1]);
            }
        }
    }
}

/// The record store, holding the rows and the identity counter.
pub struct Store {
    rows: Vec<Record>,
    next_id: i32,
}

impl View for Store {
    type V = StoreModel;

    closed spec fn view(&self) -> StoreModel {
        StoreModel { rows: views_of(self.rows@), next_id: self.next_id as int }
    }
}

impl Store {
    /// The store is well formed when its model satisfies the invariant.
    pub open spec fn wf(&self) -> bool {
        self@.inv()
    }

    /// An empty store; identity generation starts at 1.
    pub fn new() -> (s: Store)
        ensures
            s.wf(),
            s@.rows.len() == 0,
            s@.next_id == 1,
    {
        let s = Store { rows: Vec::new(), next_id: 1 };
        proof {
            assert(s@.rows =~= Seq::<RecordView>::empty());
        }
        s
    }

    /// Number of rows currently persisted.
    pub fn count(&self) -> (n: usize)
        ensures
            n == self@.rows.len(),
    {
        self.rows.len()
    }

    /// Insert a new row with the given text; the store assigns the id and
    /// hands the fully populated record back.
    pub fn create(&mut self, txt: String) -> (r: Record)
        requires
            old(self).wf(),
            old(self)@.next_id < i32::MAX as int,
        ensures
            final(self).wf(),
            final(self)@ == old(self)@.create_step(txt@).0,
            r@ == old(self)@.create_step(txt@).1,
    {
        let id = self.next_id;
        self.next_id = self.next_id + 1;
        let rec = Record { id, txt };
        let out = rec.clone();
        self.rows.push(rec);
        proof {
            assert(self@.rows =~= old(self)@.rows.push(out@));
            assert(self@ =~= old(self)@.create_step(out@.txt).0);
        }
        out
    }

    /// Remove the row matching `id` and return its prior contents; when no
    /// row matches, fail with `NotFound` and leave the store unchanged.
    pub fn delete(&mut self, id: i32) -> (r: Result<Record, StoreError>)
        requires
            old(self).wf(),
        ensures
            final(self).wf(),
            match old(self)@.delete_step(id as int) {
                Some(p) => {
                    &&& r matches Ok(rec) && rec@ == p.1
                    &&& final(self)@ == p.0
                },
                None => {
                    &&& r == Err::<Record, StoreError>(StoreError::NotFound { id })
                    &&& final(self)@ == old(self)@
                },
            },
    {
        let n = self.rows.len();
        let mut i: usize = 0;
        while i < n
            invariant
                i <= n,
                *self == *old(self),
                old(self).wf(),
                n == self.rows.len(),
                forall|j: int| 0 <= j < i ==> #[trigger] self.rows@[j]@.id != id as int,
            decreases n - i,
        {
            if self.rows[i].id == id {
                proof {
                    assert(self@.rows[i as int].id == id as int);
                    assert(self@.has_id(id as int));
                    let k = self@.index_of_id(id as int);
                    assert(self@.rows[k].id == id as int);
                    if k < i as int {
                        assert(self@.rows[k].id != self@.rows[i as int].id);
                    } else if k > i as int {
                        assert(self@.rows[i as int].id != self@.rows[k].id);
                    }
                    assert(k == i as int);
                }
                let rec = self.rows.remove(i);
                proof {
                    assert(self@.rows =~= old(self)@.rows.remove(i as int));
                }
                return Ok(rec);
            }
            i = i + 1;
        }
        proof {
            assert(!self@.has_id(id as int));
        }
        Err(StoreError::NotFound { id })
    }

    /// All rows, in insertion order.
    pub fn list(&self) -> (r: Vec<Record>)
        ensures
            views_of(r@) == self@.rows,
            r@.len() == self@.rows.len(),
    {
        let mut out: Vec<Record> = Vec::new();
        let n = self.rows.len();
        let mut i: usize = 0;
        while i < n
            invariant
                i <= n,
                n == self.rows.len(),
                out@.len() == i,
                forall|j: int| 0 <= j < i ==> #[trigger] out@[j]@ == self.rows@[j]@,
            decreases n - i,
        {
            let rec = self.rows[i].clone();
            out.push(rec);
            i = i + 1;
        }
        proof {
            assert(views_of(out@) =~= self@.rows);
        }
        out
    }
}

} // verus!
