//! Atomic write batches.
//!
//! A batch is an ordered, in-memory list of staged operations; nothing
//! touches a keyspace until the batch is handed to a handle's `write`, which
//! applies every staged operation as one atomic unit. A batch is consumed by
//! `write` and cannot be reused.

use vstd::prelude::*;

use crate::column_family::ColumnFamily;
use crate::error::Error;
use crate::keyspace::copy_bytes;
use crate::keyspace::merged_value;
use crate::registry::FamilyRecord;
use crate::registry::default_index;
use crate::registry::delete_at;
use crate::registry::family_maps;
use crate::registry::locate_default;
use crate::registry::merge_at;
use crate::registry::put_at;
use crate::registry::registry_wf;
use crate::registry::same_shape;

verus! {

/// One staged operation. A missing column family means the default family,
/// resolved when the batch is applied.
pub enum BatchOp {
    Put { cf: Option<ColumnFamily>, key: Vec<u8>, value: Vec<u8> },
    Merge { cf: Option<ColumnFamily>, key: Vec<u8>, value: Vec<u8> },
    Delete { cf: Option<ColumnFamily>, key: Vec<u8> },
}

/// The mathematical view of one staged operation.
pub enum OpView {
    Put { cf: Option<ColumnFamily>, key: Seq<u8>, value: Seq<u8> },
    Merge { cf: Option<ColumnFamily>, key: Seq<u8>, value: Seq<u8> },
    Delete { cf: Option<ColumnFamily>, key: Seq<u8> },
}

/// The view of one staged operation.
pub open spec fn op_view(op: BatchOp) -> OpView {
    match op {
        BatchOp::Put { cf, key, value } => OpView::Put { cf, key: key@, value: value@ },
        BatchOp::Merge { cf, key, value } => OpView::Merge { cf, key: key@, value: value@ },
        BatchOp::Delete { cf, key } => OpView::Delete { cf, key: key@ },
    }
}

/// The staged payload an operation adds to the batch's serialized size: an
/// operation tag and its key and value bytes.
pub open spec fn op_size(op: OpView) -> int {
    match op {
        OpView::Put { key, value, .. } => 1 + key.len() as int + value.len() as int,
        OpView::Merge { key, value, .. } => 1 + key.len() as int + value.len() as int,
        OpView::Delete { key, .. } => 1 + key.len() as int,
    }
}

/// The serialized size of a batch: a fixed header plus each operation's
/// staged payload.
pub open spec fn batch_size(ops: Seq<OpView>) -> int
    decreases ops.len(),
{
    if ops.len() == 0 {
        12
    } else {
        batch_size(ops.drop_last()) + op_size(ops.last())
    }
}

/// A batch's size never falls under the header size.
pub proof fn lemma_batch_size_bounds(ops: Seq<OpView>)
    ensures
        batch_size(ops) >= 12,
    decreases ops.len(),
{
    if ops.len() > 0 {
        lemma_batch_size_bounds(ops.drop_last());
    }
}

/// The family an operation is aimed at, when it names one.
pub open spec fn op_cf(op: OpView) -> Option<ColumnFamily> {
    match op {
        OpView::Put { cf, .. } => cf,
        OpView::Merge { cf, .. } => cf,
        OpView::Delete { cf, .. } => cf,
    }
}

/// Every family the operation names is live in the registry.
pub open spec fn op_ok(fams: Seq<crate::registry::FamilyRecord>, op: OpView) -> bool {
    match op_cf(op) {
        Some(cf) => crate::registry::cf_valid_in(fams, cf),
        None => true,
    }
}

/// Every family the batch names is live in the registry.
pub open spec fn batch_ok(fams: Seq<crate::registry::FamilyRecord>, ops: Seq<OpView>) -> bool {
    forall|i: int| 0 <= i < ops.len() ==> op_ok(fams, ops[i])
}

/// The key an operation writes.
pub open spec fn op_key(op: OpView) -> Seq<u8> {
    match op {
        OpView::Put { key, .. } => key,
        OpView::Merge { key, .. } => key,
        OpView::Delete { key, .. } => key,
    }
}

/// The position an operation writes to, given the default family's position.
pub open spec fn op_target(d: int, op: OpView) -> int {
    match op_cf(op) {
        Some(cf) => cf.index as int,
        None => d,
    }
}

/// One operation applied to the family maps.
pub open spec fn apply_op(ms: Seq<Map<Seq<u8>, Seq<u8>>>, d: int, op: OpView) -> Seq<
    Map<Seq<u8>, Seq<u8>>,
> {
    let t = op_target(d, op);
    match op {
        OpView::Put { key, value, .. } => ms.update(t, ms[t].insert(key, value)),
        OpView::Merge { key, value, .. } => ms.update(
            t,
            ms[t].insert(key, merged_value(ms[t], key, value)),
        ),
        OpView::Delete { key, .. } => ms.update(t, ms[t].remove(key)),
    }
}

/// A batch applied to the family maps, in order, as one unit.
pub open spec fn apply_batch(ms: Seq<Map<Seq<u8>, Seq<u8>>>, d: int, ops: Seq<OpView>) -> Seq<
    Map<Seq<u8>, Seq<u8>>,
>
    decreases ops.len(),
{
    if ops.len() == 0 {
        ms
    } else {
        apply_op(apply_batch(ms, d, ops.drop_last()), d, ops.last())
    }
}

/// Write-batch atomicity, on the canonical shape: a batch staging
/// `put(k1, v1)`, `put(k2, v2)`, `delete(k1)` leaves, once written, `k1`
/// absent and `k2` holding `v2` — for every starting state and distinct keys.
/// `write` applies the whole batch as one transition of the handle, so no
/// reader of the handle observes a state between the staged operations.
pub proof fn lemma_batch_atomic_shape(
    ms: Seq<Map<Seq<u8>, Seq<u8>>>,
    d: int,
    k1: Seq<u8>,
    v1: Seq<u8>,
    k2: Seq<u8>,
    v2: Seq<u8>,
)
    requires
        0 <= d < ms.len(),
        k1 != k2,
    ensures
        ({
            let ops = seq![
                OpView::Put { cf: None, key: k1, value: v1 },
                OpView::Put { cf: None, key: k2, value: v2 },
                OpView::Delete { cf: None, key: k1 },
            ];
            let out = apply_batch(ms, d, ops);
            &&& out.len() == ms.len()
            &&& !out[d].dom().contains(k1)
            &&& out[d].dom().contains(k2)
            &&& out[d][k2] == v2
        }),
{
    let ops = seq![
        OpView::Put { cf: None, key: k1, value: v1 },
        OpView::Put { cf: None, key: k2, value: v2 },
        OpView::Delete { cf: None, key: k1 },
    ];
    reveal_with_fuel(apply_batch, 5);
    let two = ops.drop_last();
    let one = two.drop_last();
    assert(one.drop_last() =~= Seq::<OpView>::empty());
    assert(one.last() == OpView::Put { cf: None, key: k1, value: v1 });
    assert(two.last() == OpView::Put { cf: None, key: k2, value: v2 });
    assert(ops.last() == OpView::Delete { cf: None, key: k1 });
}

/// An ordered set of staged operations, committed atomically.
pub struct WriteBatch {
    pub(crate) ops: Vec<BatchOp>,
}

impl View for WriteBatch {
    type V = Seq<OpView>;

    closed spec fn view(&self) -> Seq<OpView> {
        self.ops@.map_values(|op: BatchOp| op_view(op))
    }
}

impl WriteBatch {
    /// A fresh, empty batch.
    pub fn new() -> (r: WriteBatch)
        ensures
            r@ == Seq::<OpView>::empty(),
    {
        let r = WriteBatch { ops: Vec::new() };
        proof {
            assert(r@ =~= Seq::<OpView>::empty());
        }
        r
    }

    /// How many operations are staged.
    pub fn len(&self) -> (n: usize)
        ensures
            n == self@.len(),
    {
        self.ops.len()
    }

    /// Whether nothing is staged.
    pub fn is_empty(&self) -> (r: bool)
        ensures
            r <==> self@.len() == 0,
    {
        self.len() == 0
    }

    /// The batch's serialized size in bytes, saturating at the machine
    /// limit.
    pub fn size_in_bytes(&self) -> (n: usize)
        ensures
            n == if batch_size(self@) <= usize::MAX {
                batch_size(self@)
            } else {
                usize::MAX as int
            },
    {
        let count: usize = self.ops.len();
        let mut size: usize = 12;
        let mut i: usize = 0;
        proof {
            assert(self@.take(0) =~= Seq::<OpView>::empty());
        }
        while i < count
            invariant
                i <= count,
                count == self.ops@.len(),
                count == self@.len(),
                size == if batch_size(self@.take(i as int)) <= usize::MAX {
                    batch_size(self@.take(i as int))
                } else {
                    usize::MAX as int
                },
            decreases count - i,
        {
            let more: usize = match &self.ops[i] {
                BatchOp::Put { key, value, .. } => {
                    let k = key.len();
                    let v = value.len();
                    if v <= usize::MAX - 1 && k <= usize::MAX - 1 - v {
                        1 + k + v
                    } else {
                        usize::MAX
                    }
                },
                BatchOp::Merge { key, value, .. } => {
                    let k = key.len();
                    let v = value.len();
                    if v <= usize::MAX - 1 && k <= usize::MAX - 1 - v {
                        1 + k + v
                    } else {
                        usize::MAX
                    }
                },
                BatchOp::Delete { key, .. } => {
                    let k = key.len();
                    if k <= usize::MAX - 1 {
                        1 + k
                    } else {
                        usize::MAX
                    }
                },
            };
            proof {
                assert(self@[i as int] == op_view(self.ops@[i as int]));
                assert(more == if op_size(self@[i as int]) <= usize::MAX {
                    op_size(self@[i as int])
                } else {
                    usize::MAX as int
                });
                assert(self@.take(i + 1).drop_last() =~= self@.take(i as int));
                assert(self@.take(i + 1).last() == self@[i as int]);
                lemma_batch_size_bounds(self@.take(i as int));
            }
            if size > usize::MAX - more {
                size = usize::MAX;
            } else {
                size = size + more;
            }
            i = i + 1;
        }
        proof {
            assert(self@.take(count as int) =~= self@);
        }
        size
    }

    /// Cuts the staged operations back to the first `n`.
    pub(crate) fn truncate_ops(&mut self, n: usize)
        requires
            n <= old(self)@.len(),
        ensures
            final(self)@ == old(self)@.take(n as int),
    {
        self.ops.truncate(n);
        proof {
            assert(final(self)@ =~= old(self)@.take(n as int));
        }
    }

    /// The staged operation at position `i`.
    pub(crate) fn op_at(&self, i: usize) -> (r: &BatchOp)
        requires
            i < self@.len(),
        ensures
            op_view(*r) == self@[i as int],
    {
        &self.ops[i]
    }

    /// Stages an insertion into the default family.
    pub fn put(&mut self, key: &[u8], value: &[u8]) -> (r: Result<(), Error>)
        ensures
            r is Ok,
            final(self)@ == old(self)@.push(OpView::Put { cf: None, key: key@, value: value@ }),
    {
        let op = BatchOp::Put { cf: None, key: copy_bytes(key), value: copy_bytes(value) };
        self.ops.push(op);
        proof {
            assert(final(self)@ =~= old(self)@.push(
                OpView::Put { cf: None, key: key@, value: value@ },
            ));
        }
        Ok(())
    }

    /// Stages an insertion into the given column family.
    pub fn put_cf(&mut self, cf: ColumnFamily, key: &[u8], value: &[u8]) -> (r: Result<(), Error>)
        ensures
            r is Ok,
            final(self)@ == old(self)@.push(
                OpView::Put { cf: Some(cf), key: key@, value: value@ },
            ),
    {
        let op = BatchOp::Put { cf: Some(cf), key: copy_bytes(key), value: copy_bytes(value) };
        self.ops.push(op);
        proof {
            assert(final(self)@ =~= old(self)@.push(
                OpView::Put { cf: Some(cf), key: key@, value: value@ },
            ));
        }
        Ok(())
    }

    /// Stages a merge into the default family.
    pub fn merge(&mut self, key: &[u8], value: &[u8]) -> (r: Result<(), Error>)
        ensures
            r is Ok,
            final(self)@ == old(self)@.push(OpView::Merge { cf: None, key: key@, value: value@ }),
    {
        let op = BatchOp::Merge { cf: None, key: copy_bytes(key), value: copy_bytes(value) };
        self.ops.push(op);
        proof {
            assert(final(self)@ =~= old(self)@.push(
                OpView::Merge { cf: None, key: key@, value: value@ },
            ));
        }
        Ok(())
    }

    /// Stages a merge into the given column family.
    pub fn merge_cf(&mut self, cf: ColumnFamily, key: &[u8], value: &[u8]) -> (r: Result<
        (),
        Error,
    >)
        ensures
            r is Ok,
            final(self)@ == old(self)@.push(
                OpView::Merge { cf: Some(cf), key: key@, value: value@ },
            ),
    {
        let op = BatchOp::Merge { cf: Some(cf), key: copy_bytes(key), value: copy_bytes(value) };
        self.ops.push(op);
        proof {
            assert(final(self)@ =~= old(self)@.push(
                OpView::Merge { cf: Some(cf), key: key@, value: value@ },
            ));
        }
        Ok(())
    }

    /// Stages a removal from the default family.
    pub fn delete(&mut self, key: &[u8]) -> (r: Result<(), Error>)
        ensures
            r is Ok,
            final(self)@ == old(self)@.push(OpView::Delete { cf: None, key: key@ }),
    {
        let op = BatchOp::Delete { cf: None, key: copy_bytes(key) };
        self.ops.push(op);
        proof {
            assert(final(self)@ =~= old(self)@.push(OpView::Delete { cf: None, key: key@ }));
        }
        Ok(())
    }

    /// Stages a removal from the given column family.
    pub fn delete_cf(&mut self, cf: ColumnFamily, key: &[u8]) -> (r: Result<(), Error>)
        ensures
            r is Ok,
            final(self)@ == old(self)@.push(OpView::Delete { cf: Some(cf), key: key@ }),
    {
        let op = BatchOp::Delete { cf: Some(cf), key: copy_bytes(key) };
        self.ops.push(op);
        proof {
            assert(final(self)@ =~= old(self)@.push(OpView::Delete { cf: Some(cf), key: key@ }));
        }
        Ok(())
    }
}

/// Whether every family the batch names is live in the registry.
pub(crate) fn ops_all_valid(fams: &Vec<FamilyRecord>, batch: &WriteBatch) -> (r: bool)
    ensures
        r == batch_ok(fams@, batch@),
{
    let count = batch.ops.len();
    let mut i: usize = 0;
    while i < count
        invariant
            i <= count,
            count == batch.ops@.len(),
            count == batch@.len(),
            forall|j: int| 0 <= j < i ==> op_ok(fams@, batch@[j]),
        decreases count - i,
    {
        proof {
            assert(batch@[i as int] == op_view(batch.ops@[i as int]));
        }
        let valid = match &batch.ops[i] {
            BatchOp::Put { cf: Some(cf), .. } => cf.index < fams.len() && fams[cf.index].alive,
            BatchOp::Merge { cf: Some(cf), .. } => cf.index < fams.len() && fams[cf.index].alive,
            BatchOp::Delete { cf: Some(cf), .. } => cf.index < fams.len() && fams[cf.index].alive,
            _ => true,
        };
        if !valid {
            return false;
        }
        i = i + 1;
    }
    true
}

/// Applies every staged operation, in order, to the registry.
pub(crate) fn apply_ops_to(fams: &mut Vec<FamilyRecord>, batch: &WriteBatch)
    requires
        registry_wf(old(fams)@),
        batch_ok(old(fams)@, batch@),
    ensures
        registry_wf(final(fams)@),
        same_shape(old(fams)@, final(fams)@),
        default_index(final(fams)@) == default_index(old(fams)@),
        family_maps(final(fams)@) == apply_batch(
            family_maps(old(fams)@),
            default_index(old(fams)@),
            batch@,
        ),
{
    let count = batch.ops.len();
    let ghost d = default_index(old(fams)@);
    let di = locate_default(fams);
    let mut i: usize = 0;
    proof {
        assert(batch@.take(0) =~= Seq::<OpView>::empty());
    }
    while i < count
        invariant
            i <= count,
            count == batch.ops@.len(),
            count == batch@.len(),
            batch_ok(old(fams)@, batch@),
            registry_wf(old(fams)@),
            registry_wf(fams@),
            di == d,
            d == default_index(old(fams)@),
            default_index(fams@) == d,
            same_shape(old(fams)@, fams@),
            family_maps(fams@) == apply_batch(family_maps(old(fams)@), d, batch@.take(i as int)),
        decreases count - i,
    {
        let ghost prev = fams@;
        proof {
            assert(op_ok(old(fams)@, batch@[i as int]));
            assert(batch@[i as int] == op_view(batch.ops@[i as int]));
            assert(batch@.take(i + 1).drop_last() =~= batch@.take(i as int));
            assert(batch@.take(i + 1).last() == batch@[i as int]);
        }
        match &batch.ops[i] {
            BatchOp::Put { cf, key, value } => {
                let t: usize = match cf {
                    Some(cf) => cf.index,
                    None => di,
                };
                put_at(fams, t, key.as_slice(), value.as_slice());
                proof {
                    assert(family_maps(fams@) =~= apply_op(family_maps(prev), d, batch@[i as int]));
                }
            },
            BatchOp::Merge { cf, key, value } => {
                let t: usize = match cf {
                    Some(cf) => cf.index,
                    None => di,
                };
                merge_at(fams, t, key.as_slice(), value.as_slice());
                proof {
                    assert(family_maps(fams@) =~= apply_op(family_maps(prev), d, batch@[i as int]));
                }
            },
            BatchOp::Delete { cf, key } => {
                let t: usize = match cf {
                    Some(cf) => cf.index,
                    None => di,
                };
                delete_at(fams, t, key.as_slice());
                proof {
                    assert(family_maps(fams@) =~= apply_op(family_maps(prev), d, batch@[i as int]));
                }
            },
        }
        i = i + 1;
    }
    proof {
        assert(batch@.take(count as int) =~= batch@);
    }
}

impl Default for WriteBatch {
    fn default() -> (r: WriteBatch)
        ensures
            r@ == Seq::<OpView>::empty(),
    {
        WriteBatch::new()
    }
}

} // verus!
