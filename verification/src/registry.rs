//! The column-family registry shared by the database handles.
//!
//! A handle owns one registry: a vector of family records. Handles given to
//! callers are indices into it. A dropped family keeps its slot, marked dead,
//! so outstanding handles stay index-stable and every use of one is checked
//! and refused instead of touching a dangling resource.

use vstd::prelude::*;
use vstd::utf8::encode_utf8_decode_utf8;

use crate::keyspace::KeySpace;
use crate::order::KeyOrder;
use crate::order::compare_keys;

verus! {

/// One entry of a registry.
pub struct FamilyRecord {
    /// The family's name.
    pub name: String,
    /// False once the family has been dropped.
    pub alive: bool,
    /// The family's records.
    pub space: KeySpace,
}

/// The name of the column family every open database holds.
pub open spec fn spec_default_name() -> Seq<char> {
    "default"@
}

/// The default family's name.
pub fn default_family_name() -> (r: &'static str)
    ensures
        r@ == spec_default_name(),
{
    "default"
}

/// A live family named "default" is present.
pub open spec fn default_exists(fams: Seq<FamilyRecord>) -> bool {
    exists|i: int|
        0 <= i < fams.len() && (#[trigger] fams[i]).alive && fams[i].name@ == spec_default_name()
}

/// The position of the live default family.
pub open spec fn default_index(fams: Seq<FamilyRecord>) -> int {
    choose|i: int|
        0 <= i < fams.len() && (#[trigger] fams[i]).alive && fams[i].name@ == spec_default_name()
}

/// A well-formed registry: a live default family is present, every keyspace
/// is sorted, and no two live families share a name.
pub open spec fn registry_wf(fams: Seq<FamilyRecord>) -> bool {
    &&& default_exists(fams)
    &&& forall|i: int| 0 <= i < fams.len() ==> (#[trigger] fams[i]).space.wf()
    &&& forall|i: int, j: int|
        0 <= i < j < fams.len() && fams[i].alive && fams[j].alive ==> fams[i].name@ != fams[j].name@
}

/// The map held by the family at position `i`.
pub open spec fn family_map_of(fams: Seq<FamilyRecord>, i: int) -> Map<Seq<u8>, Seq<u8>> {
    fams[i].space.as_map()
}

/// The maps of all families, by position.
pub open spec fn family_maps(fams: Seq<FamilyRecord>) -> Seq<Map<Seq<u8>, Seq<u8>>> {
    Seq::new(fams.len() as nat, |i: int| fams[i].space.as_map())
}

/// The map held by the default family.
pub open spec fn default_map_of(fams: Seq<FamilyRecord>) -> Map<Seq<u8>, Seq<u8>> {
    family_map_of(fams, default_index(fams))
}

/// In a well-formed registry the default index denotes the one live default
/// family, and no other position does.
pub proof fn lemma_default_index(fams: Seq<FamilyRecord>)
    requires
        registry_wf(fams),
    ensures
        0 <= default_index(fams) < fams.len(),
        fams[default_index(fams)].alive,
        fams[default_index(fams)].name@ == spec_default_name(),
        forall|i: int|
            0 <= i < fams.len() && (#[trigger] fams[i]).alive && fams[i].name@
                == spec_default_name() ==> i == default_index(fams),
{
    let d = default_index(fams);
    assert(0 <= d < fams.len() && fams[d].alive && fams[d].name@ == spec_default_name());
    assert forall|i: int|
        0 <= i < fams.len() && (#[trigger] fams[i]).alive && fams[i].name@
            == spec_default_name() implies i == d by {
        if i < d {
            assert(fams[i].name@ != fams[d].name@);
        } else if i > d {
            assert(fams[d].name@ != fams[i].name@);
        }
    }
}

/// A live family with the given name is present.
pub open spec fn name_live_in(fams: Seq<FamilyRecord>, n: Seq<char>) -> bool {
    exists|i: int| 0 <= i < fams.len() && (#[trigger] fams[i]).alive && fams[i].name@ == n
}

/// The position of the live family with the given name.
pub open spec fn live_index(fams: Seq<FamilyRecord>, n: Seq<char>) -> int {
    choose|i: int| 0 <= i < fams.len() && (#[trigger] fams[i]).alive && fams[i].name@ == n
}

/// In a well-formed registry, a live name denotes exactly one position.
pub proof fn lemma_live_index(fams: Seq<FamilyRecord>, n: Seq<char>)
    requires
        registry_wf(fams),
        name_live_in(fams, n),
    ensures
        0 <= live_index(fams, n) < fams.len(),
        fams[live_index(fams, n)].alive,
        fams[live_index(fams, n)].name@ == n,
        forall|i: int|
            0 <= i < fams.len() && (#[trigger] fams[i]).alive && fams[i].name@ == n ==> i
                == live_index(fams, n),
{
    let d = live_index(fams, n);
    assert(0 <= d < fams.len() && fams[d].alive && fams[d].name@ == n);
    assert forall|i: int|
        0 <= i < fams.len() && (#[trigger] fams[i]).alive && fams[i].name@ == n implies i == d by {
        if i < d {
            assert(fams[i].name@ != fams[d].name@);
        } else if i > d {
            assert(fams[d].name@ != fams[i].name@);
        }
    }
}

/// The handle denotes a live family of the registry.
pub open spec fn cf_valid_in(fams: Seq<FamilyRecord>, cf: crate::column_family::ColumnFamily) -> bool {
    cf.index < fams.len() && fams[cf.index as int].alive
}

/// Two registries of the same shape: names and liveness agree pointwise.
pub open spec fn same_shape(a: Seq<FamilyRecord>, b: Seq<FamilyRecord>) -> bool {
    b.len() == a.len() && forall|i: int|
        0 <= i < a.len() ==> (#[trigger] b[i]).name@ == a[i].name@ && b[i].alive == a[i].alive
}

/// A registry keeps its default position under any change that preserves
/// names and liveness.
pub proof fn lemma_default_index_stable(a: Seq<FamilyRecord>, b: Seq<FamilyRecord>)
    requires
        registry_wf(a),
        same_shape(a, b),
    ensures
        default_exists(b),
        default_index(b) == default_index(a),
{
    lemma_default_index(a);
    let d = default_index(a);
    assert(b[d].alive && b[d].name@ == spec_default_name());
    assert(default_exists(b));
    let d2 = default_index(b);
    assert(0 <= d2 < b.len() && b[d2].alive && b[d2].name@ == spec_default_name());
    assert(a[d2].alive && a[d2].name@ == spec_default_name());
    lemma_default_index(a);
}

/// The registry after a write to the family at position `t`: that family's
/// map becomes `m`, and every other record is untouched.
pub open spec fn updated_at(
    a: Seq<FamilyRecord>,
    b: Seq<FamilyRecord>,
    t: int,
    m: Map<Seq<u8>, Seq<u8>>,
) -> bool {
    &&& b.len() == a.len()
    &&& forall|i: int| 0 <= i < a.len() && i != t ==> family_like(a[i], b[i])
    &&& b[t].name@ == a[t].name@
    &&& b[t].alive == a[t].alive
    &&& b[t].space.wf()
    &&& b[t].space.as_map() == m
}

/// A write to one family keeps the registry well-formed and in shape.
pub proof fn lemma_updated_at_wf(
    a: Seq<FamilyRecord>,
    b: Seq<FamilyRecord>,
    t: int,
    m: Map<Seq<u8>, Seq<u8>>,
)
    requires
        registry_wf(a),
        0 <= t < a.len(),
        updated_at(a, b, t, m),
    ensures
        registry_wf(b),
        same_shape(a, b),
        default_index(b) == default_index(a),
{
    assert forall|i: int|
        0 <= i < a.len() implies (#[trigger] b[i]).name@ == a[i].name@ && b[i].alive
        == a[i].alive by {
        if i != t {
            assert(family_like(a[i], b[i]));
        }
    }
    assert(same_shape(a, b));
    lemma_default_index_stable(a, b);
    assert forall|i: int| 0 <= i < b.len() implies (#[trigger] b[i]).space.wf() by {
        if i != t {
            assert(family_like(a[i], b[i]));
        }
    }
}

/// Two records that agree in name, liveness and contents.
pub open spec fn family_like(a: FamilyRecord, b: FamilyRecord) -> bool {
    a.name@ == b.name@ && a.alive == b.alive && a.space@ == b.space@
}

/// Two registries that agree record for record.
pub open spec fn same_families(a: Seq<FamilyRecord>, b: Seq<FamilyRecord>) -> bool {
    a.len() == b.len() && forall|i: int| 0 <= i < a.len() ==> family_like(a[i], b[i])
}

/// Record-for-record agreement carries well-formedness over.
pub proof fn lemma_same_families_wf(a: Seq<FamilyRecord>, b: Seq<FamilyRecord>)
    requires
        registry_wf(a),
        same_families(a, b),
    ensures
        registry_wf(b),
{
    assert(family_like(a[0], b[0]));
    assert forall|i: int| 0 <= i < b.len() implies (#[trigger] b[i]).space.wf() by {
        assert(family_like(a[i], b[i]));
    }
    assert forall|i: int, j: int|
        0 <= i < j < b.len() && b[i].alive && b[j].alive implies b[i].name@ != b[j].name@ by {
        assert(family_like(a[i], b[i]));
        assert(family_like(a[j], b[j]));
    }
}

/// Whether two text values are the same, decided on their encodings.
pub fn text_eq(a: &str, b: &str) -> (r: bool)
    ensures
        r == (a@ == b@),
{
    let r = compare_keys(a.as_bytes(), b.as_bytes()) == KeyOrder::Equal;
    proof {
        encode_utf8_decode_utf8(a@);
        encode_utf8_decode_utf8(b@);
    }
    r
}

/// Finds the live family with the given name.
pub fn find_family(fams: &Vec<FamilyRecord>, name: &str) -> (r: Option<usize>)
    ensures
        match r {
            Some(i) => i < fams@.len() && fams@[i as int].alive && fams@[i as int].name@ == name@,
            None => forall|i: int|
                0 <= i < fams@.len() ==> !((#[trigger] fams@[i]).alive && fams@[i].name@ == name@),
        },
{
    let n: usize = fams.len();
    let mut i: usize = 0;
    while i < n
        invariant
            i <= n,
            n == fams@.len(),
            forall|j: int|
                0 <= j < i ==> !((#[trigger] fams@[j]).alive && fams@[j].name@ == name@),
        decreases n - i,
    {
        if fams[i].alive && text_eq(fams[i].name.as_str(), name) {
            return Some(i);
        }
        i = i + 1;
    }
    None
}

/// An independent, record-for-record copy of a registry.
pub fn duplicate_families(fams: &Vec<FamilyRecord>) -> (r: Vec<FamilyRecord>)
    ensures
        same_families(fams@, r@),
{
    let n: usize = fams.len();
    let mut out: Vec<FamilyRecord> = Vec::new();
    let mut i: usize = 0;
    while i < n
        invariant
            i <= n,
            n == fams@.len(),
            out@.len() == i,
            forall|j: int| 0 <= j < i ==> family_like(fams@[j], out@[j]),
        decreases n - i,
    {
        let rec = FamilyRecord {
            name: fams[i].name.clone(),
            alive: fams[i].alive,
            space: fams[i].space.duplicate(),
        };
        out.push(rec);
        i = i + 1;
    }
    out
}

/// The position of the live default family.
pub fn locate_default(fams: &Vec<FamilyRecord>) -> (i: usize)
    requires
        registry_wf(fams@),
    ensures
        i == default_index(fams@),
{
    proof {
        lemma_default_index(fams@);
    }
    let r = find_family(fams, default_family_name());
    match r {
        Some(i) => i,
        None => {
            proof {
                let d = default_index(fams@);
                assert((fams@[d]).alive && fams@[d].name@ == spec_default_name());
                assert(false);
            }
            0
        },
    }
}

/// Reads `key` in the family at position `i`.
pub fn read_at(fams: &Vec<FamilyRecord>, i: usize, key: &[u8]) -> (r: Option<Vec<u8>>)
    requires
        registry_wf(fams@),
        i < fams@.len(),
    ensures
        r is Some <==> family_map_of(fams@, i as int).dom().contains(key@),
        r is Some ==> r.unwrap()@ == family_map_of(fams@, i as int)[key@],
{
    fams[i].space.get(key)
}

/// Stores `value` under `key` in the family at position `i`.
pub fn put_at(fams: &mut Vec<FamilyRecord>, i: usize, key: &[u8], value: &[u8])
    requires
        registry_wf(old(fams)@),
        i < old(fams)@.len(),
    ensures
        registry_wf(final(fams)@),
        default_index(final(fams)@) == default_index(old(fams)@),
        updated_at(
            old(fams)@,
            final(fams)@,
            i as int,
            family_map_of(old(fams)@, i as int).insert(key@, value@),
        ),
{
    fams[i].space.put(key, value);
    proof {
        lemma_updated_at_wf(
            old(fams)@,
            final(fams)@,
            i as int,
            family_map_of(old(fams)@, i as int).insert(key@, value@),
        );
    }
}

/// Removes `key` from the family at position `i`.
pub fn delete_at(fams: &mut Vec<FamilyRecord>, i: usize, key: &[u8])
    requires
        registry_wf(old(fams)@),
        i < old(fams)@.len(),
    ensures
        registry_wf(final(fams)@),
        default_index(final(fams)@) == default_index(old(fams)@),
        updated_at(
            old(fams)@,
            final(fams)@,
            i as int,
            family_map_of(old(fams)@, i as int).remove(key@),
        ),
{
    fams[i].space.delete(key);
    proof {
        lemma_updated_at_wf(
            old(fams)@,
            final(fams)@,
            i as int,
            family_map_of(old(fams)@, i as int).remove(key@),
        );
    }
}

/// Merges `operand` into the value under `key` in the family at position `i`.
pub fn merge_at(fams: &mut Vec<FamilyRecord>, i: usize, key: &[u8], operand: &[u8])
    requires
        registry_wf(old(fams)@),
        i < old(fams)@.len(),
    ensures
        registry_wf(final(fams)@),
        default_index(final(fams)@) == default_index(old(fams)@),
        updated_at(
            old(fams)@,
            final(fams)@,
            i as int,
            family_map_of(old(fams)@, i as int).insert(
                key@,
                crate::keyspace::merged_value(family_map_of(old(fams)@, i as int), key@, operand@),
            ),
        ),
{
    fams[i].space.merge(key, operand);
    proof {
        lemma_updated_at_wf(
            old(fams)@,
            final(fams)@,
            i as int,
            family_map_of(old(fams)@, i as int).insert(
                key@,
                crate::keyspace::merged_value(family_map_of(old(fams)@, i as int), key@, operand@),
            ),
        );
    }
}

/// Some byte of the string is NUL, so the engine cannot take it as a path or
/// a name.
pub open spec fn has_nul(bytes: Seq<u8>) -> bool {
    exists|i: int| 0 <= i < bytes.len() && bytes[i] == 0
}

/// Scans a byte string for a NUL byte.
pub fn contains_nul(bytes: &[u8]) -> (r: bool)
    ensures
        r == has_nul(bytes@),
{
    let n: usize = bytes.len();
    let mut i: usize = 0;
    while i < n
        invariant
            i <= n,
            n == bytes@.len(),
            forall|j: int| 0 <= j < i ==> bytes@[j] != 0,
        decreases n - i,
    {
        if bytes[i] == 0 {
            return true;
        }
        i = i + 1;
    }
    false
}

} // verus!
