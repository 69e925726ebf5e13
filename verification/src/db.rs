//! The database handle: lifecycle, point reads and writes, and the
//! column-family registry.
//!
//! A `DB` owns one engine keyspace per column family. Opening builds the
//! registry (always ensuring a live "default" family), reads go to the
//! current state or to a snapshot view attached to the read options, and
//! writes land in exactly one family, leaving every other record untouched.

use vstd::prelude::*;
use vstd::string::StringSliceAdditionalSpecFns;

use crate::column_family::ColumnFamily;
use crate::column_family::ColumnFamilyDescriptor;
use crate::dbvector::DBVector;
use crate::error::Error;
use crate::keyspace::KeySpace;
use crate::keyspace::merged_value;
use crate::options::Options;
use crate::iterator::DBIterator;
use crate::iterator::DBRawIterator;
use crate::iterator::Direction;
use crate::iterator::IteratorMode;
use crate::iterator::cursor_entries;
use crate::read_options::ReadOptions;
use crate::snapshot::Snapshot;
use crate::registry::FamilyRecord;
use crate::registry::cf_valid_in;
use crate::registry::contains_nul;
use crate::registry::default_family_name;
use crate::registry::default_index;
use crate::registry::default_map_of;
use crate::registry::family_map_of;
use crate::registry::find_family;
use crate::registry::has_nul;
use crate::registry::lemma_default_index;
use crate::registry::lemma_live_index;
use crate::registry::live_index;
use crate::registry::locate_default;
use crate::registry::merge_at;
use crate::registry::name_live_in;
use crate::registry::delete_at;
use crate::registry::put_at;
use crate::registry::read_at;
use crate::registry::registry_wf;
use crate::registry::spec_default_name;
use crate::registry::updated_at;
use crate::registry::family_maps;
use crate::registry::same_shape;
use crate::write_batch::WriteBatch;
use crate::write_batch::apply_batch;
use crate::write_batch::batch_ok;
use crate::write_options::WriteOptions;

verus! {

/// The names the descriptors ask to open.
pub open spec fn descs_names(descs: Seq<ColumnFamilyDescriptor>) -> Seq<Seq<char>> {
    descs.map_values(|d: ColumnFamilyDescriptor| d.name@)
}

/// The views of a list of name slices.
pub open spec fn str_names(names: Seq<&str>) -> Seq<Seq<char>> {
    names.map_values(|s: &str| s@)
}

/// `x` occurs among the names.
pub open spec fn names_contain(names: Seq<Seq<char>>, x: Seq<char>) -> bool {
    exists|i: int| 0 <= i < names.len() && names[i] == x
}

/// No name occurs twice.
pub open spec fn names_distinct(names: Seq<Seq<char>>) -> bool {
    forall|i: int, j: int| 0 <= i < j < names.len() ==> names[i] != names[j]
}

/// The families an open call creates: the requested names, with "default"
/// appended when the caller did not ask for it.
pub open spec fn opened_names(names: Seq<Seq<char>>) -> Seq<Seq<char>> {
    if names_contain(names, spec_default_name()) {
        names
    } else {
        names.push(spec_default_name())
    }
}

/// A just-opened registry: one live, empty family per name.
pub open spec fn fresh_families(fams: Seq<FamilyRecord>, names: Seq<Seq<char>>) -> bool {
    &&& fams.len() == names.len()
    &&& forall|i: int|
        0 <= i < fams.len() ==> (#[trigger] fams[i]).name@ == names[i] && fams[i].alive
            && fams[i].space@ == Seq::<(Seq<u8>, Seq<u8>)>::empty()
}

/// Why an open call fails, if it does: the path must encode, the directory
/// must be creatable (an empty path is not), and the requested names must not
/// collide.
pub open spec fn open_refusal(path_bytes: Seq<u8>, names: Seq<Seq<char>>) -> Option<Error> {
    if has_nul(path_bytes) {
        Some(Error::PathEncodingError)
    } else if path_bytes.len() == 0 {
        Some(Error::DirectoryCreationError)
    } else if !names_distinct(names) {
        Some(Error::InvalidArgument)
    } else {
        None
    }
}

/// Whether some descriptor asks for the default family.
fn descs_contain_default(cfs: &Vec<ColumnFamilyDescriptor>) -> (r: bool)
    ensures
        r == names_contain(descs_names(cfs@), spec_default_name()),
{
    let n: usize = cfs.len();
    let mut i: usize = 0;
    while i < n
        invariant
            i <= n,
            n == cfs@.len(),
            forall|j: int| 0 <= j < i ==> descs_names(cfs@)[j] != spec_default_name(),
        decreases n - i,
    {
        if crate::registry::text_eq(cfs[i].name.as_str(), default_family_name()) {
            proof {
                assert(descs_names(cfs@)[i as int] == spec_default_name());
            }
            return true;
        }
        i = i + 1;
    }
    false
}

/// Whether the descriptors carry pairwise distinct names.
fn descs_names_distinct(cfs: &Vec<ColumnFamilyDescriptor>) -> (r: bool)
    ensures
        r == names_distinct(descs_names(cfs@)),
{
    let n: usize = cfs.len();
    let mut i: usize = 0;
    while i < n
        invariant
            i <= n,
            n == cfs@.len(),
            forall|a: int, b: int|
                0 <= a < b < n && a < i ==> descs_names(cfs@)[a] != descs_names(cfs@)[b],
        decreases n - i,
    {
        let mut j: usize = i + 1;
        while j < n
            invariant
                i < j <= n,
                i < n,
                n == cfs@.len(),
                forall|a: int, b: int|
                    0 <= a < b < n && a < i ==> descs_names(cfs@)[a] != descs_names(cfs@)[b],
                forall|b: int| i < b < j ==> descs_names(cfs@)[i as int] != descs_names(cfs@)[b],
            decreases n - j,
        {
            if crate::registry::text_eq(cfs[i].name.as_str(), cfs[j].name.as_str()) {
                proof {
                    assert(descs_names(cfs@)[i as int] == descs_names(cfs@)[j as int]);
                }
                return false;
            }
            j = j + 1;
        }
        i = i + 1;
    }
    true
}

/// Point writes read back. For every key, value and starting state: after
/// `put(k, v)` the default family holds exactly `v` under `k` (so `get(k)`
/// returns it), and after a subsequent `delete(k)` the key is absent (so
/// `get(k)` reports absence) — by `put`'s, `delete`'s and `get`'s contracts,
/// which speak of exactly these maps.
pub proof fn lemma_put_get_delete(m: Map<Seq<u8>, Seq<u8>>, k: Seq<u8>, v: Seq<u8>)
    ensures
        m.insert(k, v).dom().contains(k),
        m.insert(k, v)[k] == v,
        !m.insert(k, v).remove(k).dom().contains(k),
{
}

/// A handle to one open database.
pub struct DB {
    path: String,
    cfs: Vec<FamilyRecord>,
}

impl DB {
    /// The handle's column-family registry.
    pub closed spec fn families(&self) -> Seq<FamilyRecord> {
        self.cfs@
    }

    /// The path the database was opened at.
    pub closed spec fn path_view(&self) -> Seq<char> {
        self.path@
    }

    /// The registry is well-formed.
    pub open spec fn wf(&self) -> bool {
        registry_wf(self.families())
    }

    /// The map held by the family at position `i`.
    pub open spec fn family_map(&self, i: int) -> Map<Seq<u8>, Seq<u8>> {
        family_map_of(self.families(), i)
    }

    /// The map held by the default family.
    pub open spec fn default_map(&self) -> Map<Seq<u8>, Seq<u8>> {
        default_map_of(self.families())
    }

    /// The handle is valid: it denotes a live family of this database.
    pub open spec fn cf_valid(&self, cf: ColumnFamily) -> bool {
        cf_valid_in(self.families(), cf)
    }

    /// The registry a read observes: the snapshot view attached to the read
    /// options, or the current state.
    pub open spec fn read_families(&self, readopts: &ReadOptions) -> Seq<FamilyRecord> {
        if readopts.has_snapshot() {
            readopts.snapshot_view()
        } else {
            self.families()
        }
    }

    /// The registry, for cursors and snapshots taken from this handle.
    pub(crate) fn families_ref(&self) -> (r: &Vec<FamilyRecord>)
        ensures
            r@ == self.families(),
    {
        &self.cfs
    }

    /// Opens a database with default options, creating it if missing.
    pub fn open_default(path: &str) -> (r: Result<DB, Error>)
        ensures
            r matches Ok(db) ==> open_refusal(path.spec_bytes(), Seq::<Seq<char>>::empty())
                is None && db.wf() && db.path_view() == path@ && fresh_families(
                db.families(),
                seq![spec_default_name()],
            ),
            r matches Err(e) ==> open_refusal(path.spec_bytes(), Seq::<Seq<char>>::empty())
                == Some(e),
    {
        let mut opts = Options::default();
        opts.create_if_missing(true);
        DB::open(&opts, path)
    }

    /// Opens a database with the given options.
    pub fn open(opts: &Options, path: &str) -> (r: Result<DB, Error>)
        ensures
            r matches Ok(db) ==> open_refusal(path.spec_bytes(), Seq::<Seq<char>>::empty())
                is None && db.wf() && db.path_view() == path@ && fresh_families(
                db.families(),
                seq![spec_default_name()],
            ),
            r matches Err(e) ==> open_refusal(path.spec_bytes(), Seq::<Seq<char>>::empty())
                == Some(e),
    {
        let r = DB::open_cf_descriptors(opts, path, Vec::new());
        proof {
            assert(descs_names(Seq::<ColumnFamilyDescriptor>::empty()) =~= Seq::<
                Seq<char>,
            >::empty());
            assert(opened_names(Seq::<Seq<char>>::empty()) =~= seq![spec_default_name()]);
        }
        r
    }

    /// Opens a database with the given column-family names; each family is
    /// created with default options.
    pub fn open_cf(opts: &Options, path: &str, cfs: &[&str]) -> (r: Result<DB, Error>)
        ensures
            r matches Ok(db) ==> open_refusal(path.spec_bytes(), str_names(cfs@)) is None
                && db.wf() && db.path_view() == path@ && fresh_families(
                db.families(),
                opened_names(str_names(cfs@)),
            ),
            r matches Err(e) ==> open_refusal(path.spec_bytes(), str_names(cfs@)) == Some(e),
    {
        let n: usize = cfs.len();
        let mut descs: Vec<ColumnFamilyDescriptor> = Vec::new();
        let mut i: usize = 0;
        while i < n
            invariant
                i <= n,
                n == cfs@.len(),
                descs@.len() == i,
                forall|j: int| 0 <= j < i ==> descs_names(descs@)[j] == str_names(cfs@)[j],
            decreases n - i,
        {
            let d = ColumnFamilyDescriptor::new(cfs[i], Options::default());
            descs.push(d);
            i = i + 1;
        }
        proof {
            assert(descs_names(descs@) =~= str_names(cfs@));
        }
        DB::open_cf_descriptors(opts, path, descs)
    }

    /// Opens a database with the given column-family descriptors.
    ///
    /// A "default" family is always ensured: when the caller omits it, one
    /// with default configuration is appended. The call fails when the path
    /// cannot be encoded, when the directory cannot be created (an empty
    /// path), or when two descriptors share a name.
    pub fn open_cf_descriptors(opts: &Options, path: &str, cfs: Vec<ColumnFamilyDescriptor>) -> (r:
        Result<DB, Error>)
        ensures
            r matches Ok(db) ==> open_refusal(path.spec_bytes(), descs_names(cfs@)) is None
                && db.wf() && db.path_view() == path@ && fresh_families(
                db.families(),
                opened_names(descs_names(cfs@)),
            ),
            r matches Err(e) ==> open_refusal(path.spec_bytes(), descs_names(cfs@)) == Some(e),
    {
        let _ = opts;
        if contains_nul(path.as_bytes()) {
            return Err(Error::PathEncodingError);
        }
        if path.as_bytes().len() == 0 {
            return Err(Error::DirectoryCreationError);
        }
        if !descs_names_distinct(&cfs) {
            return Err(Error::InvalidArgument);
        }
        let has_default = descs_contain_default(&cfs);
        let n: usize = cfs.len();
        let mut fams: Vec<FamilyRecord> = Vec::new();
        let mut i: usize = 0;
        while i < n
            invariant
                i <= n,
                n == cfs@.len(),
                fams@.len() == i,
                forall|j: int|
                    0 <= j < i ==> (#[trigger] fams@[j]).name@ == descs_names(cfs@)[j]
                        && fams@[j].alive && fams@[j].space@ == Seq::<(Seq<u8>, Seq<u8>)>::empty(),
            decreases n - i,
        {
            let rec = FamilyRecord {
                name: cfs[i].name.clone(),
                alive: true,
                space: KeySpace::new(),
            };
            fams.push(rec);
            i = i + 1;
        }
        if !has_default {
            let rec = FamilyRecord {
                name: default_family_name().to_owned(),
                alive: true,
                space: KeySpace::new(),
            };
            fams.push(rec);
        }
        let ghost names = descs_names(cfs@);
        let ghost all_names = opened_names(names);
        proof {
            if has_default {
                assert(all_names == names);
            } else {
                assert(all_names == names.push(spec_default_name()));
            }
            assert(fresh_families(fams@, all_names));
            assert(crate::registry::default_exists(fams@)) by {
                if has_default {
                    let i = choose|i: int| 0 <= i < names.len() && names[i] == spec_default_name();
                    assert(fams@[i].alive && fams@[i].name@ == spec_default_name());
                } else {
                    let i = names.len() as int;
                    assert(fams@[i].alive && fams@[i].name@ == spec_default_name());
                }
            }
            assert forall|a: int, b: int|
                0 <= a < b < fams@.len() && fams@[a].alive && fams@[b].alive implies fams@[a].name@
                != fams@[b].name@ by {
                assert(fams@[a].name@ == all_names[a]);
                assert(fams@[b].name@ == all_names[b]);
                if b < names.len() {
                    assert(names_distinct(names));
                } else {
                    assert(all_names[b] == spec_default_name());
                    assert(!names_contain(names, spec_default_name()));
                }
            }
        }
        Ok(DB { path: path.to_owned(), cfs: fams })
    }

    /// Lists the column families of the database at `path`.
    ///
    /// The model engine keeps no state outside its open handles, so a
    /// directory holds exactly the family every database is born with.
    pub fn list_cf(opts: &Options, path: &str) -> (r: Result<Vec<String>, Error>)
        ensures
            r is Err <==> has_nul(path.spec_bytes()),
            r matches Err(e) ==> e == Error::PathEncodingError,
            r matches Ok(v) ==> v@.len() == 1 && v@[0]@ == spec_default_name(),
    {
        let _ = opts;
        if contains_nul(path.as_bytes()) {
            return Err(Error::PathEncodingError);
        }
        let mut v: Vec<String> = Vec::new();
        v.push(default_family_name().to_owned());
        Ok(v)
    }

    /// Destroys the database at `path`.
    ///
    /// The model engine keeps no state outside its open handles, so only the
    /// path itself can be refused.
    pub fn destroy(opts: &Options, path: &str) -> (r: Result<(), Error>)
        ensures
            r is Err <==> has_nul(path.spec_bytes()),
            r matches Err(e) ==> e == Error::PathEncodingError,
    {
        let _ = opts;
        if contains_nul(path.as_bytes()) {
            return Err(Error::PathEncodingError);
        }
        Ok(())
    }

    /// Repairs the database at `path`.
    ///
    /// The model engine keeps no state outside its open handles, so only the
    /// path itself can be refused.
    pub fn repair(opts: Options, path: &str) -> (r: Result<(), Error>)
        ensures
            r is Err <==> has_nul(path.spec_bytes()),
            r matches Err(e) ==> e == Error::PathEncodingError,
    {
        let _ = opts;
        if contains_nul(path.as_bytes()) {
            return Err(Error::PathEncodingError);
        }
        Ok(())
    }

    /// The path this database was opened at.
    pub fn path(&self) -> (r: &str)
        ensures
            r@ == self.path_view(),
    {
        self.path.as_str()
    }

    /// Reads `key` under the given read options. Absence of the key is a
    /// valid empty result, never an error.
    pub fn get_opt(&self, key: &[u8], readopts: &ReadOptions) -> (r: Result<
        Option<DBVector>,
        Error,
    >)
        requires
            self.wf(),
            readopts.wf(),
        ensures
            r is Ok,
            r->Ok_0 is Some <==> default_map_of(self.read_families(readopts)).dom().contains(key@),
            r->Ok_0 is Some ==> r->Ok_0.unwrap()@ == default_map_of(self.read_families(readopts))[key@],
    {
        let got: Option<Vec<u8>> = match readopts.snapshot_families_ref() {
            Some(f) => {
                let di = locate_default(f);
                proof {
                    lemma_default_index(f@);
                }
                read_at(f, di, key)
            },
            None => {
                let di = locate_default(&self.cfs);
                proof {
                    lemma_default_index(self.cfs@);
                }
                read_at(&self.cfs, di, key)
            },
        };
        match got {
            Some(v) => Ok(Some(DBVector::from_vec(v))),
            None => Ok(None),
        }
    }

    /// Reads `key` from the default family's current state.
    pub fn get(&self, key: &[u8]) -> (r: Result<Option<DBVector>, Error>)
        requires
            self.wf(),
        ensures
            r is Ok,
            r->Ok_0 is Some <==> self.default_map().dom().contains(key@),
            r->Ok_0 is Some ==> r->Ok_0.unwrap()@ == self.default_map()[key@],
    {
        self.get_opt(key, &ReadOptions::default())
    }

    /// Reads `key` in the given column family under the given read options.
    pub fn get_cf_opt(&self, cf: ColumnFamily, key: &[u8], readopts: &ReadOptions) -> (r: Result<
        Option<DBVector>,
        Error,
    >)
        requires
            self.wf(),
            readopts.wf(),
        ensures
            r is Err <==> !cf_valid_in(self.read_families(readopts), cf),
            r matches Err(e) ==> e == Error::InvalidColumnFamily,
            r is Ok ==> (r->Ok_0 is Some <==> family_map_of(
                self.read_families(readopts),
                cf.index as int,
            ).dom().contains(key@)),
            r is Ok && r->Ok_0 is Some ==> r->Ok_0.unwrap()@ == family_map_of(
                self.read_families(readopts),
                cf.index as int,
            )[key@],
    {
        let got: Option<Vec<u8>> = match readopts.snapshot_families_ref() {
            Some(f) => {
                if !(cf.index < f.len() && f[cf.index].alive) {
                    return Err(Error::InvalidColumnFamily);
                }
                read_at(f, cf.index, key)
            },
            None => {
                if !(cf.index < self.cfs.len() && self.cfs[cf.index].alive) {
                    return Err(Error::InvalidColumnFamily);
                }
                read_at(&self.cfs, cf.index, key)
            },
        };
        match got {
            Some(v) => Ok(Some(DBVector::from_vec(v))),
            None => Ok(None),
        }
    }

    /// Reads `key` in the given column family's current state.
    pub fn get_cf(&self, cf: ColumnFamily, key: &[u8]) -> (r: Result<Option<DBVector>, Error>)
        requires
            self.wf(),
        ensures
            r is Err <==> !self.cf_valid(cf),
            r matches Err(e) ==> e == Error::InvalidColumnFamily,
            r is Ok ==> (r->Ok_0 is Some <==> self.family_map(cf.index as int).dom().contains(
                key@,
            )),
            r is Ok && r->Ok_0 is Some ==> r->Ok_0.unwrap()@ == self.family_map(cf.index as int)[key@],
    {
        self.get_cf_opt(cf, key, &ReadOptions::default())
    }

    /// Creates a new column family.
    pub fn create_cf(&mut self, name: &str, opts: &Options) -> (r: Result<ColumnFamily, Error>)
        requires
            old(self).wf(),
        ensures
            final(self).wf(),
            final(self).path_view() == old(self).path_view(),
            r is Ok <==> !has_nul(name.spec_bytes()) && !name_live_in(
                old(self).families(),
                name@,
            ),
            has_nul(name.spec_bytes()) ==> (r matches Err(e) && e == Error::PathEncodingError),
            !has_nul(name.spec_bytes()) && name_live_in(old(self).families(), name@)
                ==> (r matches Err(e) && e == Error::InvalidArgument),
            r is Err ==> final(self).families() == old(self).families(),
            r matches Ok(cf) ==> {
                &&& cf.index == old(self).families().len()
                &&& final(self).families().len() == old(self).families().len() + 1
                &&& forall|i: int|
                    0 <= i < old(self).families().len() ==> final(self).families()[i] == old(
                        self,
                    ).families()[i]
                &&& final(self).families().last().name@ == name@
                &&& final(self).families().last().alive
                &&& final(self).families().last().space@ == Seq::<(Seq<u8>, Seq<u8>)>::empty()
            },
    {
        let _ = opts;
        if contains_nul(name.as_bytes()) {
            return Err(Error::PathEncodingError);
        }
        match find_family(&self.cfs, name) {
            Some(_) => Err(Error::InvalidArgument),
            None => {
                let idx = self.cfs.len();
                let rec = FamilyRecord { name: name.to_owned(), alive: true, space: KeySpace::new() };
                self.cfs.push(rec);
                proof {
                    let a = old(self).families();
                    let b = self.families();
                    assert(crate::registry::default_exists(b)) by {
                        lemma_default_index(a);
                        let d = default_index(a);
                        assert(b[d].alive && b[d].name@ == spec_default_name());
                    }
                    assert forall|x: int, y: int|
                        0 <= x < y < b.len() && b[x].alive && b[y].alive implies b[x].name@
                        != b[y].name@ by {
                        if y < a.len() {
                        } else {
                            assert(b[y].name@ == name@);
                            assert(!(a[x].alive && a[x].name@ == name@));
                        }
                    }
                }
                Ok(ColumnFamily { index: idx })
            },
        }
    }

    /// Drops the named column family, invalidating its handles. Dropping an
    /// unknown name is an error, and the default family cannot be dropped.
    pub fn drop_cf(&mut self, name: &str) -> (r: Result<(), Error>)
        requires
            old(self).wf(),
        ensures
            final(self).wf(),
            final(self).path_view() == old(self).path_view(),
            !name_live_in(old(self).families(), name@) ==> (r matches Err(e) && e
                == Error::InvalidColumnFamily),
            name_live_in(old(self).families(), name@) && name@ == spec_default_name()
                ==> (r matches Err(e) && e == Error::InvalidArgument),
            r is Err ==> final(self).families() == old(self).families(),
            r is Ok <==> name_live_in(old(self).families(), name@) && name@
                != spec_default_name(),
            r is Ok ==> {
                let t = live_index(old(self).families(), name@);
                &&& final(self).families().len() == old(self).families().len()
                &&& forall|i: int|
                    0 <= i < old(self).families().len() && i != t ==> final(self).families()[i]
                        == old(self).families()[i]
                &&& final(self).families()[t].name@ == name@
                &&& !final(self).families()[t].alive
                &&& final(self).families()[t].space@ == old(self).families()[t].space@
            },
    {
        match find_family(&self.cfs, name) {
            None => Err(Error::InvalidColumnFamily),
            Some(i) => {
                if crate::registry::text_eq(name, default_family_name()) {
                    return Err(Error::InvalidArgument);
                }
                proof {
                    lemma_live_index(old(self).families(), name@);
                    assert(i as int == live_index(old(self).families(), name@));
                }
                self.cfs[i].alive = false;
                proof {
                    let a = old(self).families();
                    let b = self.families();
                    assert(crate::registry::default_exists(b)) by {
                        lemma_default_index(a);
                        let d = default_index(a);
                        assert(a[d].name@ != name@);
                        assert(d != i as int);
                        assert(b[d].alive && b[d].name@ == spec_default_name());
                    }
                    assert forall|x: int, y: int|
                        0 <= x < y < b.len() && b[x].alive && b[y].alive implies b[x].name@
                        != b[y].name@ by {
                        assert(x != i as int && y != i as int);
                        assert(b[x] == a[x] && b[y] == a[y]);
                    }
                    assert forall|x: int| 0 <= x < b.len() implies (#[trigger] b[x]).space.wf() by {
                        if x != i as int {
                            assert(b[x] == a[x]);
                        } else {
                            assert(b[x].space == a[x].space);
                        }
                    }
                }
                Ok(())
            },
        }
    }

    /// The handle of the named live column family.
    pub fn cf_handle(&self, name: &str) -> (r: Option<ColumnFamily>)
        requires
            self.wf(),
        ensures
            r is Some <==> name_live_in(self.families(), name@),
            r matches Some(cf) ==> cf.index == live_index(self.families(), name@)
                && self.cf_valid(cf),
    {
        match find_family(&self.cfs, name) {
            Some(i) => {
                proof {
                    lemma_live_index(self.families(), name@);
                }
                Some(ColumnFamily { index: i })
            },
            None => None,
        }
    }

    /// Stores `value` under `key` in the default family.
    pub fn put_opt(&mut self, key: &[u8], value: &[u8], writeopts: &WriteOptions) -> (r: Result<
        (),
        Error,
    >)
        requires
            old(self).wf(),
        ensures
            r is Ok,
            final(self).wf(),
            final(self).path_view() == old(self).path_view(),
            final(self).default_map() == old(self).default_map().insert(key@, value@),
            updated_at(
                old(self).families(),
                final(self).families(),
                default_index(old(self).families()),
                old(self).default_map().insert(key@, value@),
            ),
    {
        let _ = writeopts;
        let di = locate_default(&self.cfs);
        proof {
            lemma_default_index(self.cfs@);
        }
        put_at(&mut self.cfs, di, key, value);
        Ok(())
    }

    /// Stores `value` under `key` in the given column family.
    pub fn put_cf_opt(
        &mut self,
        cf: ColumnFamily,
        key: &[u8],
        value: &[u8],
        writeopts: &WriteOptions,
    ) -> (r: Result<(), Error>)
        requires
            old(self).wf(),
        ensures
            final(self).wf(),
            final(self).path_view() == old(self).path_view(),
            r is Ok <==> old(self).cf_valid(cf),
            r matches Err(e) ==> e == Error::InvalidColumnFamily && final(self).families() == old(
                self,
            ).families(),
            r is Ok ==> updated_at(
                old(self).families(),
                final(self).families(),
                cf.index as int,
                old(self).family_map(cf.index as int).insert(key@, value@),
            ),
    {
        let _ = writeopts;
        if !(cf.index < self.cfs.len() && self.cfs[cf.index].alive) {
            return Err(Error::InvalidColumnFamily);
        }
        put_at(&mut self.cfs, cf.index, key, value);
        Ok(())
    }

    /// Merges `value` into the record under `key` in the default family.
    pub fn merge_opt(&mut self, key: &[u8], value: &[u8], writeopts: &WriteOptions) -> (r: Result<
        (),
        Error,
    >)
        requires
            old(self).wf(),
        ensures
            r is Ok,
            final(self).wf(),
            final(self).path_view() == old(self).path_view(),
            final(self).default_map() == old(self).default_map().insert(
                key@,
                merged_value(old(self).default_map(), key@, value@),
            ),
            updated_at(
                old(self).families(),
                final(self).families(),
                default_index(old(self).families()),
                old(self).default_map().insert(
                    key@,
                    merged_value(old(self).default_map(), key@, value@),
                ),
            ),
    {
        let _ = writeopts;
        let di = locate_default(&self.cfs);
        proof {
            lemma_default_index(self.cfs@);
        }
        merge_at(&mut self.cfs, di, key, value);
        Ok(())
    }

    /// Merges `value` into the record under `key` in the given column family.
    pub fn merge_cf_opt(
        &mut self,
        cf: ColumnFamily,
        key: &[u8],
        value: &[u8],
        writeopts: &WriteOptions,
    ) -> (r: Result<(), Error>)
        requires
            old(self).wf(),
        ensures
            final(self).wf(),
            final(self).path_view() == old(self).path_view(),
            r is Ok <==> old(self).cf_valid(cf),
            r matches Err(e) ==> e == Error::InvalidColumnFamily && final(self).families() == old(
                self,
            ).families(),
            r is Ok ==> updated_at(
                old(self).families(),
                final(self).families(),
                cf.index as int,
                old(self).family_map(cf.index as int).insert(
                    key@,
                    merged_value(old(self).family_map(cf.index as int), key@, value@),
                ),
            ),
    {
        let _ = writeopts;
        if !(cf.index < self.cfs.len() && self.cfs[cf.index].alive) {
            return Err(Error::InvalidColumnFamily);
        }
        merge_at(&mut self.cfs, cf.index, key, value);
        Ok(())
    }

    /// Removes the record under `key` from the default family.
    pub fn delete_opt(&mut self, key: &[u8], writeopts: &WriteOptions) -> (r: Result<(), Error>)
        requires
            old(self).wf(),
        ensures
            r is Ok,
            final(self).wf(),
            final(self).path_view() == old(self).path_view(),
            final(self).default_map() == old(self).default_map().remove(key@),
            updated_at(
                old(self).families(),
                final(self).families(),
                default_index(old(self).families()),
                old(self).default_map().remove(key@),
            ),
    {
        let _ = writeopts;
        let di = locate_default(&self.cfs);
        proof {
            lemma_default_index(self.cfs@);
        }
        delete_at(&mut self.cfs, di, key);
        Ok(())
    }

    /// Removes the record under `key` from the given column family.
    pub fn delete_cf_opt(&mut self, cf: ColumnFamily, key: &[u8], writeopts: &WriteOptions) -> (r:
        Result<(), Error>)
        requires
            old(self).wf(),
        ensures
            final(self).wf(),
            final(self).path_view() == old(self).path_view(),
            r is Ok <==> old(self).cf_valid(cf),
            r matches Err(e) ==> e == Error::InvalidColumnFamily && final(self).families() == old(
                self,
            ).families(),
            r is Ok ==> updated_at(
                old(self).families(),
                final(self).families(),
                cf.index as int,
                old(self).family_map(cf.index as int).remove(key@),
            ),
    {
        let _ = writeopts;
        if !(cf.index < self.cfs.len() && self.cfs[cf.index].alive) {
            return Err(Error::InvalidColumnFamily);
        }
        delete_at(&mut self.cfs, cf.index, key);
        Ok(())
    }

    /// Stores `value` under `key` in the default family.
    pub fn put(&mut self, key: &[u8], value: &[u8]) -> (r: Result<(), Error>)
        requires
            old(self).wf(),
        ensures
            r is Ok,
            final(self).wf(),
            final(self).path_view() == old(self).path_view(),
            final(self).default_map() == old(self).default_map().insert(key@, value@),
            updated_at(
                old(self).families(),
                final(self).families(),
                default_index(old(self).families()),
                old(self).default_map().insert(key@, value@),
            ),
    {
        self.put_opt(key, value, &WriteOptions::default())
    }

    /// Stores `value` under `key` in the given column family.
    pub fn put_cf(&mut self, cf: ColumnFamily, key: &[u8], value: &[u8]) -> (r: Result<(), Error>)
        requires
            old(self).wf(),
        ensures
            final(self).wf(),
            final(self).path_view() == old(self).path_view(),
            r is Ok <==> old(self).cf_valid(cf),
            r matches Err(e) ==> e == Error::InvalidColumnFamily && final(self).families() == old(
                self,
            ).families(),
            r is Ok ==> updated_at(
                old(self).families(),
                final(self).families(),
                cf.index as int,
                old(self).family_map(cf.index as int).insert(key@, value@),
            ),
    {
        self.put_cf_opt(cf, key, value, &WriteOptions::default())
    }

    /// Merges `value` into the record under `key` in the default family.
    pub fn merge(&mut self, key: &[u8], value: &[u8]) -> (r: Result<(), Error>)
        requires
            old(self).wf(),
        ensures
            r is Ok,
            final(self).wf(),
            final(self).path_view() == old(self).path_view(),
            final(self).default_map() == old(self).default_map().insert(
                key@,
                merged_value(old(self).default_map(), key@, value@),
            ),
    {
        self.merge_opt(key, value, &WriteOptions::default())
    }

    /// Merges `value` into the record under `key` in the given column family.
    pub fn merge_cf(&mut self, cf: ColumnFamily, key: &[u8], value: &[u8]) -> (r: Result<
        (),
        Error,
    >)
        requires
            old(self).wf(),
        ensures
            final(self).wf(),
            final(self).path_view() == old(self).path_view(),
            r is Ok <==> old(self).cf_valid(cf),
            r matches Err(e) ==> e == Error::InvalidColumnFamily && final(self).families() == old(
                self,
            ).families(),
            r is Ok ==> updated_at(
                old(self).families(),
                final(self).families(),
                cf.index as int,
                old(self).family_map(cf.index as int).insert(
                    key@,
                    merged_value(old(self).family_map(cf.index as int), key@, value@),
                ),
            ),
    {
        self.merge_cf_opt(cf, key, value, &WriteOptions::default())
    }

    /// Removes the record under `key` from the default family.
    pub fn delete(&mut self, key: &[u8]) -> (r: Result<(), Error>)
        requires
            old(self).wf(),
        ensures
            r is Ok,
            final(self).wf(),
            final(self).path_view() == old(self).path_view(),
            final(self).default_map() == old(self).default_map().remove(key@),
            updated_at(
                old(self).families(),
                final(self).families(),
                default_index(old(self).families()),
                old(self).default_map().remove(key@),
            ),
    {
        self.delete_opt(key, &WriteOptions::default())
    }

    /// Removes the record under `key` from the given column family.
    pub fn delete_cf(&mut self, cf: ColumnFamily, key: &[u8]) -> (r: Result<(), Error>)
        requires
            old(self).wf(),
        ensures
            final(self).wf(),
            final(self).path_view() == old(self).path_view(),
            r is Ok <==> old(self).cf_valid(cf),
            r matches Err(e) ==> e == Error::InvalidColumnFamily && final(self).families() == old(
                self,
            ).families(),
            r is Ok ==> updated_at(
                old(self).families(),
                final(self).families(),
                cf.index as int,
                old(self).family_map(cf.index as int).remove(key@),
            ),
    {
        self.delete_cf_opt(cf, key, &WriteOptions::default())
    }

    /// Captures the current state as a snapshot: every later read through it
    /// observes exactly this state, regardless of later writes.
    pub fn snapshot(&self) -> (r: Snapshot)
        requires
            self.wf(),
        ensures
            r.wf(),
            r.default_map() == self.default_map(),
            forall|i: int| 0 <= i < self.families().len() ==> r.family_map(i) == self.family_map(
                i,
            ),
    {
        Snapshot::new(self)
    }

    /// An iterator over the default family's current state, started per
    /// `mode`: unconstrained, it ranges over exactly the family's records.
    pub fn iterator(&self, mode: IteratorMode) -> (r: DBIterator)
        requires
            self.wf(),
        ensures
            r.wf(),
            r.entries() == self.families()[default_index(self.families())].space@,
            mode is Start ==> r.stream() == r.entries(),
            mode is End ==> r.stream() == r.entries().reverse(),
            mode matches IteratorMode::From(k, d) ==> {
                &&& (d is Forward ==> r.stream() == r.entries().skip(
                    crate::keyspace::lb(r.entries(), k@),
                ))
                &&& (d is Reverse ==> r.stream() == r.entries().take(
                    crate::keyspace::ub(r.entries(), k@),
                ).reverse())
            },
    {
        let opts = ReadOptions::default();
        let it = DBIterator::from_families(&self.cfs, &opts, mode);
        proof {
            lemma_default_index(self.families());
            crate::keyspace::lemma_filter_unconstrained(
                self.families()[default_index(self.families())].space@,
            );
        }
        it
    }

    /// An iterator in total-order traversal, needed to cross prefixes when
    /// the engine's memtable is hash-partitioned. The model always traverses
    /// in total order, so it behaves as `iterator`.
    pub fn full_iterator(&self, mode: IteratorMode) -> (r: DBIterator)
        requires
            self.wf(),
        ensures
            r.wf(),
            r.entries() == cursor_entries(
                self.families(),
                default_index(self.families()),
                None::<Seq<u8>>,
                None,
            ),
            mode is Start ==> r.stream() == r.entries(),
            mode is End ==> r.stream() == r.entries().reverse(),
            mode matches IteratorMode::From(k, d) ==> {
                &&& (d is Forward ==> r.stream() == r.entries().skip(
                    crate::keyspace::lb(r.entries(), k@),
                ))
                &&& (d is Reverse ==> r.stream() == r.entries().take(
                    crate::keyspace::ub(r.entries(), k@),
                ).reverse())
            },
    {
        let mut opts = ReadOptions::default();
        opts.set_total_order_seek(true);
        DBIterator::from_families(&self.cfs, &opts, mode)
    }

    /// A forward iterator constrained to the keys sharing `prefix`: it scans
    /// exactly the default family's records that carry the prefix, from the
    /// first on.
    pub fn prefix_iterator(&self, prefix: &[u8]) -> (r: DBIterator)
        requires
            self.wf(),
        ensures
            r.wf(),
            r.entries() == cursor_entries(
                self.families(),
                default_index(self.families()),
                Some(prefix@),
                None,
            ),
            r.stream() == r.entries(),
    {
        let mut opts = ReadOptions::default();
        opts.set_prefix_same_as_start(true);
        let it = DBIterator::from_families(&self.cfs, &opts, IteratorMode::From(
            prefix,
            Direction::Forward,
        ));
        proof {
            let es = it.entries();
            if es.len() > 0 {
                lemma_default_index(self.families());
                Seq::lemma_filter_pred(
                    self.families()[default_index(self.families())].space@,
                    crate::keyspace::within_pred(Some(prefix@), None),
                    0,
                );
                crate::keyspace::lemma_is_prefix_le(prefix@, es[0].0);
                crate::order::lemma_lex_trichotomy(es[0].0, prefix@);
            }
            assert(crate::keyspace::lb(es, prefix@) == 0);
            assert(es.skip(0) =~= es);
        }
        it
    }

    /// An iterator over the given family's current state, started per `mode`.
    pub fn iterator_cf(&self, cf_handle: ColumnFamily, mode: IteratorMode) -> (r: Result<
        DBIterator,
        Error,
    >)
        requires
            self.wf(),
        ensures
            r is Err <==> !self.cf_valid(cf_handle),
            r matches Err(e) ==> e == Error::InvalidColumnFamily,
            r matches Ok(it) ==> {
                &&& it.wf()
                &&& it.entries() == cursor_entries(
                    self.families(),
                    cf_handle.index as int,
                    None::<Seq<u8>>,
                    None,
                )
                &&& (mode is Start ==> it.stream() == it.entries())
                &&& (mode is End ==> it.stream() == it.entries().reverse())
            },
    {
        let opts = ReadOptions::default();
        DBIterator::from_families_cf(&self.cfs, cf_handle, &opts, mode)
    }

    /// A total-order iterator over the given family; the model always
    /// traverses in total order, so it behaves as `iterator_cf`.
    pub fn full_iterator_cf(&self, cf_handle: ColumnFamily, mode: IteratorMode) -> (r: Result<
        DBIterator,
        Error,
    >)
        requires
            self.wf(),
        ensures
            r is Err <==> !self.cf_valid(cf_handle),
            r matches Err(e) ==> e == Error::InvalidColumnFamily,
            r matches Ok(it) ==> {
                &&& it.wf()
                &&& it.entries() == cursor_entries(
                    self.families(),
                    cf_handle.index as int,
                    None::<Seq<u8>>,
                    None,
                )
                &&& (mode is Start ==> it.stream() == it.entries())
                &&& (mode is End ==> it.stream() == it.entries().reverse())
            },
    {
        let mut opts = ReadOptions::default();
        opts.set_total_order_seek(true);
        DBIterator::from_families_cf(&self.cfs, cf_handle, &opts, mode)
    }

    /// A forward iterator over the given family, constrained to the keys
    /// sharing `prefix`.
    pub fn prefix_iterator_cf(&self, cf_handle: ColumnFamily, prefix: &[u8]) -> (r: Result<
        DBIterator,
        Error,
    >)
        requires
            self.wf(),
        ensures
            r is Err <==> !self.cf_valid(cf_handle),
            r matches Err(e) ==> e == Error::InvalidColumnFamily,
            r matches Ok(it) ==> {
                &&& it.wf()
                &&& it.entries() == cursor_entries(
                    self.families(),
                    cf_handle.index as int,
                    Some(prefix@),
                    None,
                )
                &&& it.stream() == it.entries()
            },
    {
        let mut opts = ReadOptions::default();
        opts.set_prefix_same_as_start(true);
        let r = DBIterator::from_families_cf(&self.cfs, cf_handle, &opts, IteratorMode::From(
            prefix,
            Direction::Forward,
        ));
        proof {
            if r is Ok {
                let it = r->Ok_0;
                let es = it.entries();
                if es.len() > 0 {
                    Seq::lemma_filter_pred(
                        self.families()[cf_handle.index as int].space@,
                        crate::keyspace::within_pred(Some(prefix@), None),
                        0,
                    );
                    crate::keyspace::lemma_is_prefix_le(prefix@, es[0].0);
                    crate::order::lemma_lex_trichotomy(es[0].0, prefix@);
                }
                assert(crate::keyspace::lb(es, prefix@) == 0);
                assert(es.skip(0) =~= es);
            }
        }
        r
    }

    /// A raw cursor over the default family's current state, born `Invalid`.
    pub fn raw_iterator(&self) -> (r: DBRawIterator)
        requires
            self.wf(),
        ensures
            r.wf(),
            !r.is_positioned(),
            r.entries() == cursor_entries(
                self.families(),
                default_index(self.families()),
                None,
                None,
            ),
    {
        let opts = ReadOptions::default();
        DBRawIterator::new(self, &opts)
    }

    /// A raw cursor over the given family's current state, born `Invalid`.
    pub fn raw_iterator_cf(&self, cf_handle: ColumnFamily) -> (r: Result<DBRawIterator, Error>)
        requires
            self.wf(),
        ensures
            r is Err <==> !self.cf_valid(cf_handle),
            r matches Err(e) ==> e == Error::InvalidColumnFamily,
            r matches Ok(c) ==> c.wf() && !c.is_positioned() && c.entries() == cursor_entries(
                self.families(),
                cf_handle.index as int,
                None,
                None,
            ),
    {
        let opts = ReadOptions::default();
        DBRawIterator::new_cf(self, cf_handle, &opts)
    }

    /// Commits a batch: every staged operation is applied, in order, as one
    /// atomic unit, or none is. The batch is consumed. The commit is refused
    /// when a staged operation names a dropped or unknown family.
    pub fn write_opt(&mut self, batch: WriteBatch, writeopts: &WriteOptions) -> (r: Result<
        (),
        Error,
    >)
        requires
            old(self).wf(),
        ensures
            final(self).wf(),
            final(self).path_view() == old(self).path_view(),
            r is Ok <==> batch_ok(old(self).families(), batch@),
            r matches Err(e) ==> e == Error::InvalidColumnFamily && final(self).families() == old(
                self,
            ).families(),
            r is Ok ==> family_maps(final(self).families()) == apply_batch(
                family_maps(old(self).families()),
                default_index(old(self).families()),
                batch@,
            ),
            r is Ok ==> same_shape(old(self).families(), final(self).families()),
    {
        let _ = writeopts;
        if !crate::write_batch::ops_all_valid(&self.cfs, &batch) {
            return Err(Error::InvalidColumnFamily);
        }
        crate::write_batch::apply_ops_to(&mut self.cfs, &batch);
        Ok(())
    }

    /// Commits a batch with default write options.
    pub fn write(&mut self, batch: WriteBatch) -> (r: Result<(), Error>)
        requires
            old(self).wf(),
        ensures
            final(self).wf(),
            final(self).path_view() == old(self).path_view(),
            r is Ok <==> batch_ok(old(self).families(), batch@),
            r matches Err(e) ==> e == Error::InvalidColumnFamily && final(self).families() == old(
                self,
            ).families(),
            r is Ok ==> family_maps(final(self).families()) == apply_batch(
                family_maps(old(self).families()),
                default_index(old(self).families()),
                batch@,
            ),
            r is Ok ==> same_shape(old(self).families(), final(self).families()),
    {
        self.write_opt(batch, &WriteOptions::default())
    }

    /// Commits a batch without the write-ahead log: durability is traded for
    /// throughput, atomicity is kept.
    pub fn write_without_wal(&mut self, batch: WriteBatch) -> (r: Result<(), Error>)
        requires
            old(self).wf(),
        ensures
            final(self).wf(),
            final(self).path_view() == old(self).path_view(),
            r is Ok <==> batch_ok(old(self).families(), batch@),
            r matches Err(e) ==> e == Error::InvalidColumnFamily && final(self).families() == old(
                self,
            ).families(),
            r is Ok ==> family_maps(final(self).families()) == apply_batch(
                family_maps(old(self).families()),
                default_index(old(self).families()),
                batch@,
            ),
            r is Ok ==> same_shape(old(self).families(), final(self).families()),
    {
        let mut wo = WriteOptions::new();
        wo.disable_wal(true);
        self.write_opt(batch, &wo)
    }

    /// Requests engine-side reorganisation of the key range; fire-and-forget,
    /// no status is returned.
    pub fn compact_range(&self, start: Option<&[u8]>, end: Option<&[u8]>) {
        let _ = start;
        let _ = end;
    }

    /// Requests engine-side reorganisation of a key range of one column
    /// family; fire-and-forget, no status is returned.
    pub fn compact_range_cf(&self, cf: ColumnFamily, start: Option<&[u8]>, end: Option<&[u8]>) {
        let _ = cf;
        let _ = start;
        let _ = end;
    }
}

} // verus!
