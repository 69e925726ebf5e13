//! Cursors and typed iterators.
//!
//! A raw cursor is a movable position over a consistent view of one family's
//! sorted records: `Invalid`, or `Positioned` at some record. Seeks place it,
//! `next`/`prev` advance it and fall to `Invalid` at the boundary, and the
//! key/value accessors are defined exactly while it is positioned (they hand
//! out copies, so the result survives any later movement).
//!
//! A typed iterator wraps a cursor with a direction and a "just repositioned"
//! flag: the first element produced after any (re)seek is the cursor's
//! current position, not an advanced one. It produces a finite sequence of
//! key/value pairs — its `stream` — that ends when the cursor falls invalid,
//! and is restartable with `set_mode`.

use vstd::prelude::*;

use crate::db::DB;
use crate::error::Error;
use crate::column_family::ColumnFamily;
use crate::keyspace::KeySpace;
use crate::keyspace::contains_key_at;
use crate::keyspace::lb;
use crate::keyspace::lemma_lb_agrees;
use crate::keyspace::lemma_lb_bounds;
use crate::keyspace::lemma_lb_finds_existing;
use crate::keyspace::lemma_ub_agrees;
use crate::keyspace::lemma_ub_bounds;
use crate::keyspace::opt_bytes_view;
use crate::keyspace::sorted_strict;
use crate::keyspace::ub;
use crate::keyspace::within_pred;
use crate::order::lex_lt;
use crate::read_options::ReadOptions;
use crate::registry::FamilyRecord;
use crate::registry::cf_valid_in;
use crate::registry::default_index;
use crate::registry::locate_default;
use crate::registry::registry_wf;

verus! {

/// One produced element: an owned key and value.
pub type KVBytes = (Vec<u8>, Vec<u8>);

/// The direction a typed iterator moves in.
#[derive(Clone, Copy, Debug, PartialEq, Eq, Structural)]
pub enum Direction {
    Forward,
    Reverse,
}

/// Where iteration starts: at the first key, at the last key, or at a seek
/// key, moving in the given direction.
#[derive(Clone, Copy)]
pub enum IteratorMode<'a> {
    Start,
    End,
    From(&'a [u8], Direction),
}

/// The records a cursor built over the family at position `i` scans: that
/// family's records, restricted to the iteration constraints.
pub open spec fn cursor_entries(
    fams: Seq<FamilyRecord>,
    i: int,
    prefix: Option<Seq<u8>>,
    upper: Option<Seq<u8>>,
) -> Seq<(Seq<u8>, Seq<u8>)> {
    fams[i].space@.filter(within_pred(prefix, upper))
}

/// The prefix constraint a mode imposes: the seek key, when the read options
/// ask for prefix-bound iteration.
pub open spec fn seek_prefix(readopts: &ReadOptions, mode: IteratorMode) -> Option<Seq<u8>> {
    if readopts.prefix_same_as_start {
        match mode {
            IteratorMode::From(k, _) => Some(k@),
            _ => None,
        }
    } else {
        None
    }
}

/// A raw cursor: a movable position over a consistent view of one family's
/// sorted records.
pub struct DBRawIterator {
    space: KeySpace,
    pos: usize,
    at: bool,
}

impl DBRawIterator {
    /// The records the cursor scans.
    pub closed spec fn entries(&self) -> Seq<(Seq<u8>, Seq<u8>)> {
        self.space@
    }

    /// The cursor is in the `Positioned` state.
    pub closed spec fn is_positioned(&self) -> bool {
        self.at
    }

    /// The position, meaningful while `Positioned`.
    pub closed spec fn position(&self) -> int {
        self.pos as int
    }

    /// The scanned records are sorted and the position is in range.
    pub open spec fn wf(&self) -> bool {
        &&& sorted_strict(self.entries())
        &&& self.is_positioned() ==> 0 <= self.position() < self.entries().len()
    }

    /// A cursor over the family at position `i`, restricted to the given
    /// constraints; born `Invalid`, before any seek.
    pub(crate) fn from_family(
        fams: &Vec<FamilyRecord>,
        i: usize,
        prefix: Option<&[u8]>,
        upper: Option<&[u8]>,
    ) -> (r: DBRawIterator)
        requires
            registry_wf(fams@),
            i < fams@.len(),
        ensures
            r.wf(),
            !r.is_positioned(),
            r.entries() == cursor_entries(
                fams@,
                i as int,
                opt_bytes_view(prefix),
                opt_bytes_view(upper),
            ),
    {
        let space = fams[i].space.restricted_copy(prefix, upper);
        DBRawIterator { space, pos: 0, at: false }
    }

    /// A cursor over the default family of the state the read options
    /// observe.
    pub fn new(db: &DB, readopts: &ReadOptions) -> (r: DBRawIterator)
        requires
            db.wf(),
            readopts.wf(),
        ensures
            r.wf(),
            !r.is_positioned(),
            r.entries() == cursor_entries(
                db.read_families(readopts),
                default_index(db.read_families(readopts)),
                None,
                readopts.upper_bound_view(),
            ),
    {
        let upper: Option<&[u8]> = match &readopts.iterate_upper_bound {
            Some(u) => Some(u.as_slice()),
            None => None,
        };
        match readopts.snapshot_families_ref() {
            Some(f) => {
                let d = locate_default(f);
                proof {
                    crate::registry::lemma_default_index(f@);
                }
                DBRawIterator::from_family(f, d, None, upper)
            },
            None => {
                let f = db.families_ref();
                let d = locate_default(f);
                proof {
                    crate::registry::lemma_default_index(f@);
                }
                DBRawIterator::from_family(f, d, None, upper)
            },
        }
    }

    /// A cursor over the given family of the state the read options observe.
    pub fn new_cf(db: &DB, cf_handle: ColumnFamily, readopts: &ReadOptions) -> (r: Result<
        DBRawIterator,
        Error,
    >)
        requires
            db.wf(),
            readopts.wf(),
        ensures
            r is Err <==> !cf_valid_in(db.read_families(readopts), cf_handle),
            r matches Err(e) ==> e == Error::InvalidColumnFamily,
            r matches Ok(c) ==> c.wf() && !c.is_positioned() && c.entries() == cursor_entries(
                db.read_families(readopts),
                cf_handle.index as int,
                None,
                readopts.upper_bound_view(),
            ),
    {
        let upper: Option<&[u8]> = match &readopts.iterate_upper_bound {
            Some(u) => Some(u.as_slice()),
            None => None,
        };
        match readopts.snapshot_families_ref() {
            Some(f) => {
                if !(cf_handle.index < f.len() && f[cf_handle.index].alive) {
                    return Err(Error::InvalidColumnFamily);
                }
                Ok(DBRawIterator::from_family(f, cf_handle.index, None, upper))
            },
            None => {
                let f = db.families_ref();
                if !(cf_handle.index < f.len() && f[cf_handle.index].alive) {
                    return Err(Error::InvalidColumnFamily);
                }
                Ok(DBRawIterator::from_family(f, cf_handle.index, None, upper))
            },
        }
    }

    /// Whether the cursor is positioned at a record.
    pub fn valid(&self) -> (r: bool)
        ensures
            r == self.is_positioned(),
    {
        self.at
    }

    /// Positions the cursor at the first record; `Invalid` when the keyspace
    /// is empty.
    pub fn seek_to_first(&mut self)
        requires
            old(self).wf(),
        ensures
            final(self).wf(),
            final(self).entries() == old(self).entries(),
            final(self).is_positioned() <==> old(self).entries().len() > 0,
            final(self).is_positioned() ==> final(self).position() == 0,
    {
        if self.space.record_count() > 0 {
            self.pos = 0;
            self.at = true;
        } else {
            self.at = false;
        }
    }

    /// Positions the cursor at the last record; `Invalid` when the keyspace
    /// is empty.
    pub fn seek_to_last(&mut self)
        requires
            old(self).wf(),
        ensures
            final(self).wf(),
            final(self).entries() == old(self).entries(),
            final(self).is_positioned() <==> old(self).entries().len() > 0,
            final(self).is_positioned() ==> final(self).position() == old(self).entries().len()
                - 1,
    {
        let n = self.space.record_count();
        if n > 0 {
            self.pos = n - 1;
            self.at = true;
        } else {
            self.at = false;
        }
    }

    /// Positions the cursor at `key`, or at the first record that follows it;
    /// `Invalid` when every key comes before `key`.
    pub fn seek(&mut self, key: &[u8])
        requires
            old(self).wf(),
        ensures
            final(self).wf(),
            final(self).entries() == old(self).entries(),
            final(self).is_positioned() <==> lb(old(self).entries(), key@) < old(
                self,
            ).entries().len(),
            final(self).is_positioned() ==> final(self).position() == lb(
                old(self).entries(),
                key@,
            ),
    {
        let i = self.space.lower_bound(key);
        proof {
            lemma_lb_agrees(self.entries(), key@, i as int);
        }
        if i < self.space.record_count() {
            self.pos = i;
            self.at = true;
        } else {
            self.at = false;
        }
    }

    /// Positions the cursor at `key`, or at the last record that precedes it;
    /// `Invalid` when every key comes after `key`.
    pub fn seek_for_prev(&mut self, key: &[u8])
        requires
            old(self).wf(),
        ensures
            final(self).wf(),
            final(self).entries() == old(self).entries(),
            final(self).is_positioned() <==> ub(old(self).entries(), key@) > 0,
            final(self).is_positioned() ==> final(self).position() == ub(
                old(self).entries(),
                key@,
            ) - 1,
    {
        let i = self.space.upper_bound(key);
        proof {
            lemma_ub_agrees(self.entries(), key@, i as int);
        }
        if i > 0 {
            self.pos = i - 1;
            self.at = true;
        } else {
            self.at = false;
        }
    }

    /// Advances to the following record, falling to `Invalid` at the end. An
    /// invalid cursor stays invalid.
    pub fn next(&mut self)
        requires
            old(self).wf(),
        ensures
            final(self).wf(),
            final(self).entries() == old(self).entries(),
            !old(self).is_positioned() ==> !final(self).is_positioned(),
            old(self).is_positioned() ==> {
                if old(self).position() + 1 < old(self).entries().len() {
                    final(self).is_positioned() && final(self).position() == old(self).position()
                        + 1
                } else {
                    !final(self).is_positioned()
                }
            },
    {
        if self.at {
            let n = self.space.record_count();
            if self.pos < n - 1 {
                self.pos = self.pos + 1;
            } else {
                self.at = false;
            }
        }
    }

    /// Moves to the preceding record, falling to `Invalid` at the start. An
    /// invalid cursor stays invalid.
    pub fn prev(&mut self)
        requires
            old(self).wf(),
        ensures
            final(self).wf(),
            final(self).entries() == old(self).entries(),
            !old(self).is_positioned() ==> !final(self).is_positioned(),
            old(self).is_positioned() ==> {
                if old(self).position() > 0 {
                    final(self).is_positioned() && final(self).position() == old(self).position()
                        - 1
                } else {
                    !final(self).is_positioned()
                }
            },
    {
        if self.at {
            if self.pos > 0 {
                self.pos = self.pos - 1;
            } else {
                self.at = false;
            }
        }
    }

    /// Borrows the cursor's buffer for the current key; defined exactly
    /// while positioned. The engine's fast accessor aliases a buffer that any
    /// movement invalidates; the cursor here owns its view, so the borrow is
    /// checked and simply ends before the next movement.
    pub fn key_inner(&self) -> (r: Option<&[u8]>)
        requires
            self.wf(),
        ensures
            r is Some <==> self.is_positioned(),
            r is Some ==> r.unwrap()@ == self.entries()[self.position()].0,
    {
        if self.at {
            Some(self.space.key_ref_at(self.pos))
        } else {
            None
        }
    }

    /// Borrows the cursor's buffer for the current value; defined exactly
    /// while positioned, and the borrow ends before the next movement.
    pub fn value_inner(&self) -> (r: Option<&[u8]>)
        requires
            self.wf(),
        ensures
            r is Some <==> self.is_positioned(),
            r is Some ==> r.unwrap()@ == self.entries()[self.position()].1,
    {
        if self.at {
            Some(self.space.value_ref_at(self.pos))
        } else {
            None
        }
    }

    /// A copy of the current record's key; defined exactly while positioned.
    pub fn key(&self) -> (r: Option<Vec<u8>>)
        requires
            self.wf(),
        ensures
            r is Some <==> self.is_positioned(),
            r is Some ==> r.unwrap()@ == self.entries()[self.position()].0,
    {
        if self.at {
            Some(self.space.key_copy_at(self.pos))
        } else {
            None
        }
    }

    /// A copy of the current record's value; defined exactly while
    /// positioned.
    pub fn value(&self) -> (r: Option<Vec<u8>>)
        requires
            self.wf(),
        ensures
            r is Some <==> self.is_positioned(),
            r is Some ==> r.unwrap()@ == self.entries()[self.position()].1,
    {
        if self.at {
            Some(self.space.value_copy_at(self.pos))
        } else {
            None
        }
    }
}

/// A direction-aware iterator over a consistent view of one family.
pub struct DBIterator {
    raw: DBRawIterator,
    direction: Direction,
    just_seeked: bool,
}

impl DBIterator {
    /// The records the iterator ranges over.
    pub closed spec fn entries(&self) -> Seq<(Seq<u8>, Seq<u8>)> {
        self.raw.entries()
    }

    /// The direction the iterator moves in.
    pub closed spec fn spec_direction(&self) -> Direction {
        self.direction
    }

    /// The sequence of records the iterator will still produce.
    pub closed spec fn stream(&self) -> Seq<(Seq<u8>, Seq<u8>)> {
        if !self.raw.is_positioned() {
            Seq::empty()
        } else {
            let p = self.raw.position();
            match self.direction {
                Direction::Forward => self.raw.entries().skip(
                    if self.just_seeked {
                        p
                    } else {
                        p + 1
                    },
                ),
                Direction::Reverse => self.raw.entries().take(
                    if self.just_seeked {
                        p + 1
                    } else {
                        p
                    },
                ).reverse(),
            }
        }
    }

    /// The underlying cursor is well-formed.
    pub closed spec fn wf(&self) -> bool {
        self.raw.wf()
    }

    /// Whether the underlying cursor is positioned at a record.
    pub fn valid(&self) -> (r: bool)
        ensures
            r == self.is_valid(),
    {
        self.raw.valid()
    }

    /// The underlying cursor is positioned.
    pub closed spec fn is_valid(&self) -> bool {
        self.raw.is_positioned()
    }

    /// An iterator over a ready cursor, before any seek: it produces nothing
    /// until `set_mode` starts it.
    pub(crate) fn from_cursor(raw: DBRawIterator) -> (r: DBIterator)
        requires
            raw.wf(),
            !raw.is_positioned(),
        ensures
            r.wf(),
            r.entries() == raw.entries(),
            r.stream() == Seq::<(Seq<u8>, Seq<u8>)>::empty(),
    {
        DBIterator { raw, direction: Direction::Forward, just_seeked: false }
    }

    /// An iterator over the default family of the given registry, started
    /// per `mode`.
    pub(crate) fn from_families(
        fams: &Vec<FamilyRecord>,
        readopts: &ReadOptions,
        mode: IteratorMode,
    ) -> (r: DBIterator)
        requires
            registry_wf(fams@),
        ensures
            r.wf(),
            r.entries() == cursor_entries(
                fams@,
                default_index(fams@),
                seek_prefix(readopts, mode),
                readopts.upper_bound_view(),
            ),
            mode is Start ==> r.stream() == r.entries(),
            mode is End ==> r.stream() == r.entries().reverse(),
            mode matches IteratorMode::From(k, d) ==> {
                &&& (d is Forward ==> r.stream() == r.entries().skip(lb(r.entries(), k@)))
                &&& (d is Reverse ==> r.stream() == r.entries().take(
                    ub(r.entries(), k@),
                ).reverse())
            },
    {
        let prefix: Option<&[u8]> = if readopts.prefix_same_as_start {
            match mode {
                IteratorMode::From(k, _) => Some(k),
                _ => None,
            }
        } else {
            None
        };
        let upper: Option<&[u8]> = match &readopts.iterate_upper_bound {
            Some(u) => Some(u.as_slice()),
            None => None,
        };
        let d = locate_default(fams);
        proof {
            crate::registry::lemma_default_index(fams@);
        }
        let raw = DBRawIterator::from_family(fams, d, prefix, upper);
        let mut rv = DBIterator { raw, direction: Direction::Forward, just_seeked: false };
        rv.set_mode(mode);
        rv
    }

    /// An iterator over the family `cf` names in the given registry, started
    /// per `mode`.
    pub(crate) fn from_families_cf(
        fams: &Vec<FamilyRecord>,
        cf_handle: ColumnFamily,
        readopts: &ReadOptions,
        mode: IteratorMode,
    ) -> (r: Result<DBIterator, Error>)
        requires
            registry_wf(fams@),
        ensures
            r is Err <==> !cf_valid_in(fams@, cf_handle),
            r matches Err(e) ==> e == Error::InvalidColumnFamily,
            r matches Ok(it) ==> {
                &&& it.wf()
                &&& it.entries() == cursor_entries(
                    fams@,
                    cf_handle.index as int,
                    seek_prefix(readopts, mode),
                    readopts.upper_bound_view(),
                )
                &&& (mode is Start ==> it.stream() == it.entries())
                &&& (mode is End ==> it.stream() == it.entries().reverse())
                &&& (mode matches IteratorMode::From(k, d) ==> {
                    &&& (d is Forward ==> it.stream() == it.entries().skip(lb(it.entries(), k@)))
                    &&& (d is Reverse ==> it.stream() == it.entries().take(
                        ub(it.entries(), k@),
                    ).reverse())
                })
            },
    {
        if !(cf_handle.index < fams.len() && fams[cf_handle.index].alive) {
            return Err(Error::InvalidColumnFamily);
        }
        let prefix: Option<&[u8]> = if readopts.prefix_same_as_start {
            match mode {
                IteratorMode::From(k, _) => Some(k),
                _ => None,
            }
        } else {
            None
        };
        let upper: Option<&[u8]> = match &readopts.iterate_upper_bound {
            Some(u) => Some(u.as_slice()),
            None => None,
        };
        let raw = DBRawIterator::from_family(fams, cf_handle.index, prefix, upper);
        let mut rv = DBIterator { raw, direction: Direction::Forward, just_seeked: false };
        rv.set_mode(mode);
        Ok(rv)
    }

    /// An iterator over the default family of the state the read options
    /// observe, started per `mode`. Any prefix constraint binds here, to the
    /// mode's seek key.
    pub fn new(db: &DB, readopts: &ReadOptions, mode: IteratorMode) -> (r: DBIterator)
        requires
            db.wf(),
            readopts.wf(),
        ensures
            r.wf(),
            r.entries() == cursor_entries(
                db.read_families(readopts),
                default_index(db.read_families(readopts)),
                seek_prefix(readopts, mode),
                readopts.upper_bound_view(),
            ),
            mode is Start ==> r.stream() == r.entries(),
            mode is End ==> r.stream() == r.entries().reverse(),
            mode matches IteratorMode::From(k, d) ==> {
                &&& (d is Forward ==> r.stream() == r.entries().skip(lb(r.entries(), k@)))
                &&& (d is Reverse ==> r.stream() == r.entries().take(
                    ub(r.entries(), k@),
                ).reverse())
            },
    {
        let prefix: Option<&[u8]> = if readopts.prefix_same_as_start {
            match mode {
                IteratorMode::From(k, _) => Some(k),
                _ => None,
            }
        } else {
            None
        };
        let upper: Option<&[u8]> = match &readopts.iterate_upper_bound {
            Some(u) => Some(u.as_slice()),
            None => None,
        };
        let raw = match readopts.snapshot_families_ref() {
            Some(f) => {
                let d = locate_default(f);
                proof {
                    crate::registry::lemma_default_index(f@);
                }
                DBRawIterator::from_family(f, d, prefix, upper)
            },
            None => {
                let f = db.families_ref();
                let d = locate_default(f);
                proof {
                    crate::registry::lemma_default_index(f@);
                }
                DBRawIterator::from_family(f, d, prefix, upper)
            },
        };
        let mut rv = DBIterator { raw, direction: Direction::Forward, just_seeked: false };
        rv.set_mode(mode);
        rv
    }

    /// An iterator over the given family of the state the read options
    /// observe, started per `mode`.
    pub fn new_cf(db: &DB, cf_handle: ColumnFamily, readopts: &ReadOptions, mode: IteratorMode) -> (r:
        Result<DBIterator, Error>)
        requires
            db.wf(),
            readopts.wf(),
        ensures
            r is Err <==> !cf_valid_in(db.read_families(readopts), cf_handle),
            r matches Err(e) ==> e == Error::InvalidColumnFamily,
            r matches Ok(it) ==> {
                &&& it.wf()
                &&& it.entries() == cursor_entries(
                    db.read_families(readopts),
                    cf_handle.index as int,
                    seek_prefix(readopts, mode),
                    readopts.upper_bound_view(),
                )
                &&& (mode is Start ==> it.stream() == it.entries())
                &&& (mode is End ==> it.stream() == it.entries().reverse())
                &&& (mode matches IteratorMode::From(k, d) ==> {
                    &&& (d is Forward ==> it.stream() == it.entries().skip(lb(it.entries(), k@)))
                    &&& (d is Reverse ==> it.stream() == it.entries().take(
                        ub(it.entries(), k@),
                    ).reverse())
                })
            },
    {
        let prefix: Option<&[u8]> = if readopts.prefix_same_as_start {
            match mode {
                IteratorMode::From(k, _) => Some(k),
                _ => None,
            }
        } else {
            None
        };
        let upper: Option<&[u8]> = match &readopts.iterate_upper_bound {
            Some(u) => Some(u.as_slice()),
            None => None,
        };
        let raw = match readopts.snapshot_families_ref() {
            Some(f) => {
                if !(cf_handle.index < f.len() && f[cf_handle.index].alive) {
                    return Err(Error::InvalidColumnFamily);
                }
                DBRawIterator::from_family(f, cf_handle.index, prefix, upper)
            },
            None => {
                let f = db.families_ref();
                if !(cf_handle.index < f.len() && f[cf_handle.index].alive) {
                    return Err(Error::InvalidColumnFamily);
                }
                DBRawIterator::from_family(f, cf_handle.index, prefix, upper)
            },
        };
        let mut rv = DBIterator { raw, direction: Direction::Forward, just_seeked: false };
        rv.set_mode(mode);
        Ok(rv)
    }

    /// Restarts the iterator per `mode`: seeks the cursor and resets the
    /// stream. The first element produced afterwards is the sought position
    /// itself.
    pub fn set_mode(&mut self, mode: IteratorMode)
        requires
            old(self).wf(),
        ensures
            final(self).wf(),
            final(self).entries() == old(self).entries(),
            mode is Start ==> final(self).stream() == final(self).entries(),
            mode is End ==> final(self).stream() == final(self).entries().reverse(),
            mode matches IteratorMode::From(k, d) ==> {
                &&& (d is Forward ==> final(self).stream() == final(self).entries().skip(
                    lb(final(self).entries(), k@),
                ))
                &&& (d is Reverse ==> final(self).stream() == final(self).entries().take(
                    ub(final(self).entries(), k@),
                ).reverse())
            },
    {
        match mode {
            IteratorMode::Start => {
                self.raw.seek_to_first();
                self.direction = Direction::Forward;
                proof {
                    if self.raw.is_positioned() {
                        assert(self.raw.entries().skip(0) =~= self.raw.entries());
                    }
                }
            },
            IteratorMode::End => {
                self.raw.seek_to_last();
                self.direction = Direction::Reverse;
                proof {
                    if self.raw.is_positioned() {
                        assert(self.raw.entries().take(self.raw.entries().len() as int)
                            =~= self.raw.entries());
                    } else {
                        assert(self.raw.entries().len() == 0);
                        assert(self.raw.entries().reverse() =~= Seq::<(Seq<u8>, Seq<u8>)>::empty());
                    }
                }
            },
            IteratorMode::From(key, Direction::Forward) => {
                self.raw.seek(key);
                self.direction = Direction::Forward;
                proof {
                    lemma_lb_bounds(self.raw.entries(), key@);
                    if !self.raw.is_positioned() {
                        assert(lb(self.raw.entries(), key@) == self.raw.entries().len());
                        assert(self.raw.entries().skip(lb(self.raw.entries(), key@)) =~= Seq::<
                            (Seq<u8>, Seq<u8>),
                        >::empty());
                    }
                }
            },
            IteratorMode::From(key, Direction::Reverse) => {
                self.raw.seek_for_prev(key);
                self.direction = Direction::Reverse;
                proof {
                    lemma_ub_bounds(self.raw.entries(), key@);
                    if !self.raw.is_positioned() {
                        assert(ub(self.raw.entries(), key@) == 0);
                        assert(self.raw.entries().take(0).reverse() =~= Seq::<
                            (Seq<u8>, Seq<u8>),
                        >::empty());
                    }
                }
            },
        }
        self.just_seeked = true;
    }

    /// Produces the next element of the stream, or nothing once the cursor
    /// has fallen invalid.
    pub fn next(&mut self) -> (r: Option<KVBytes>)
        requires
            old(self).wf(),
        ensures
            final(self).wf(),
            final(self).entries() == old(self).entries(),
            final(self).spec_direction() == old(self).spec_direction(),
            old(self).stream().len() == 0 ==> r is None && final(self).stream()
                == Seq::<(Seq<u8>, Seq<u8>)>::empty(),
            old(self).stream().len() > 0 ==> (r matches Some(kv) && (kv.0@, kv.1@) == old(
                self,
            ).stream()[0] && final(self).stream() == old(self).stream().drop_first()),
    {
        if !self.just_seeked {
            match self.direction {
                Direction::Forward => self.raw.next(),
                Direction::Reverse => self.raw.prev(),
            }
        } else {
            self.just_seeked = false;
        }
        proof {
            if old(self).raw.is_positioned() {
                let p = old(self).raw.position();
                let es = old(self).raw.entries();
                match old(self).direction {
                    Direction::Forward => {
                        let base: int = if old(self).just_seeked {
                            p
                        } else {
                            p + 1
                        };
                        if base < es.len() {
                            assert(es.skip(base).len() > 0);
                            assert(es.skip(base)[0] == es[base]);
                            assert(es.skip(base).drop_first() =~= es.skip(base + 1));
                        } else {
                            assert(es.skip(base) =~= Seq::<(Seq<u8>, Seq<u8>)>::empty());
                        }
                    },
                    Direction::Reverse => {
                        let hi: int = if old(self).just_seeked {
                            p + 1
                        } else {
                            p
                        };
                        if hi > 0 {
                            assert(es.take(hi).reverse().len() > 0);
                            assert(es.take(hi).reverse()[0] == es.take(hi)[hi - 1]);
                            assert(es.take(hi)[hi - 1] == es[hi - 1]);
                            assert(es.take(hi).reverse().drop_first() =~= es.take(
                                hi - 1,
                            ).reverse()) by {
                                assert forall|x: int|
                                    0 <= x < hi - 1 implies es.take(hi).reverse().drop_first()[x]
                                    == es.take(hi - 1).reverse()[x] by {
                                    assert(es.take(hi).reverse()[x + 1] == es.take(hi)[hi - 1 - (x
                                        + 1)]);
                                    assert(es.take(hi - 1).reverse()[x] == es.take(hi - 1)[hi - 2
                                        - x]);
                                }
                            }
                        } else {
                            assert(es.take(0).reverse() =~= Seq::<(Seq<u8>, Seq<u8>)>::empty());
                        }
                    },
                }
            }
        }
        if self.raw.valid() {
            let k = self.raw.key();
            let v = self.raw.value();
            Some((k.unwrap(), v.unwrap()))
        } else {
            None
        }
    }
}

/// Iteration order is the keyspace order: a forward stream is strictly
/// ascending, a reverse stream strictly descending, whatever state the
/// iterator is in.
pub proof fn lemma_iteration_order(it: &DBIterator)
    requires
        it.wf(),
    ensures
        it.spec_direction() is Forward ==> forall|i: int, j: int|
            0 <= i < j < it.stream().len() ==> lex_lt(
                #[trigger] it.stream()[i].0,
                #[trigger] it.stream()[j].0,
            ),
        it.spec_direction() is Reverse ==> forall|i: int, j: int|
            0 <= i < j < it.stream().len() ==> lex_lt(
                #[trigger] it.stream()[j].0,
                #[trigger] it.stream()[i].0,
            ),
{
    let s = it.stream();
    let es = it.entries();
    if it.raw.is_positioned() {
        let p = it.raw.position();
        if it.spec_direction() is Forward {
            let base: int = if it.just_seeked {
                p
            } else {
                p + 1
            };
            assert forall|i: int, j: int| 0 <= i < j < s.len() implies lex_lt(
                #[trigger] s[i].0,
                #[trigger] s[j].0,
            ) by {
                assert(s[i] == es[base + i]);
                assert(s[j] == es[base + j]);
            }
        } else {
            let hi: int = if it.just_seeked {
                p + 1
            } else {
                p
            };
            assert forall|i: int, j: int| 0 <= i < j < s.len() implies lex_lt(
                #[trigger] s[j].0,
                #[trigger] s[i].0,
            ) by {
                assert(s[i] == es.take(hi)[hi - 1 - i]);
                assert(s[j] == es.take(hi)[hi - 1 - j]);
                assert(es.take(hi)[hi - 1 - i] == es[hi - 1 - i]);
                assert(es.take(hi)[hi - 1 - j] == es[hi - 1 - j]);
            }
        }
    }
}

/// Seek-then-iterate finds a present key exactly: when `key` is stored,
/// seeking an iterator forward from `key` makes the first produced element
/// carry `key` itself — no record is skipped.
pub proof fn lemma_seek_finds_existing(entries: Seq<(Seq<u8>, Seq<u8>)>, key: Seq<u8>)
    requires
        sorted_strict(entries),
        contains_key_at(entries, key),
    ensures
        0 <= lb(entries, key) < entries.len(),
        entries.skip(lb(entries, key)).len() > 0,
        entries.skip(lb(entries, key))[0].0 == key,
{
    lemma_lb_finds_existing(entries, key);
    assert(entries.skip(lb(entries, key))[0] == entries[lb(entries, key)]);
}

} // verus!
