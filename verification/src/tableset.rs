//! Table families.
//!
//! A [`TableSet`] aggregates the tables of one logical dataset: the
//! resolutions stored as base tables, the resolutions stored as compacted
//! tables, and the user-column schema. [`find_tablesets`] discovers the
//! families in a list of table names.

use vstd::prelude::*;

use crate::tables::{parse_spec, Table, TableSpec};
use crate::text::{join_with, starts_with, chars_start_with, join_chars, str_chars};

verus! {

/// A set of H3 resolutions, kept as a strictly ascending vector of values
/// between 0 and 15.
#[derive(Clone, Debug, PartialEq, Eq)]
pub struct ResolutionSet {
    rezs: Vec<u8>,
}

impl View for ResolutionSet {
    type V = Set<u8>;

    closed spec fn view(&self) -> Set<u8> {
        self.rezs@.to_set()
    }
}

impl ResolutionSet {
    /// The resolutions in ascending order.
    pub closed spec fn as_seq(&self) -> Seq<u8> {
        self.rezs@
    }

    /// Well-formed: strictly ascending, all values at most 15. Constructors
    /// establish it and methods preserve it.
    pub closed spec fn wf(&self) -> bool {
        &&& forall|i: int, j: int|
            0 <= i < j < self.rezs@.len() ==> self.rezs@[i] < self.rezs@[j]
        &&& forall|i: int| 0 <= i < self.rezs@.len() ==> self.rezs@[i] <= 15
    }

    pub fn new() -> (r: Self)
        ensures
            r@ == Set::<u8>::empty(),
            r.as_seq() == Seq::<u8>::empty(),
            r.wf(),
    {
        let r = ResolutionSet { rezs: Vec::new() };
        proof {
            assert(r.rezs@.to_set() =~= Set::<u8>::empty());
        }
        r
    }

    pub fn contains(&self, r: u8) -> (b: bool)
        ensures
            b == self@.contains(r),
    {
        let mut i: usize = 0;
        while i < self.rezs.len()
            invariant
                i <= self.rezs@.len(),
                forall|j: int| 0 <= j < i ==> self.rezs@[j] != r,
            decreases self.rezs@.len() - i,
        {
            if self.rezs[i] == r {
                assert(self.rezs@.to_set().contains(r));
                return true;
            }
            i += 1;
        }
        assert(!self.rezs@.to_set().contains(r));
        false
    }

    pub fn insert(&mut self, r: u8)
        requires
            old(self).wf(),
            r <= 15,
        ensures
            final(self)@ == old(self)@.insert(r),
            final(self).wf(),
    {
        let ghost old_seq = self.rezs@;
        let mut i: usize = 0;
        while i < self.rezs.len() && self.rezs[i] < r
            invariant
                i <= self.rezs@.len(),
                self.rezs@ == old_seq,
                forall|j: int| 0 <= j < i ==> self.rezs@[j] < r,
            decreases self.rezs@.len() - i,
        {
            i += 1;
        }
        if i < self.rezs.len() && self.rezs[i] == r {
            proof {
                assert(self.rezs@.to_set().contains(r));
                assert(self.rezs@.to_set() =~= self.rezs@.to_set().insert(r));
            }
            return;
        }
        self.rezs.insert(i, r);
        proof {
            assert forall|a: int, b: int|
                0 <= a < b < self.rezs@.len() implies self.rezs@[a] < self.rezs@[b] by {
                if b < i {
                } else if a < i && b == i {
                } else if a < i && b > i {
                    assert(self.rezs@[b] == old_seq[b - 1]);
                } else if a == i {
                    assert(self.rezs@[b] == old_seq[b - 1]);
                    assert(old_seq[b - 1] >= r);
                    assert(old_seq[b - 1] != r);
                } else {
                    assert(self.rezs@[a] == old_seq[a - 1]);
                    assert(self.rezs@[b] == old_seq[b - 1]);
                }
            }
            assert(self.rezs@.to_set() =~= old_seq.to_set().insert(r)) by {
                assert forall|x: u8| self.rezs@.to_set().contains(x) implies old_seq
                    .to_set().insert(r).contains(x) by {
                    let k = choose|k: int|
                        0 <= k < self.rezs@.len() && self.rezs@[k] == x;
                    if k != i {
                        if k < i {
                            assert(old_seq[k] == x);
                        } else {
                            assert(old_seq[k - 1] == x);
                        }
                    }
                }
                assert forall|x: u8| old_seq.to_set().insert(r).contains(x) implies self
                    .rezs@.to_set().contains(x) by {
                    if x == r {
                        assert(self.rezs@[i as int] == x);
                    } else {
                        let k = choose|k: int| 0 <= k < old_seq.len() && old_seq[k] == x;
                        if k < i {
                            assert(self.rezs@[k] == x);
                        } else {
                            assert(self.rezs@[k + 1] == x);
                        }
                    }
                }
            }
        }
    }

    pub fn len(&self) -> (n: usize)
        requires
            self.wf(),
        ensures
            n == self@.len(),
            n <= 16,
    {
        proof {
            self.rezs@.unique_seq_to_set();
            if self.rezs@.len() > 16 {
                lemma_ascending_lower_bound(self.rezs@, 16);
            }
        }
        self.rezs.len()
    }

    /// The resolutions as a vector in ascending order.
    pub fn to_sorted_vec(&self) -> (v: Vec<u8>)
        requires
            self.wf(),
        ensures
            v@ == self.as_seq(),
            v@.to_set() == self@,
            v@.no_duplicates(),
            forall|i: int, j: int| 0 <= i < j < v@.len() ==> v@[i] < v@[j],
            forall|i: int| 0 <= i < v@.len() ==> v@[i] <= 15,
    {
        let mut v: Vec<u8> = Vec::new();
        let mut i: usize = 0;
        while i < self.rezs.len()
            invariant
                i <= self.rezs@.len(),
                v@ == self.rezs@.take(i as int),
            decreases self.rezs@.len() - i,
        {
            proof {
                assert(self.rezs@.take(i + 1) =~= self.rezs@.take(i as int).push(
                    self.rezs@[i as int],
                ));
            }
            v.push(self.rezs[i]);
            i += 1;
        }
        proof {
            assert(self.rezs@.take(self.rezs@.len() as int) =~= self.rezs@);
        }
        v
    }
}

/// In a strictly ascending sequence every element is at least as large as
/// its position.
proof fn lemma_ascending_lower_bound(s: Seq<u8>, i: int)
    requires
        forall|a: int, b: int| 0 <= a < b < s.len() ==> s[a] < s[b],
        0 <= i < s.len(),
    ensures
        s[i] as int >= i,
    decreases i,
{
    if i > 0 {
        lemma_ascending_lower_bound(s, i - 1);
    }
}

/// The schema of the user columns of a tableset: column names mapped to SQL
/// type names, in insertion order. The distinguished cell-key column
/// `h3index` is never part of it.
#[derive(Clone, Debug, PartialEq, Eq)]
pub struct ColumnSchema {
    cols: Vec<(String, String)>,
}

impl View for ColumnSchema {
    type V = Seq<(Seq<char>, Seq<char>)>;

    closed spec fn view(&self) -> Seq<(Seq<char>, Seq<char>)> {
        self.cols@.map_values(|c: (String, String)| (c.0@, c.1@))
    }
}

/// A schema with `name` bound to `sql_type`: an existing entry keeps its
/// position and changes its type, a new one is appended.
pub open spec fn schema_set(
    cols: Seq<(Seq<char>, Seq<char>)>,
    name: Seq<char>,
    sql_type: Seq<char>,
) -> Seq<(Seq<char>, Seq<char>)> {
    if exists|i: int| 0 <= i < cols.len() && cols[i].0 == name {
        let i = choose|i: int| 0 <= i < cols.len() && cols[i].0 == name;
        cols.update(i, (name, sql_type))
    } else {
        cols.push((name, sql_type))
    }
}

impl ColumnSchema {
    /// Well-formed: no column name occurs twice.
    pub open spec fn wf(&self) -> bool {
        forall|i: int, j: int| 0 <= i < j < self@.len() ==> self@[i].0 != self@[j].0
    }

    pub fn new() -> (r: Self)
        ensures
            r@ == Seq::<(Seq<char>, Seq<char>)>::empty(),
            r.wf(),
    {
        let r = ColumnSchema { cols: Vec::new() };
        proof {
            assert(r@ =~= Seq::<(Seq<char>, Seq<char>)>::empty());
        }
        r
    }

    pub fn len(&self) -> (n: usize)
        ensures
            n == self@.len(),
    {
        self.cols.len()
    }

    /// Binds a column name to a SQL type name.
    pub fn set(&mut self, name: String, sql_type: String)
        requires
            old(self).wf(),
        ensures
            final(self)@ == schema_set(old(self)@, name@, sql_type@),
            final(self).wf(),
    {
        let ghost old_view = self@;
        let mut i: usize = 0;
        while i < self.cols.len()
            invariant
                i <= self.cols@.len(),
                self@ == old(self)@,
                old_view == old(self)@,
                forall|a: int, b: int| 0 <= a < b < old_view.len() ==> old_view[a].0 != old_view[b].0,
                forall|j: int| 0 <= j < i ==> self@[j].0 != name@,
            decreases self.cols@.len() - i,
        {
            proof {
                assert(self@[i as int] == (self.cols@[i as int].0@, self.cols@[i as int].1@));
            }
            let hit = self.cols[i].0 == name;
            if hit {
                self.cols.set(i, (name, sql_type));
                proof {
                    assert(old_view[i as int].0 == name@);
                    let w = choose|w: int| 0 <= w < old_view.len() && old_view[w].0 == name@;
                    if w < i {
                        assert(old_view[w].0 != old_view[i as int].0);
                    } else if w > i {
                        assert(old_view[i as int].0 != old_view[w].0);
                    }
                    assert(w == i);
                    assert(self@ =~= old_view.update(i as int, (name@, sql_type@)));
                    assert(schema_set(old_view, name@, sql_type@) == old_view.update(
                        i as int,
                        (name@, sql_type@),
                    ));
                }
                return;
            }
            i += 1;
        }
        self.cols.push((name, sql_type));
        proof {
            assert(self@ =~= old_view.push((name@, sql_type@)));
        }
    }

    /// The type bound to a column name, if any.
    pub fn get_type(&self, name: &str) -> (r: Option<String>)
        ensures
            match r {
                Some(t) => exists|i: int|
                    0 <= i < self@.len() && self@[i].0 == name@ && self@[i].1 == t@,
                None => forall|i: int| 0 <= i < self@.len() ==> self@[i].0 != name@,
            },
    {
        let key = name.to_owned();
        let mut i: usize = 0;
        while i < self.cols.len()
            invariant
                i <= self.cols@.len(),
                key@ == name@,
                forall|j: int| 0 <= j < i ==> self@[j].0 != name@,
            decreases self.cols@.len() - i,
        {
            proof {
                assert(self@[i as int] == (self.cols@[i as int].0@, self.cols@[i as int].1@));
            }
            if self.cols[i].0 == key {
                return Some(self.cols[i].1.clone());
            }
            i += 1;
        }
        None
    }

    /// The names of the user columns, in schema order, leaving out every
    /// column whose name starts with `h3index`.
    pub open spec fn selectable_names(cols: Seq<(Seq<char>, Seq<char>)>) -> Seq<Seq<char>>
        decreases cols.len(),
    {
        if cols.len() == 0 {
            Seq::empty()
        } else {
            let pre = Self::selectable_names(cols.drop_last());
            if starts_with(cols.last().0, "h3index"@) {
                pre
            } else {
                pre.push(cols.last().0)
            }
        }
    }

    /// The comma-joined select list of the user columns.
    pub fn select_list(&self) -> (r: Vec<char>)
        ensures
            r@ == join_with(Self::selectable_names(self@), ", "@),
    {
        let h3pre = str_chars("h3index");
        let mut parts: Vec<Vec<char>> = Vec::new();
        let mut i: usize = 0;
        while i < self.cols.len()
            invariant
                i <= self.cols@.len(),
                h3pre@ == "h3index"@,
                parts@.map_values(|p: Vec<char>| p@) == Self::selectable_names(
                    self@.take(i as int),
                ),
            decreases self.cols@.len() - i,
        {
            let ghost pre = self@.take(i as int);
            let ghost cur = self@.take(i + 1);
            proof {
                assert(cur.drop_last() =~= pre);
                assert(cur.last() == self@[i as int]);
            }
            let name_chars = str_chars(self.cols[i].0.as_str());
            if !chars_start_with(&name_chars, &h3pre) {
                parts.push(name_chars);
                proof {
                    assert(parts@.map_values(|p: Vec<char>| p@) =~= Self::selectable_names(cur));
                }
            }
            i += 1;
        }
        proof {
            assert(self@.take(self@.len() as int) =~= self@);
        }
        let sep = str_chars(", ");
        join_chars(&parts, &sep)
    }
}

/// The tables of one logical dataset: its basename, the resolutions that
/// have a base table, the resolutions that have a compacted table, and the
/// user-column schema.
#[derive(Clone, Debug, PartialEq, Eq)]
pub struct TableSet {
    pub basename: String,
    pub base_h3_resolutions: ResolutionSet,
    pub compacted_h3_resolutions: ResolutionSet,
    pub columns: ColumnSchema,
}

impl TableSet {
    pub open spec fn wf(&self) -> bool {
        self.base_h3_resolutions.wf() && self.compacted_h3_resolutions.wf() && self.columns.wf()
    }

    /// An empty tableset for a basename.
    pub fn new(basename: &str) -> (r: TableSet)
        ensures
            r.basename@ == basename@,
            r.base_h3_resolutions@ == Set::<u8>::empty(),
            r.compacted_h3_resolutions@ == Set::<u8>::empty(),
            r.columns@ == Seq::<(Seq<char>, Seq<char>)>::empty(),
            r.wf(),
    {
        TableSet {
            basename: basename.to_owned(),
            base_h3_resolutions: ResolutionSet::new(),
            compacted_h3_resolutions: ResolutionSet::new(),
            columns: ColumnSchema::new(),
        }
    }

    /// The compacted tables of the set, in ascending resolution order.
    pub fn compacted_tables(&self) -> (r: Vec<Table>)
        requires
            self.compacted_h3_resolutions.wf(),
        ensures
            r@.len() == self.compacted_h3_resolutions.as_seq().len(),
            forall|i: int|
                0 <= i < r@.len() ==> r@[i].basename@ == self.basename@
                    && r@[i].table_spec == (TableSpec {
                    h3_resolution: self.compacted_h3_resolutions.as_seq()[i],
                    is_compacted: true,
                    is_intermediate: false,
                }),
    {
        let rezs = self.compacted_h3_resolutions.to_sorted_vec();
        let mut r: Vec<Table> = Vec::new();
        let mut i: usize = 0;
        while i < rezs.len()
            invariant
                i <= rezs@.len(),
                rezs@ == self.compacted_h3_resolutions.as_seq(),
                r@.len() == i,
                forall|j: int|
                    0 <= j < i ==> r@[j].basename@ == self.basename@ && r@[j].table_spec
                        == (TableSpec {
                        h3_resolution: rezs@[j],
                        is_compacted: true,
                        is_intermediate: false,
                    }),
            decreases rezs@.len() - i,
        {
            r.push(
                Table {
                    basename: self.basename.clone(),
                    table_spec: TableSpec {
                        h3_resolution: rezs[i],
                        is_compacted: true,
                        is_intermediate: false,
                    },
                },
            );
            i += 1;
        }
        r
    }

    /// The base tables of the set, in ascending resolution order.
    pub fn base_tables(&self) -> (r: Vec<Table>)
        requires
            self.base_h3_resolutions.wf(),
        ensures
            r@.len() == self.base_h3_resolutions.as_seq().len(),
            forall|i: int|
                0 <= i < r@.len() ==> r@[i].basename@ == self.basename@ && r@[i].table_spec
                    == (TableSpec {
                    h3_resolution: self.base_h3_resolutions.as_seq()[i],
                    is_compacted: false,
                    is_intermediate: false,
                }),
    {
        let rezs = self.base_h3_resolutions.to_sorted_vec();
        let mut r: Vec<Table> = Vec::new();
        let mut i: usize = 0;
        while i < rezs.len()
            invariant
                i <= rezs@.len(),
                rezs@ == self.base_h3_resolutions.as_seq(),
                r@.len() == i,
                forall|j: int|
                    0 <= j < i ==> r@[j].basename@ == self.basename@ && r@[j].table_spec
                        == (TableSpec {
                        h3_resolution: rezs@[j],
                        is_compacted: false,
                        is_intermediate: false,
                    }),
            decreases rezs@.len() - i,
        {
            r.push(
                Table {
                    basename: self.basename.clone(),
                    table_spec: TableSpec {
                        h3_resolution: rezs[i],
                        is_compacted: false,
                        is_intermediate: false,
                    },
                },
            );
            i += 1;
        }
        r
    }

    /// All tables of the set: the base tables, then the compacted tables.
    pub fn tables(&self) -> (r: Vec<Table>)
        requires
            self.wf(),
        ensures
            r@.len() == self.base_h3_resolutions.as_seq().len()
                + self.compacted_h3_resolutions.as_seq().len(),
            forall|i: int|
                0 <= i < r@.len() ==> r@[i].basename@ == self.basename@
                    && !r@[i].table_spec.is_intermediate,
            forall|i: int|
                0 <= i < self.base_h3_resolutions.as_seq().len() ==> r@[i].table_spec
                    == (TableSpec {
                    h3_resolution: self.base_h3_resolutions.as_seq()[i],
                    is_compacted: false,
                    is_intermediate: false,
                }),
            forall|i: int|
                self.base_h3_resolutions.as_seq().len() <= i < r@.len() ==> r@[i].table_spec
                    == (TableSpec {
                    h3_resolution: self.compacted_h3_resolutions.as_seq()[i
                        - self.base_h3_resolutions.as_seq().len()],
                    is_compacted: true,
                    is_intermediate: false,
                }),
    {
        let mut r = self.base_tables();
        let mut compacted = self.compacted_tables();
        r.append(&mut compacted);
        r
    }

    /// Inserts one discovered resolution into the right resolution set.
    fn add_resolution(&mut self, resolution: u8, compacted: bool)
        requires
            old(self).wf(),
            resolution <= 15,
        ensures
            final(self).wf(),
            final(self).basename == old(self).basename,
            final(self).columns == old(self).columns,
            compacted ==> final(self).compacted_h3_resolutions@ == old(
                self,
            ).compacted_h3_resolutions@.insert(resolution) && final(self).base_h3_resolutions
                == old(self).base_h3_resolutions,
            !compacted ==> final(self).base_h3_resolutions@ == old(
                self,
            ).base_h3_resolutions@.insert(resolution) && final(self).compacted_h3_resolutions
                == old(self).compacted_h3_resolutions,
    {
        if compacted {
            self.compacted_h3_resolutions.insert(resolution);
        } else {
            self.base_h3_resolutions.insert(resolution);
        }
    }

    /// How many tables the set holds.
    pub fn num_tables(&self) -> (n: usize)
        requires
            self.wf(),
        ensures
            n == self.base_h3_resolutions@.len() + self.compacted_h3_resolutions@.len(),
    {
        self.base_h3_resolutions.len() + self.compacted_h3_resolutions.len()
    }
}

/// The table families a list of names describes: for each basename that
/// occurs in a parseable name, the set of resolutions found in base tables
/// and the set found in compacted tables.
pub open spec fn discovered(names: Seq<Seq<char>>) -> Map<Seq<char>, (Set<u8>, Set<u8>)>
    decreases names.len(),
{
    if names.len() == 0 {
        Map::empty()
    } else {
        let m = discovered(names.drop_last());
        match parse_spec(names.last()) {
            Option::None => m,
            Option::Some(parts) => {
                let cur = if m.contains_key(parts.0) {
                    m[parts.0]
                } else {
                    (Set::<u8>::empty(), Set::<u8>::empty())
                };
                let upd = if parts.2 {
                    (cur.0, cur.1.insert(parts.1))
                } else {
                    (cur.0.insert(parts.1), cur.1)
                };
                m.insert(parts.0, upd)
            },
        }
    }
}

/// The table families found in a list of names, keyed by basename.
#[derive(Clone, Debug, PartialEq, Eq)]
pub struct TableSetMap {
    sets: Vec<TableSet>,
}

impl View for TableSetMap {
    type V = Map<Seq<char>, (Set<u8>, Set<u8>)>;

    closed spec fn view(&self) -> Map<Seq<char>, (Set<u8>, Set<u8>)> {
        Map::new(
            |b: Seq<char>|
                exists|i: int| 0 <= i < self.sets@.len() && self.sets@[i].basename@ == b,
            |b: Seq<char>|
                {
                    let i = choose|i: int|
                        0 <= i < self.sets@.len() && self.sets@[i].basename@ == b;
                    (
                        self.sets@[i].base_h3_resolutions@,
                        self.sets@[i].compacted_h3_resolutions@,
                    )
                },
        )
    }
}

impl TableSetMap {
    /// The tablesets in first-discovery order.
    pub closed spec fn entries(&self) -> Seq<TableSet> {
        self.sets@
    }

    /// Well-formed: basenames are distinct and every tableset is.
    pub open spec fn wf(&self) -> bool {
        &&& forall|i: int, j: int|
            0 <= i < j < self.entries().len() ==> self.entries()[i].basename@
                != self.entries()[j].basename@
        &&& forall|i: int| 0 <= i < self.entries().len() ==> (#[trigger] self.entries()[i]).wf()
    }

    pub fn new() -> (r: Self)
        ensures
            r.wf(),
            r@ == Map::<Seq<char>, (Set<u8>, Set<u8>)>::empty(),
            r.entries() == Seq::<TableSet>::empty(),
    {
        let r = TableSetMap { sets: Vec::new() };
        proof {
            assert(r@ =~= Map::<Seq<char>, (Set<u8>, Set<u8>)>::empty());
        }
        r
    }

    /// How many table families the map holds.
    pub fn len(&self) -> (n: usize)
        requires
            self.wf(),
        ensures
            n == self@.dom().len(),
            n == self.entries().len(),
    {
        proof {
            let basenames = self.sets@.map_values(|t: TableSet| t.basename@);
            assert forall|a: int, c: int|
                0 <= a < basenames.len() && 0 <= c < basenames.len() && a != c implies basenames[a]
                != basenames[c] by {
                assert(basenames[a] == self.sets@[a].basename@);
                assert(basenames[c] == self.sets@[c].basename@);
                if a < c {
                    assert(self.entries()[a].basename@ != self.entries()[c].basename@);
                } else {
                    assert(self.entries()[c].basename@ != self.entries()[a].basename@);
                }
            }
            assert(basenames.no_duplicates());
            basenames.unique_seq_to_set();
            assert(self@.dom() =~= basenames.to_set()) by {
                assert forall|b: Seq<char>| self@.dom().contains(b) implies basenames
                    .to_set().contains(b) by {
                    let i = choose|i: int|
                        0 <= i < self.sets@.len() && self.sets@[i].basename@ == b;
                    assert(basenames[i] == b);
                }
                assert forall|b: Seq<char>| basenames.to_set().contains(b) implies self@
                    .dom().contains(b) by {
                    let i = choose|i: int| 0 <= i < basenames.len() && basenames[i] == b;
                    assert(self.sets@[i].basename@ == b);
                }
            }
        }
        self.sets.len()
    }

    /// Finds the position of a basename, if present.
    fn position_of(&self, basename: &String) -> (r: Option<usize>)
        ensures
            match r {
                Some(i) => i < self.entries().len() && self.entries()[i as int].basename@
                    == basename@,
                None => forall|i: int|
                    0 <= i < self.entries().len() ==> self.entries()[i].basename@ != basename@,
            },
    {
        let mut i: usize = 0;
        while i < self.sets.len()
            invariant
                i <= self.sets@.len(),
                forall|j: int| 0 <= j < i ==> self.sets@[j].basename@ != basename@,
            decreases self.sets@.len() - i,
        {
            let hit = self.sets[i].basename == *basename;
            if hit {
                return Some(i);
            }
            i += 1;
        }
        None
    }

    /// Whether a family with this basename was found.
    pub fn contains_key(&self, basename: &str) -> (r: bool)
        ensures
            r == self@.dom().contains(basename@),
    {
        let key = basename.to_owned();
        let pos = self.position_of(&key);
        let r = pos.is_some();
        proof {
            match pos {
                Option::Some(i) => {
                    assert(exists|k: int|
                        0 <= k < self.sets@.len() && self.sets@[k].basename@ == basename@) by {
                        assert(self.sets@[i as int].basename@ == basename@);
                    }
                    assert(self@.dom().contains(basename@));
                },
                Option::None => {
                    assert(!self@.dom().contains(basename@)) by {
                        if self@.dom().contains(basename@) {
                            let k = choose|k: int|
                                0 <= k < self.sets@.len() && self.sets@[k].basename@
                                    == basename@;
                            assert(self.entries()[k].basename@ == basename@);
                            assert(self.entries()[k].basename@ != key@);
                            assert(false);
                        }
                    }
                },
            }
        }
        r
    }

    /// The family with this basename, if present.
    pub fn get(&self, basename: &str) -> (r: Option<&TableSet>)
        requires
            self.wf(),
        ensures
            match r {
                Some(ts) => self@.dom().contains(basename@) && ts.basename@ == basename@
                    && ts.wf() && ts.base_h3_resolutions@ == self@[basename@].0
                    && ts.compacted_h3_resolutions@ == self@[basename@].1,
                None => !self@.dom().contains(basename@),
            },
    {
        let key = basename.to_owned();
        match self.position_of(&key) {
            Some(i) => {
                proof {
                    let w = choose|w: int|
                        0 <= w < self.sets@.len() && self.sets@[w].basename@ == basename@;
                    if w < i as int {
                        assert(self.entries()[w].basename@ != self.entries()[i as int].basename@);
                    } else if w > i as int {
                        assert(self.entries()[i as int].basename@ != self.entries()[w].basename@);
                    }
                    assert(w == i as int);
                }
                Some(&self.sets[i])
            },
            None => None,
        }
    }

    /// The basenames of the families, in first-discovery order.
    pub fn basenames(&self) -> (r: Vec<String>)
        ensures
            r@.len() == self.entries().len(),
            forall|i: int|
                0 <= i < r@.len() ==> r@[i]@ == self.entries()[i].basename@,
    {
        let mut r: Vec<String> = Vec::new();
        let mut i: usize = 0;
        while i < self.sets.len()
            invariant
                i <= self.sets@.len(),
                r@.len() == i,
                forall|j: int| 0 <= j < i ==> r@[j]@ == self.sets@[j].basename@,
            decreases self.sets@.len() - i,
        {
            r.push(self.sets[i].basename.clone());
            i += 1;
        }
        r
    }
}

/// Identifies the table families in a list of table names. Unparseable
/// names are skipped; each parseable name contributes its resolution to the
/// base or the compacted set of its basename's family. Column schemas start
/// out empty.
pub fn find_tablesets(tablenames: &Vec<String>) -> (r: TableSetMap)
    ensures
        r.wf(),
        r@ == discovered(tablenames@.map_values(|s: String| s@)),
        forall|i: int|
            0 <= i < r.entries().len() ==> (#[trigger] r.entries()[i]).columns@ == Seq::<
                (Seq<char>, Seq<char>),
            >::empty(),
{
    let ghost all_names = tablenames@.map_values(|s: String| s@);
    let mut r = TableSetMap::new();
    let mut i: usize = 0;
    while i < tablenames.len()
        invariant
            i <= tablenames@.len(),
            all_names == tablenames@.map_values(|s: String| s@),
            r.wf(),
            forall|k: int|
                0 <= k < r.entries().len() ==> (#[trigger] r.entries()[k]).columns@ == Seq::<
                    (Seq<char>, Seq<char>),
                >::empty(),
            forall|k: int|
                0 <= k < r.entries().len() ==> discovered(all_names.take(i as int)).contains_key(
                    (#[trigger] r.entries()[k]).basename@,
                ) && discovered(all_names.take(i as int))[r.entries()[k].basename@] == (
                    r.entries()[k].base_h3_resolutions@,
                    r.entries()[k].compacted_h3_resolutions@,
                ),
            forall|b: Seq<char>|
                discovered(all_names.take(i as int)).contains_key(b) ==> exists|k: int|
                    0 <= k < r.entries().len() && (#[trigger] r.entries()[k]).basename@ == b,
        decreases tablenames@.len() - i,
    {
        let ghost pre = all_names.take(i as int);
        let ghost cur = all_names.take(i + 1);
        proof {
            assert(cur.drop_last() =~= pre);
            assert(cur.last() == all_names[i as int]);
            assert(all_names[i as int] == tablenames@[i as int]@);
        }
        let parsed = Table::parse(tablenames[i].as_str());
        match parsed {
            Option::None => {
                proof {
                    assert(discovered(cur) == discovered(pre));
                }
            },
            Option::Some(t) => {
                let ghost b = t.basename@;
                let ghost res = t.table_spec.h3_resolution;
                let ghost comp = t.table_spec.is_compacted;
                let ghost old_entries = r.entries();
                let ghost dpre = discovered(pre);
                let ghost dcur = discovered(cur);
                proof {
                    assert(parse_spec(cur.last()) == Some((b, res, comp)));
                }
                let pos = r.position_of(&t.basename);
                match pos {
                    Option::Some(k) => {
                        let mut ts = r.sets.remove(k);
                        proof {
                            assert(dpre.contains_key(b));
                            assert(dpre[b] == (
                                ts.base_h3_resolutions@,
                                ts.compacted_h3_resolutions@,
                            ));
                        }
                        ts.add_resolution(t.table_spec.h3_resolution, t.table_spec.is_compacted);
                        r.sets.insert(k, ts);
                        proof {
                            assert(r.entries() =~= old_entries.update(
                                k as int,
                                r.entries()[k as int],
                            ));
                            assert forall|k2: int|
                                0 <= k2 < r.entries().len() implies discovered(cur).contains_key(
                                (#[trigger] r.entries()[k2]).basename@,
                            ) && discovered(cur)[r.entries()[k2].basename@] == (
                                r.entries()[k2].base_h3_resolutions@,
                                r.entries()[k2].compacted_h3_resolutions@,
                            ) by {
                                if k2 == k as int {
                                    assert(dcur.contains_key(b));
                                    assert(dcur[b] == (
                                        r.entries()[k2].base_h3_resolutions@,
                                        r.entries()[k2].compacted_h3_resolutions@,
                                    ));
                                } else {
                                    assert(r.entries()[k2] == old_entries[k2]);
                                    assert(old_entries[k2].basename@ != b);
                                }
                            }
                            assert forall|b2: Seq<char>|
                                discovered(cur).contains_key(b2) implies exists|k2: int|
                                0 <= k2 < r.entries().len() && (#[trigger] r.entries()[k2]).basename@
                                    == b2 by {
                                if b2 == b {
                                    assert(r.entries()[k as int].basename@ == b2);
                                } else {
                                    assert(dpre.contains_key(b2));
                                    let k2 = choose|k2: int|
                                        0 <= k2 < old_entries.len() && (#[trigger] old_entries[k2]).basename@
                                            == b2;
                                    assert(r.entries()[k2].basename@ == b2);
                                }
                            }
                        }
                    },
                    Option::None => {
                        let mut ts = TableSet::new(t.basename.as_str());
                        ts.add_resolution(t.table_spec.h3_resolution, t.table_spec.is_compacted);
                        r.sets.push(ts);
                        proof {
                            assert(r.entries() =~= old_entries.push(r.entries().last()));
                            assert(!dpre.contains_key(b)) by {
                                if dpre.contains_key(b) {
                                    let k2 = choose|k2: int|
                                        0 <= k2 < old_entries.len() && (#[trigger] old_entries[k2]).basename@
                                            == b;
                                }
                            }
                            assert(dcur[b] == (
                                r.entries().last().base_h3_resolutions@,
                                r.entries().last().compacted_h3_resolutions@,
                            )) by {
                                assert(Set::<u8>::empty().insert(res) =~= Set::<u8>::empty().insert(
                                    res,
                                ));
                            }
                            assert forall|k2: int|
                                0 <= k2 < r.entries().len() implies discovered(cur).contains_key(
                                (#[trigger] r.entries()[k2]).basename@,
                            ) && discovered(cur)[r.entries()[k2].basename@] == (
                                r.entries()[k2].base_h3_resolutions@,
                                r.entries()[k2].compacted_h3_resolutions@,
                            ) by {
                                if k2 < old_entries.len() {
                                    assert(r.entries()[k2] == old_entries[k2]);
                                    assert(old_entries[k2].basename@ != b);
                                }
                            }
                            assert forall|b2: Seq<char>|
                                discovered(cur).contains_key(b2) implies exists|k2: int|
                                0 <= k2 < r.entries().len() && (#[trigger] r.entries()[k2]).basename@
                                    == b2 by {
                                if b2 == b {
                                    assert(r.entries()[old_entries.len() as int].basename@ == b2);
                                } else {
                                    assert(dpre.contains_key(b2));
                                    let k2 = choose|k2: int|
                                        0 <= k2 < old_entries.len() && (#[trigger] old_entries[k2]).basename@
                                            == b2;
                                    assert(r.entries()[k2].basename@ == b2);
                                }
                            }
                        }
                    },
                }
            },
        }
        i += 1;
    }
    proof {
        assert(all_names.take(all_names.len() as int) =~= all_names);
        assert(r@ =~= discovered(all_names)) by {
            assert forall|b: Seq<char>| r@.dom().contains(b) implies discovered(
                all_names,
            ).contains_key(b) by {
                let k = choose|k: int|
                    0 <= k < r.entries().len() && r.entries()[k].basename@ == b;
                assert(r.entries()[k].basename@ == b);
            }
            assert forall|b: Seq<char>| discovered(all_names).contains_key(b) implies r@
                .dom().contains(b) by {
                let k = choose|k: int|
                    0 <= k < r.entries().len() && (#[trigger] r.entries()[k]).basename@ == b;
                assert(r.entries()[k].basename@ == b);
            }
            assert forall|b: Seq<char>| r@.dom().contains(b) implies r@[b] == discovered(
                all_names,
            )[b] by {
                let k = choose|k: int|
                    0 <= k < r.entries().len() && r.entries()[k].basename@ == b;
                assert(discovered(all_names)[r.entries()[k].basename@] == (
                    r.entries()[k].base_h3_resolutions@,
                    r.entries()[k].compacted_h3_resolutions@,
                ));
            }
        }
    }
    r
}

/// Discovery partition law, one direction: every parseable name in the
/// input lands in the family of its basename, in the resolution set its
/// kind selects. Together with the distinct basenames of a [`TableSetMap`],
/// the name appears in exactly one resulting tableset.
pub proof fn lemma_discovery_partition(names: Seq<Seq<char>>, i: int, b: Seq<char>, r: u8, comp: bool)
    requires
        0 <= i < names.len(),
        parse_spec(names[i]) == Some((b, r, comp)),
    ensures
        discovered(names).contains_key(b),
        comp ==> discovered(names)[b].1.contains(r),
        !comp ==> discovered(names)[b].0.contains(r),
    decreases names.len(),
{
    if i == names.len() - 1 {
    } else {
        assert(names.drop_last()[i] == names[i]);
        lemma_discovery_partition(names.drop_last(), i, b, r, comp);
        let m = discovered(names.drop_last());
        match parse_spec(names.last()) {
            Option::None => {},
            Option::Some(p) => {
                if p.0 == b {
                    assert(m.contains_key(b));
                }
            },
        }
    }
}

/// Discovery partition law, other direction: every resolution recorded in a
/// discovered family comes from a parseable input name of that basename and
/// kind.
pub proof fn lemma_discovery_sound(names: Seq<Seq<char>>, b: Seq<char>, r: u8, comp: bool)
    requires
        discovered(names).contains_key(b),
        comp ==> discovered(names)[b].1.contains(r),
        !comp ==> discovered(names)[b].0.contains(r),
    ensures
        exists|i: int| 0 <= i < names.len() && parse_spec(names[i]) == Some((b, r, comp)),
    decreases names.len(),
{
    let m = discovered(names.drop_last());
    match parse_spec(names.last()) {
        Option::None => {
            lemma_discovery_sound(names.drop_last(), b, r, comp);
            let i = choose|i: int|
                0 <= i < names.drop_last().len() && parse_spec(names.drop_last()[i]) == Some(
                    (b, r, comp),
                );
            assert(names[i] == names.drop_last()[i]);
        },
        Option::Some(p) => {
            let cur = if m.contains_key(p.0) {
                m[p.0]
            } else {
                (Set::<u8>::empty(), Set::<u8>::empty())
            };
            if p.0 == b && p.1 == r && p.2 == comp {
                assert(parse_spec(names[names.len() - 1]) == Some((b, r, comp)));
            } else {
                if p.0 == b {
                    if comp {
                        if p.2 {
                            assert(cur.1.contains(r) || r == p.1);
                            assert(cur.1.contains(r));
                        } else {
                            assert(cur.1.contains(r));
                        }
                    } else {
                        if p.2 {
                            assert(cur.0.contains(r));
                        } else {
                            assert(cur.0.contains(r) || r == p.1);
                            assert(cur.0.contains(r));
                        }
                    }
                    assert(m.contains_key(b));
                }
                lemma_discovery_sound(names.drop_last(), b, r, comp);
                let i = choose|i: int|
                    0 <= i < names.drop_last().len() && parse_spec(names.drop_last()[i]) == Some(
                        (b, r, comp),
                    );
                assert(names[i] == names.drop_last()[i]);
            }
        },
    }
}

} // verus!
