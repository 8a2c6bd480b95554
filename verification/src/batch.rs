//! Columnar result batches.
//!
//! A [`ColumnBatch`] maps column names to typed vectors that all share one
//! length. The variant set mirrors the database's column types; floating
//! point columns are carried as raw bit patterns, which row-level reshaping
//! copies but never interprets.

use vstd::prelude::*;

verus! {

/// One value of a column, for specification purposes.
pub ghost enum ColValue {
    U8(u8),
    U16(u16),
    U32(u32),
    U64(u64),
    I8(i8),
    I16(i16),
    I32(i32),
    I64(i64),
    F32Bits(u32),
    F64Bits(u64),
    Bool(bool),
    Text(Seq<char>),
    Date(i32),
    DateTime(i64),
}

/// One typed column: a vector of values of the column's type.
#[derive(Clone, Debug, PartialEq, Eq)]
pub enum ColumnData {
    U8(Vec<u8>),
    U16(Vec<u16>),
    U32(Vec<u32>),
    U64(Vec<u64>),
    I8(Vec<i8>),
    I16(Vec<i16>),
    I32(Vec<i32>),
    I64(Vec<i64>),
    /// Bit patterns of 32-bit floating point values.
    F32Bits(Vec<u32>),
    /// Bit patterns of 64-bit floating point values.
    F64Bits(Vec<u64>),
    Bool(Vec<bool>),
    Text(Vec<String>),
    /// Days since the epoch.
    Date(Vec<i32>),
    /// Seconds since the epoch.
    DateTime(Vec<i64>),
}

impl ColumnData {
    /// The values of the column, as specification values.
    pub open spec fn values(&self) -> Seq<ColValue> {
        match self {
            ColumnData::U8(v) => v@.map_values(|x: u8| ColValue::U8(x)),
            ColumnData::U16(v) => v@.map_values(|x: u16| ColValue::U16(x)),
            ColumnData::U32(v) => v@.map_values(|x: u32| ColValue::U32(x)),
            ColumnData::U64(v) => v@.map_values(|x: u64| ColValue::U64(x)),
            ColumnData::I8(v) => v@.map_values(|x: i8| ColValue::I8(x)),
            ColumnData::I16(v) => v@.map_values(|x: i16| ColValue::I16(x)),
            ColumnData::I32(v) => v@.map_values(|x: i32| ColValue::I32(x)),
            ColumnData::I64(v) => v@.map_values(|x: i64| ColValue::I64(x)),
            ColumnData::F32Bits(v) => v@.map_values(|x: u32| ColValue::F32Bits(x)),
            ColumnData::F64Bits(v) => v@.map_values(|x: u64| ColValue::F64Bits(x)),
            ColumnData::Bool(v) => v@.map_values(|x: bool| ColValue::Bool(x)),
            ColumnData::Text(v) => v@.map_values(|x: String| ColValue::Text(x@)),
            ColumnData::Date(v) => v@.map_values(|x: i32| ColValue::Date(x)),
            ColumnData::DateTime(v) => v@.map_values(|x: i64| ColValue::DateTime(x)),
        }
    }

    /// The name of the column's type.
    pub open spec fn kind_name_spec(&self) -> Seq<char> {
        match self {
            ColumnData::U8(_) => "u8"@,
            ColumnData::U16(_) => "u16"@,
            ColumnData::U32(_) => "u32"@,
            ColumnData::U64(_) => "u64"@,
            ColumnData::I8(_) => "i8"@,
            ColumnData::I16(_) => "i16"@,
            ColumnData::I32(_) => "i32"@,
            ColumnData::I64(_) => "i64"@,
            ColumnData::F32Bits(_) => "f32"@,
            ColumnData::F64Bits(_) => "f64"@,
            ColumnData::Bool(_) => "bool"@,
            ColumnData::Text(_) => "string"@,
            ColumnData::Date(_) => "date"@,
            ColumnData::DateTime(_) => "datetime"@,
        }
    }

    /// How many values the column holds.
    pub fn len(&self) -> (n: usize)
        ensures
            n == self.values().len(),
    {
        match self {
            ColumnData::U8(v) => v.len(),
            ColumnData::U16(v) => v.len(),
            ColumnData::U32(v) => v.len(),
            ColumnData::U64(v) => v.len(),
            ColumnData::I8(v) => v.len(),
            ColumnData::I16(v) => v.len(),
            ColumnData::I32(v) => v.len(),
            ColumnData::I64(v) => v.len(),
            ColumnData::F32Bits(v) => v.len(),
            ColumnData::F64Bits(v) => v.len(),
            ColumnData::Bool(v) => v.len(),
            ColumnData::Text(v) => v.len(),
            ColumnData::Date(v) => v.len(),
            ColumnData::DateTime(v) => v.len(),
        }
    }

    pub fn is_empty(&self) -> (r: bool)
        ensures
            r == (self.values().len() == 0),
    {
        self.len() == 0
    }

    /// The name of the column's type.
    pub fn kind_name(&self) -> (r: String)
        ensures
            r@ == self.kind_name_spec(),
    {
        let name: &str = match self {
            ColumnData::U8(_) => "u8",
            ColumnData::U16(_) => "u16",
            ColumnData::U32(_) => "u32",
            ColumnData::U64(_) => "u64",
            ColumnData::I8(_) => "i8",
            ColumnData::I16(_) => "i16",
            ColumnData::I32(_) => "i32",
            ColumnData::I64(_) => "i64",
            ColumnData::F32Bits(_) => "f32",
            ColumnData::F64Bits(_) => "f64",
            ColumnData::Bool(_) => "bool",
            ColumnData::Text(_) => "string",
            ColumnData::Date(_) => "date",
            ColumnData::DateTime(_) => "datetime",
        };
        name.to_owned()
    }
}

/// The elements of `v` at the positions in `idx`, in that order.
fn gather_copy<T: Copy>(v: &Vec<T>, idx: &Vec<usize>) -> (out: Vec<T>)
    requires
        forall|k: int| 0 <= k < idx@.len() ==> (#[trigger] idx@[k]) < v@.len(),
    ensures
        out@ == idx@.map_values(|i: usize| v@[i as int]),
{
    let mut out: Vec<T> = Vec::new();
    let mut k: usize = 0;
    while k < idx.len()
        invariant
            k <= idx@.len(),
            forall|j: int| 0 <= j < idx@.len() ==> (#[trigger] idx@[j]) < v@.len(),
            out@ == idx@.take(k as int).map_values(|i: usize| v@[i as int]),
        decreases idx@.len() - k,
    {
        out.push(v[idx[k]]);
        proof {
            assert(out@ =~= idx@.take(k + 1).map_values(|i: usize| v@[i as int]));
        }
        k += 1;
    }
    proof {
        assert(idx@.take(idx@.len() as int) =~= idx@);
    }
    out
}

/// The strings of `v` at the positions in `idx`, in that order.
fn gather_strings(v: &Vec<String>, idx: &Vec<usize>) -> (out: Vec<String>)
    requires
        forall|k: int| 0 <= k < idx@.len() ==> (#[trigger] idx@[k]) < v@.len(),
    ensures
        out@.len() == idx@.len(),
        forall|k: int| 0 <= k < idx@.len() ==> out@[k]@ == v@[idx@[k] as int]@,
{
    let mut out: Vec<String> = Vec::new();
    let mut k: usize = 0;
    while k < idx.len()
        invariant
            k <= idx@.len(),
            forall|j: int| 0 <= j < idx@.len() ==> (#[trigger] idx@[j]) < v@.len(),
            out@.len() == k,
            forall|j: int| 0 <= j < k ==> out@[j]@ == v@[idx@[j] as int]@,
        decreases idx@.len() - k,
    {
        out.push(v[idx[k]].clone());
        k += 1;
    }
    out
}

impl ColumnData {
    /// The column reshaped to the rows in `idx`, in that order; values are
    /// copied, never interpreted.
    pub fn gathered(&self, idx: &Vec<usize>) -> (out: ColumnData)
        requires
            forall|k: int| 0 <= k < idx@.len() ==> (#[trigger] idx@[k]) < self.values().len(),
        ensures
            out.kind_name_spec() == self.kind_name_spec(),
            out.values() =~= idx@.map_values(|i: usize| self.values()[i as int]),
    {
        let ghost target = idx@.map_values(|i: usize| self.values()[i as int]);
        match self {
            ColumnData::U8(v) => {
                let out = gather_copy(v, idx);
                proof {
                    assert(ColumnData::U8(out).values() =~= target);
                }
                ColumnData::U8(out)
            },
            ColumnData::U16(v) => {
                let out = gather_copy(v, idx);
                proof {
                    assert(ColumnData::U16(out).values() =~= target);
                }
                ColumnData::U16(out)
            },
            ColumnData::U32(v) => {
                let out = gather_copy(v, idx);
                proof {
                    assert(ColumnData::U32(out).values() =~= target);
                }
                ColumnData::U32(out)
            },
            ColumnData::U64(v) => {
                let out = gather_copy(v, idx);
                proof {
                    assert(ColumnData::U64(out).values() =~= target);
                }
                ColumnData::U64(out)
            },
            ColumnData::I8(v) => {
                let out = gather_copy(v, idx);
                proof {
                    assert(ColumnData::I8(out).values() =~= target);
                }
                ColumnData::I8(out)
            },
            ColumnData::I16(v) => {
                let out = gather_copy(v, idx);
                proof {
                    assert(ColumnData::I16(out).values() =~= target);
                }
                ColumnData::I16(out)
            },
            ColumnData::I32(v) => {
                let out = gather_copy(v, idx);
                proof {
                    assert(ColumnData::I32(out).values() =~= target);
                }
                ColumnData::I32(out)
            },
            ColumnData::I64(v) => {
                let out = gather_copy(v, idx);
                proof {
                    assert(ColumnData::I64(out).values() =~= target);
                }
                ColumnData::I64(out)
            },
            ColumnData::F32Bits(v) => {
                let out = gather_copy(v, idx);
                proof {
                    assert(ColumnData::F32Bits(out).values() =~= target);
                }
                ColumnData::F32Bits(out)
            },
            ColumnData::F64Bits(v) => {
                let out = gather_copy(v, idx);
                proof {
                    assert(ColumnData::F64Bits(out).values() =~= target);
                }
                ColumnData::F64Bits(out)
            },
            ColumnData::Bool(v) => {
                let out = gather_copy(v, idx);
                proof {
                    assert(ColumnData::Bool(out).values() =~= target);
                }
                ColumnData::Bool(out)
            },
            ColumnData::Text(v) => {
                let out = gather_strings(v, idx);
                proof {
                    assert(ColumnData::Text(out).values() =~= target);
                }
                ColumnData::Text(out)
            },
            ColumnData::Date(v) => {
                let out = gather_copy(v, idx);
                proof {
                    assert(ColumnData::Date(out).values() =~= target);
                }
                ColumnData::Date(out)
            },
            ColumnData::DateTime(v) => {
                let out = gather_copy(v, idx);
                proof {
                    assert(ColumnData::DateTime(out).values() =~= target);
                }
                ColumnData::DateTime(out)
            },
        }
    }
}

/// A columnar result batch: named typed columns that share one length.
#[derive(Clone, Debug, PartialEq, Eq)]
pub struct ColumnBatch {
    cols: Vec<(String, ColumnData)>,
}

impl View for ColumnBatch {
    type V = Seq<(Seq<char>, ColumnData)>;

    closed spec fn view(&self) -> Seq<(Seq<char>, ColumnData)> {
        self.cols@.map_values(|c: (String, ColumnData)| (c.0@, c.1))
    }
}

impl ColumnBatch {
    /// How many rows the batch holds: the length of its first column, or
    /// zero without columns.
    pub open spec fn num_rows_spec(&self) -> nat {
        if self@.len() == 0 {
            0
        } else {
            self@[0].1.values().len()
        }
    }

    /// Well-formed: column names are distinct and all columns share one
    /// length.
    pub open spec fn wf(&self) -> bool {
        &&& forall|i: int, j: int| 0 <= i < j < self@.len() ==> self@[i].0 != self@[j].0
        &&& forall|i: int|
            0 <= i < self@.len() ==> (#[trigger] self@[i]).1.values().len()
                == self.num_rows_spec()
    }

    /// Empty: no columns, or every column of length zero.
    pub open spec fn is_empty_spec(&self) -> bool {
        forall|i: int| 0 <= i < self@.len() ==> (#[trigger] self@[i]).1.values().len() == 0
    }

    pub fn new() -> (r: Self)
        ensures
            r@ == Seq::<(Seq<char>, ColumnData)>::empty(),
            r.wf(),
    {
        let r = ColumnBatch { cols: Vec::new() };
        proof {
            assert(r@ =~= Seq::<(Seq<char>, ColumnData)>::empty());
        }
        r
    }

    pub fn num_columns(&self) -> (n: usize)
        ensures
            n == self@.len(),
    {
        self.cols.len()
    }

    pub fn num_rows(&self) -> (n: usize)
        ensures
            n == self.num_rows_spec(),
    {
        if self.cols.len() == 0 {
            0
        } else {
            proof {
                assert(self@[0] == (self.cols@[0].0@, self.cols@[0].1));
            }
            self.cols[0].1.len()
        }
    }

    /// Appends a column. The first column fixes the row count; later ones
    /// must match it.
    pub fn push_column(&mut self, name: String, data: ColumnData)
        requires
            old(self).wf(),
            forall|i: int| 0 <= i < old(self)@.len() ==> (#[trigger] old(self)@[i]).0 != name@,
            old(self)@.len() > 0 ==> data.values().len() == old(self).num_rows_spec(),
        ensures
            final(self)@ == old(self)@.push((name@, data)),
            final(self).wf(),
    {
        let ghost name_view = name@;
        let ghost data_snapshot = data;
        self.cols.push((name, data));
        proof {
            assert(self@ =~= old(self)@.push((name_view, data_snapshot)));
        }
    }

    /// The column of this name, if any.
    pub fn get(&self, name: &str) -> (r: Option<&ColumnData>)
        ensures
            match r {
                Some(c) => exists|i: int|
                    0 <= i < self@.len() && self@[i].0 == name@ && (#[trigger] self@[i]).1 == *c,
                None => forall|i: int| 0 <= i < self@.len() ==> (#[trigger] self@[i]).0 != name@,
            },
    {
        let key = name.to_owned();
        let mut i: usize = 0;
        while i < self.cols.len()
            invariant
                i <= self.cols@.len(),
                key@ == name@,
                forall|j: int| 0 <= j < i ==> (#[trigger] self@[j]).0 != name@,
            decreases self.cols@.len() - i,
        {
            proof {
                assert(self@[i as int] == (self.cols@[i as int].0@, self.cols@[i as int].1));
            }
            if self.cols[i].0 == key {
                return Some(&self.cols[i].1);
            }
            i += 1;
        }
        None
    }

    /// Whether the batch is empty: no columns, or all columns empty.
    pub fn is_empty(&self) -> (r: bool)
        ensures
            r == self.is_empty_spec(),
    {
        let mut i: usize = 0;
        while i < self.cols.len()
            invariant
                i <= self.cols@.len(),
                forall|j: int| 0 <= j < i ==> (#[trigger] self@[j]).1.values().len() == 0,
            decreases self.cols@.len() - i,
        {
            proof {
                assert(self@[i as int] == (self.cols@[i as int].0@, self.cols@[i as int].1));
            }
            if !self.cols[i].1.is_empty() {
                return false;
            }
            i += 1;
        }
        true
    }

    /// The name of the column at a position.
    pub fn column_name_at(&self, i: usize) -> (r: &String)
        requires
            i < self@.len(),
        ensures
            r@ == self@[i as int].0,
    {
        proof {
            assert(self@[i as int] == (self.cols@[i as int].0@, self.cols@[i as int].1));
        }
        &self.cols[i].0
    }

    /// The column at a position.
    pub fn column_data_at(&self, i: usize) -> (r: &ColumnData)
        requires
            i < self@.len(),
        ensures
            *r == self@[i as int].1,
    {
        proof {
            assert(self@[i as int] == (self.cols@[i as int].0@, self.cols@[i as int].1));
        }
        &self.cols[i].1
    }

    /// The names of the columns with the names of their types.
    pub fn column_types(&self) -> (r: Vec<(String, String)>)
        ensures
            r@.len() == self@.len(),
            forall|i: int|
                0 <= i < r@.len() ==> (#[trigger] r@[i]).0@ == self@[i].0 && r@[i].1@
                    == self@[i].1.kind_name_spec(),
    {
        let mut r: Vec<(String, String)> = Vec::new();
        let mut i: usize = 0;
        while i < self.cols.len()
            invariant
                i <= self.cols@.len(),
                r@.len() == i,
                forall|j: int|
                    0 <= j < i ==> (#[trigger] r@[j]).0@ == self@[j].0 && r@[j].1@
                        == self@[j].1.kind_name_spec(),
            decreases self.cols@.len() - i,
        {
            proof {
                assert(self@[i as int] == (self.cols@[i as int].0@, self.cols@[i as int].1));
            }
            r.push((self.cols[i].0.clone(), self.cols[i].1.kind_name()));
            i += 1;
        }
        r
    }
}

} // verus!
