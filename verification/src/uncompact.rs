//! Client-side uncompacting.
//!
//! A raw batch may hold rows at the target resolution and rows at coarser
//! resolutions, from compacted tables. Uncompacting replaces each coarse row
//! with one row per requested descendant cell, duplicates the other columns,
//! passes through target-resolution rows that were requested, drops the
//! rest, and never emits one requested cell twice.

use vstd::prelude::*;

use crate::batch::{ColValue, ColumnBatch, ColumnData};
use crate::cells::{cell_is_valid, cell_parent, cell_res, cell_resolution, cell_valid, parent_at};
use crate::errors::{Error, ErrorSpec};
use crate::query::{cells_issue, lemma_cells_issue_none, lemma_cells_issue_skip};
use crate::text::u64_vec_contains;

verus! {

/// Whether a raw row cell is an ancestor-or-self of a requested cell: it
/// lies at a resolution at or above the cell's and is the cell's ancestor
/// there.
pub open spec fn covers(x: u64, c: u64) -> bool {
    cell_res(x) <= cell_res(c) && parent_at(c, cell_res(x)) == x
}

/// Whether any raw row cell covers the requested cell.
pub open spec fn covered_by_any(h3vals: Seq<u64>, c: u64) -> bool {
    exists|j: int| 0 <= j < h3vals.len() && covers(h3vals[j], c)
}

/// Whether a raw row cell among the first `upto` covers the requested cell.
pub open spec fn covered_upto(h3vals: Seq<u64>, upto: int, c: u64) -> bool {
    exists|j: int| 0 <= j < upto && j < h3vals.len() && covers(h3vals[j], c)
}

/// The emitted cells are exactly the requested cells covered by one of the
/// first `upto` raw rows.
pub open spec fn emitted_exactly(
    h3vals: Seq<u64>,
    requested: Seq<u64>,
    cells: Seq<u64>,
    upto: int,
) -> bool {
    forall|c: u64| #![trigger cells.contains(c)]
        cells.contains(c) <==> (requested.contains(c) && covered_upto(h3vals, upto, c))
}

/// Mid-row scan state: the emitted cells are exactly the requested cells
/// covered by an earlier row, or covered by the current row cell `x` among
/// the first `k` requested.
spec fn scan_state(
    h3vals: Seq<u64>,
    requested: Seq<u64>,
    cells: Seq<u64>,
    j: int,
    x: u64,
    k: int,
) -> bool {
    forall|c: u64| #![trigger cells.contains(c)]
        cells.contains(c) <==> (requested.contains(c) && (covered_upto(h3vals, j, c) || (covers(
            x,
            c,
        ) && requested.take(k).contains(c))))
}

/// The position of the distinguished `h3index` column, if present.
pub open spec fn h3_index_column(cols: Seq<(Seq<char>, ColumnData)>) -> Option<int> {
    if exists|i: int| 0 <= i < cols.len() && cols[i].0 == "h3index"@ {
        Some(choose|i: int| 0 <= i < cols.len() && cols[i].0 == "h3index"@)
    } else {
        None
    }
}

/// The values of a cell-key column.
pub open spec fn u64s_of(col: ColumnData) -> Seq<u64> {
    match col {
        ColumnData::U64(v) => v@,
        _ => Seq::empty(),
    }
}

/// What ties an uncompacted batch to its raw batch: the source row of every
/// output row, and the cell written into its `h3index` column.
pub open spec fn uncompact_witness(
    src: Seq<(Seq<char>, ColumnData)>,
    out: Seq<(Seq<char>, ColumnData)>,
    h: int,
    requested: Seq<u64>,
    rows: Seq<usize>,
    cells: Seq<u64>,
) -> bool {
    let h3vals = u64s_of(src[h].1);
    &&& rows.len() == cells.len()
    &&& forall|k: int|
        0 <= k < rows.len() ==> (#[trigger] rows[k]) < h3vals.len() && covers(
            h3vals[rows[k] as int],
            cells[k],
        ) && requested.contains(cells[k])
    &&& cells.no_duplicates()
    &&& forall|c: u64|
        cells.contains(c) <==> (requested.contains(c) && covered_by_any(h3vals, c))
    &&& 0 <= h < out.len()
    &&& out[h].1.values() == cells.map_values(|c: u64| ColValue::U64(c))
    &&& forall|i: int|
        0 <= i < out.len() && i != h ==> (#[trigger] out[i]).1.values() == rows.map_values(
            |j: usize| src[i].1.values()[j as int],
        )
}

/// Everything uncompacting promises of a successful result: the raw batch
/// has its cell-key column, the shape of the output matches the input, and
/// a witness ties every output row to a source row and a requested cell.
pub open spec fn uncompact_ok(
    src: Seq<(Seq<char>, ColumnData)>,
    requested: Seq<u64>,
    out: ColumnBatch,
) -> bool {
    &&& h3_index_column(src) is Some
    &&& src[h3_index_column(src)->0].1 is U64
    &&& out.wf()
    &&& out@.len() == src.len()
    &&& forall|i: int|
        0 <= i < src.len() ==> (#[trigger] out@[i]).0 == src[i].0 && out@[i].1.kind_name_spec()
            == src[i].1.kind_name_spec()
    &&& exists|rows: Seq<usize>, cells: Seq<u64>|
        uncompact_witness(src, out@, h3_index_column(src)->0, requested, rows, cells)
}

/// Expands the coarse rows of a raw batch to the requested descendant
/// cells.
///
/// Every output row carries a requested cell in `h3index` and copies the
/// other columns from a raw row whose cell covers it; a requested cell is
/// emitted exactly once when some raw row covers it, never twice, and cells
/// nobody requested are dropped. Fails on an invalid or mixed-resolution
/// requested cell, and when the raw batch has no `h3index` column of cell
/// type.
pub fn uncompact(batch: &ColumnBatch, requested: &Vec<u64>) -> (r: Result<ColumnBatch, Error>)
    requires
        batch.wf(),
    ensures
        match r {
            Ok(out) => (requested@.len() == 0 || cells_issue(
                requested@,
                cell_res(requested@[0]),
            ) is None) && uncompact_ok(batch@, requested@, out),
            Err(e) => {
                if requested@.len() > 0 && cells_issue(requested@, cell_res(requested@[0]))
                    is Some {
                    Some(e@) == cells_issue(requested@, cell_res(requested@[0]))
                } else {
                    !(h3_index_column(batch@) is Some && batch@[h3_index_column(batch@)->0].1
                        is U64) && e@ is DatabaseError
                }
            },
        },
{
    let ghost cells = requested@;
    if requested.len() > 0 {
        let first = requested[0];
        if !cell_is_valid(first) {
            return Err(Error::InvalidCell);
        }
        let target = cell_resolution(first);
        let mut i: usize = 0;
        while i < requested.len()
            invariant
                i <= cells.len(),
                cells == requested@,
                cells.len() > 0,
                cell_valid(cells[0]),
                target as u64 == cell_res(cells[0]),
                forall|j: int|
                    0 <= j < i ==> cell_valid(#[trigger] cells[j]) && cell_res(cells[j])
                        == target as u64,
            decreases cells.len() - i,
        {
            let c = requested[i];
            if !cell_is_valid(c) {
                proof {
                    lemma_cells_issue_skip(cells, target as u64, i as int);
                    assert(cells.skip(i as int)[0] == cells[i as int]);
                    assert(cells_issue(cells, target as u64) == Some(ErrorSpec::InvalidCell));
                }
                return Err(Error::InvalidCell);
            }
            if cell_resolution(c) != target {
                proof {
                    lemma_cells_issue_skip(cells, target as u64, i as int);
                    assert(cells.skip(i as int)[0] == cells[i as int]);
                    assert(cells_issue(cells, target as u64) == Some(
                        ErrorSpec::MixedResolutions,
                    ));
                }
                return Err(Error::MixedResolutions);
            }
            i += 1;
        }
        proof {
            lemma_cells_issue_skip(cells, target as u64, cells.len() as int);
            assert(cells.skip(cells.len() as int) =~= Seq::<u64>::empty());
            assert(cells_issue(cells, target as u64) is None);
            lemma_cells_issue_none(cells, target as u64);
        }
    }
    uncompact_rows(batch, requested)
}

/// The reshaping core of [`uncompact`], over requested cells already known
/// to be valid and of one resolution.
#[verifier::rlimit(60)]
fn uncompact_rows(batch: &ColumnBatch, requested: &Vec<u64>) -> (r: Result<ColumnBatch, Error>)
    requires
        batch.wf(),
        forall|i: int|
            0 <= i < requested@.len() ==> cell_valid(#[trigger] requested@[i]) && cell_res(
                requested@[i],
            ) == cell_res(requested@[0]),
    ensures
        match r {
            Ok(out) => uncompact_ok(batch@, requested@, out),
            Err(e) => {
                &&& !(h3_index_column(batch@) is Some && batch@[h3_index_column(batch@)->0].1
                    is U64)
                &&& e@ is DatabaseError
            },
        },
{
    // Locate the h3index column.
    let n_cols = batch.num_columns();
    let key = "h3index".to_owned();
    let mut h: usize = 0;
    loop
        invariant
            n_cols == batch@.len(),
            key@ == "h3index"@,
            h <= n_cols,
            forall|j: int| 0 <= j < h ==> (#[trigger] batch@[j]).0 != "h3index"@,
        ensures
            h <= n_cols,
            h == n_cols ==> forall|j: int| 0 <= j < n_cols ==> (#[trigger] batch@[j]).0 != "h3index"@,
            h < n_cols ==> batch@[h as int].0 == "h3index"@,
        decreases n_cols - h,
    {
        if h >= n_cols {
            break;
        }
        let name = batch.column_name_at(h);
        if *name == key {
            break;
        }
        h += 1;
    }
    if h >= n_cols {
        proof {
            if h3_index_column(batch@) is Some {
                let w = choose|i: int| 0 <= i < batch@.len() && batch@[i].0 == "h3index"@;
            }
        }
        return Err(Error::DatabaseError("result batch has no h3index column".to_owned()));
    }
    proof {
        assert(h3_index_column(batch@) is Some);
        let w = h3_index_column(batch@)->0;
        if w != h as int {
            assert(batch@[w].0 == batch@[h as int].0);
        }
        assert(h3_index_column(batch@) == Some(h as int));
    }
    let h3col = batch.column_data_at(h);
    let h3vec: &Vec<u64> = match h3col {
        ColumnData::U64(v) => v,
        _ => {
            return Err(Error::DatabaseError("h3index column is not a cell column".to_owned()));
        },
    };
    let ghost h3vals = h3vec@;
    let n_rows = h3vec.len();
    let target: u8 = if requested.len() == 0 {
        0
    } else {
        cell_resolution(requested[0])
    };

    // Decide, row by row, which requested cells each raw row contributes.
    let mut rows: Vec<usize> = Vec::new();
    let mut cells: Vec<u64> = Vec::new();
    let mut j: usize = 0;
    while j < n_rows
        invariant
            n_rows == h3vals.len(),
            h3vals == h3vec@,
            j <= n_rows,
            requested@.len() > 0 ==> target as u64 == cell_res(requested@[0]),
            forall|i: int|
                0 <= i < requested@.len() ==> cell_valid(#[trigger] requested@[i]) && cell_res(
                    requested@[i],
                ) == cell_res(requested@[0]),
            rows@.len() == cells@.len(),
            forall|k: int|
                0 <= k < rows@.len() ==> (#[trigger] rows@[k]) < h3vals.len() && covers(
                    h3vals[rows@[k] as int],
                    cells@[k],
                ) && requested@.contains(cells@[k]),
            cells@.no_duplicates(),
            emitted_exactly(h3vals, requested@, cells@, j as int),
        decreases n_rows - j,
    {
        let x = h3vec[j];
        let rx = cell_resolution(x);
        if rx <= target {
            proof {
                assert(requested@.take(0) =~= Seq::<u64>::empty());
                assert forall|c2: u64| #![trigger cells@.contains(c2)]
                    cells@.contains(c2) <==> (requested@.contains(c2) && (covered_upto(
                        h3vals,
                        j as int,
                        c2,
                    ) || (covers(x, c2) && requested@.take(0).contains(c2)))) by {
                    assert(cells@.contains(c2) <==> (requested@.contains(c2) && covered_upto(
                        h3vals,
                        j as int,
                        c2,
                    )));
                }
                assert(scan_state(h3vals, requested@, cells@, j as int, x, 0));
            }
            let mut k: usize = 0;
            while k < requested.len()
                invariant
                    n_rows == h3vals.len(),
                    h3vals == h3vec@,
                    j < n_rows,
                    x == h3vals[j as int],
                    rx as u64 == cell_res(x),
                    requested@.len() > 0 ==> target as u64 == cell_res(requested@[0]),
                    rx <= target,
                    forall|i: int|
                        0 <= i < requested@.len() ==> cell_valid(#[trigger] requested@[i])
                            && cell_res(requested@[i]) == cell_res(requested@[0]),
                    k <= requested@.len(),
                    rows@.len() == cells@.len(),
                    forall|m: int|
                        0 <= m < rows@.len() ==> (#[trigger] rows@[m]) < h3vals.len() && covers(
                            h3vals[rows@[m] as int],
                            cells@[m],
                        ) && requested@.contains(cells@[m]),
                    cells@.no_duplicates(),
                    scan_state(h3vals, requested@, cells@, j as int, x, k as int),
                decreases requested@.len() - k,
            {
                let c = requested[k];
                let p = cell_parent(c, rx);
                let ghost old_cells = cells@;
                let ghost old_rows = rows@;
                if p == x && !u64_vec_contains(&cells, c) {
                    rows.push(j);
                    cells.push(c);
                    proof {
                        assert(covers(x, c));
                        assert(requested@[k as int] == c);
                        assert(requested@.contains(c));
                        assert forall|m: int|
                            0 <= m < rows@.len() implies (#[trigger] rows@[m]) < h3vals.len()
                            && covers(h3vals[rows@[m] as int], cells@[m]) && requested@.contains(
                            cells@[m],
                        ) by {
                            if m < rows@.len() - 1 {
                                assert(rows@[m] == old_rows[m]);
                                assert(cells@[m] == old_cells[m]);
                            } else {
                                assert(rows@[m] == j);
                                assert(cells@[m] == c);
                            }
                        }
                        assert forall|a: int, b: int|
                            0 <= a < b < cells@.len() implies cells@[a] != cells@[b] by {
                            if b == cells@.len() - 1 {
                                assert(cells@[a] == old_cells[a]);
                                assert(old_cells.contains(old_cells[a]));
                            }
                        }
                        assert(cells@.no_duplicates());
                        assert forall|c2: u64| #![trigger cells@.contains(c2)]
                            cells@.contains(c2) <==> (requested@.contains(c2) && (covered_upto(
                                h3vals,
                                j as int,
                                c2,
                            ) || (covers(x, c2) && requested@.take(k + 1).contains(c2)))) by {
                            assert(old_cells.contains(c2) <==> (requested@.contains(c2) && (
                            covered_upto(h3vals, j as int, c2) || (covers(x, c2)
                                && requested@.take(k as int).contains(c2)))));
                            if c2 == c {
                                assert(cells@[cells@.len() - 1] == c);
                                assert(cells@.contains(c2));
                                assert(requested@.take(k + 1)[k as int] == c);
                                assert(requested@.take(k + 1).contains(c2));
                            } else {
                                assert(cells@.contains(c2) <==> old_cells.contains(c2)) by {
                                    if cells@.contains(c2) {
                                        let m = choose|m: int|
                                            0 <= m < cells@.len() && cells@[m] == c2;
                                        assert(old_cells[m] == c2);
                                    }
                                    if old_cells.contains(c2) {
                                        let m = choose|m: int|
                                            0 <= m < old_cells.len() && old_cells[m] == c2;
                                        assert(cells@[m] == c2);
                                    }
                                }
                                assert(requested@.take(k + 1).contains(c2) <==> requested@.take(
                                    k as int,
                                ).contains(c2)) by {
                                    if requested@.take(k + 1).contains(c2) {
                                        let m2 = choose|m2: int|
                                            0 <= m2 < k + 1 && #[trigger] requested@.take(k + 1)[m2]
                                                == c2;
                                        assert(m2 != k);
                                        assert(requested@.take(k as int)[m2] == c2);
                                    }
                                    if requested@.take(k as int).contains(c2) {
                                        let m2 = choose|m2: int|
                                            0 <= m2 < k && #[trigger] requested@.take(k as int)[m2]
                                                == c2;
                                        assert(requested@.take(k + 1)[m2] == c2);
                                    }
                                }
                            }
                        }
                        assert(scan_state(h3vals, requested@, cells@, j as int, x, k + 1));
                    }
                } else {
                    proof {
                        assert forall|c2: u64| #![trigger cells@.contains(c2)]
                            cells@.contains(c2) <==> (requested@.contains(c2) && (covered_upto(
                                h3vals,
                                j as int,
                                c2,
                            ) || (covers(x, c2) && requested@.take(k + 1).contains(c2)))) by {
                            assert(cells@.contains(c2) <==> (requested@.contains(c2) && (
                            covered_upto(h3vals, j as int, c2) || (covers(x, c2)
                                && requested@.take(k as int).contains(c2)))));
                            assert(requested@.take(k + 1).contains(c2) <==> (requested@.take(
                                k as int,
                            ).contains(c2) || c2 == c)) by {
                                if requested@.take(k + 1).contains(c2) {
                                    let m2 = choose|m2: int|
                                        0 <= m2 < k + 1 && #[trigger] requested@.take(k + 1)[m2]
                                            == c2;
                                    if m2 < k {
                                        assert(requested@.take(k as int)[m2] == c2);
                                    }
                                }
                                if requested@.take(k as int).contains(c2) {
                                    let m2 = choose|m2: int|
                                        0 <= m2 < k && #[trigger] requested@.take(k as int)[m2]
                                            == c2;
                                    assert(requested@.take(k + 1)[m2] == c2);
                                }
                                if c2 == c {
                                    assert(requested@.take(k + 1)[k as int] == c2);
                                }
                            }
                            if c2 == c && covers(x, c) {
                                assert(parent_at(c, rx as u64) == p);
                                assert(p == x);
                                assert(cells@.contains(c));
                            }
                        }
                        assert(scan_state(h3vals, requested@, cells@, j as int, x, k + 1));
                    }
                }
                k += 1;
            }
            proof {
                assert forall|c2: u64| #![trigger cells@.contains(c2)]
                    cells@.contains(c2) <==> (requested@.contains(c2) && covered_upto(
                        h3vals,
                        j + 1,
                        c2,
                    )) by {
                    assert(cells@.contains(c2) <==> (requested@.contains(c2) && (covered_upto(
                        h3vals,
                        j as int,
                        c2,
                    ) || (covers(x, c2) && requested@.take(requested@.len() as int).contains(
                        c2,
                    )))));
                    assert(requested@.take(requested@.len() as int) =~= requested@);
                    if requested@.contains(c2) && covered_upto(h3vals, j + 1, c2) {
                        let j2 = choose|j2: int|
                            0 <= j2 < j + 1 && j2 < h3vals.len() && covers(h3vals[j2], c2);
                        if j2 < j as int {
                            assert(covered_upto(h3vals, j as int, c2));
                        } else {
                            assert(covers(x, c2));
                        }
                    }
                    if requested@.contains(c2) && covered_upto(h3vals, j as int, c2) {
                        let j2 = choose|j2: int|
                            0 <= j2 < j as int && j2 < h3vals.len() && covers(h3vals[j2], c2);
                        assert(covered_upto(h3vals, j + 1, c2));
                    }
                    if requested@.contains(c2) && covers(x, c2) {
                        assert(covers(h3vals[j as int], c2));
                        assert(covered_upto(h3vals, j + 1, c2));
                    }
                }
                assert(emitted_exactly(h3vals, requested@, cells@, j + 1));
            }
        } else {
            proof {
                assert forall|c2: u64| #![trigger cells@.contains(c2)]
                    cells@.contains(c2) <==> (requested@.contains(c2) && covered_upto(
                        h3vals,
                        j + 1,
                        c2,
                    )) by {
                    assert(cells@.contains(c2) <==> (requested@.contains(c2) && covered_upto(
                        h3vals,
                        j as int,
                        c2,
                    )));
                    if requested@.contains(c2) && covered_upto(h3vals, j + 1, c2) {
                        let j2 = choose|j2: int|
                            0 <= j2 < j + 1 && j2 < h3vals.len() && covers(h3vals[j2], c2);
                        if j2 == j as int {
                            assert(cell_res(c2) == cell_res(requested@[0]));
                            assert(cell_res(x) > target as u64);
                            assert(false);
                        } else {
                            assert(covered_upto(h3vals, j as int, c2));
                        }
                    }
                    if requested@.contains(c2) && covered_upto(h3vals, j as int, c2) {
                        let j2 = choose|j2: int|
                            0 <= j2 < j as int && j2 < h3vals.len() && covers(h3vals[j2], c2);
                        assert(covered_upto(h3vals, j + 1, c2));
                    }
                }
                assert(emitted_exactly(h3vals, requested@, cells@, j + 1));
            }
        }
        j += 1;
    }
    proof {
        assert forall|c2: u64| covered_by_any(h3vals, c2) implies covered_upto(
            h3vals,
            n_rows as int,
            c2,
        ) by {
            let j2 = choose|j2: int| 0 <= j2 < h3vals.len() && covers(h3vals[j2], c2);
        }
    }

    // Reshape every column to the chosen rows; the h3index column carries
    // the requested cells instead.
    let mut out = ColumnBatch::new();
    let mut i: usize = 0;
    while i < n_cols
        invariant
            n_cols == batch@.len(),
            batch.wf(),
            h < n_cols,
            batch@[h as int].1 == ColumnData::U64(*h3vec),
            h3vals == h3vec@,
            n_rows == h3vals.len(),
            rows@.len() == cells@.len(),
            forall|k: int|
                0 <= k < rows@.len() ==> (#[trigger] rows@[k]) < h3vals.len(),
            i <= n_cols,
            out.wf(),
            out@.len() == i,
            forall|i2: int|
                0 <= i2 < i ==> (#[trigger] out@[i2]).0 == batch@[i2].0
                    && out@[i2].1.kind_name_spec() == batch@[i2].1.kind_name_spec(),
            forall|i2: int|
                0 <= i2 < i && i2 != h ==> (#[trigger] out@[i2]).1.values() == rows@.map_values(
                    |j2: usize| batch@[i2].1.values()[j2 as int],
                ),
            i > h ==> out@[h as int].1.values() == cells@.map_values(
                |c: u64| ColValue::U64(c),
            ),
        decreases n_cols - i,
    {
        let name = batch.column_name_at(i).clone();
        let data = if i == h {
            let col = ColumnData::U64(cells.clone());
            proof {
                assert(col.values() =~= cells@.map_values(|c: u64| ColValue::U64(c)));
                assert(col.kind_name_spec() == batch@[i as int].1.kind_name_spec());
            }
            col
        } else {
            let src = batch.column_data_at(i);
            proof {
                assert(batch@[i as int].1.values().len() == batch.num_rows_spec());
                assert(batch@[h as int].1.values().len() == batch.num_rows_spec());
                assert(batch@[h as int].1.values().len() == h3vals.len());
            }
            src.gathered(&rows)
        };
        proof {
            assert forall|i2: int| 0 <= i2 < out@.len() implies (#[trigger] out@[i2]).0
                != name@ by {
                assert(out@[i2].0 == batch@[i2].0);
                assert(batch@[i2].0 != batch@[i as int].0);
            }
            if out@.len() > 0 {
                assert(out.num_rows_spec() == out@[0].1.values().len());
                if h == 0 {
                    assert(out@[0].1.values().len() == cells@.len());
                } else {
                    assert(out@[0].1.values() == rows@.map_values(
                        |j2: usize| batch@[0].1.values()[j2 as int],
                    ));
                }
                assert(data.values().len() == rows@.len());
            }
        }
        out.push_column(name, data);
        i += 1;
    }
    proof {
        assert(uncompact_witness(batch@, out@, h as int, requested@, rows@, cells@));
        assert(h3_index_column(batch@)->0 == h as int);
        assert(uncompact_witness(
            batch@,
            out@,
            h3_index_column(batch@)->0,
            requested@,
            rows@,
            cells@,
        ));
        assert(exists|rows2: Seq<usize>, cells2: Seq<u64>|
            uncompact_witness(
                batch@,
                out@,
                h3_index_column(batch@)->0,
                requested@,
                rows2,
                cells2,
            ));
        assert(uncompact_ok(batch@, requested@, out));
    }
    Ok(out)
}

} // verus!
