//! The query planner.
//!
//! Given cells at one target resolution and a tableset, the planner emits
//! one SELECT per reachable resolution — the base table at the target
//! resolution, compacted tables at strictly coarser ones — and joins them
//! with ` union all `, in ascending resolution order. Each per-resolution
//! SELECT reads the ancestors of the queried cells at that resolution.

use vstd::prelude::*;

use crate::cells::{cell_is_valid, cell_parent, cell_res, cell_resolution, cell_valid, parent_at};
use crate::errors::{Error, ErrorSpec};
use crate::tables::{table_name_spec, Table, TableSpec};
use crate::tableset::{ColumnSchema, TableSet};
use crate::text::{
    chars_contain, chars_replace, chars_string, contains_seq, dec_str, dedup_first, join_chars,
    join_with, replace_seq, str_chars, u64_to_dec_chars, u64_vec_contains,
};

verus! {

/// How the planner phrases each per-resolution SELECT: generated from the
/// column schema, or substituted into a caller template that must contain
/// the placeholders `<[table]>` and `<[h3indexes]>`.
#[derive(Clone, Debug, PartialEq, Eq)]
pub enum TableSetQuery {
    AutoGenerated,
    TemplatedSelect(String),
}

impl TableSetQuery {
    /// `None` for the auto-generated mode; the template text otherwise.
    pub open spec fn template_view(&self) -> Option<Seq<char>> {
        match self {
            TableSetQuery::AutoGenerated => None,
            TableSetQuery::TemplatedSelect(s) => Some(s@),
        }
    }

    /// The first placeholder the query text is missing, if any. The
    /// auto-generated mode needs none.
    pub open spec fn missing_placeholder(&self) -> Option<Seq<char>> {
        missing_placeholder_of(self.template_view())
    }

    /// Checks that a templated query holds both placeholders.
    pub fn validate(&self) -> (r: Result<(), Error>)
        ensures
            match r {
                Ok(()) => self.missing_placeholder() is None,
                Err(e) => match self.missing_placeholder() {
                    Option::Some(p) => e@ == ErrorSpec::MissingQueryPlaceholder(p),
                    Option::None => false,
                },
            },
    {
        match self {
            TableSetQuery::AutoGenerated => Ok(()),
            TableSetQuery::TemplatedSelect(querystring) => {
                let qchars = str_chars(querystring.as_str());
                let table_ph = str_chars("<[table]>");
                if !chars_contain(&qchars, &table_ph) {
                    return Err(Error::MissingQueryPlaceholder("<[table]>".to_owned()));
                }
                let indexes_ph = str_chars("<[h3indexes]>");
                if !chars_contain(&qchars, &indexes_ph) {
                    return Err(Error::MissingQueryPlaceholder("<[h3indexes]>".to_owned()));
                }
                Ok(())
            },
        }
    }
}

impl From<Option<String>> for TableSetQuery {
    /// `Some` template text selects the templated mode, `None` the
    /// auto-generated one.
    fn from(instr: Option<String>) -> (r: Self) {
        match instr {
            Option::Some(s) => TableSetQuery::TemplatedSelect(s),
            Option::None => TableSetQuery::AutoGenerated,
        }
    }
}

impl vstd::std_specs::convert::FromSpecImpl<Option<String>> for TableSetQuery {
    open spec fn obeys_from_spec() -> bool {
        true
    }

    open spec fn from_spec(instr: Option<String>) -> Self {
        match instr {
            Option::Some(s) => TableSetQuery::TemplatedSelect(s),
            Option::None => TableSetQuery::AutoGenerated,
        }
    }
}

impl TableSetQuery {
    /// The counterpart of the `From` conversion: the template text, if any.
    pub fn into_template(self) -> (r: Option<String>)
        ensures
            match r {
                Option::Some(s) => self.template_view() == Some(s@),
                Option::None => self.template_view() is None,
            },
    {
        match self {
            TableSetQuery::AutoGenerated => None,
            TableSetQuery::TemplatedSelect(s) => Some(s),
        }
    }
}

/// The first placeholder a template is missing, if any; `None` stands for
/// the auto-generated mode, which needs none.
pub open spec fn missing_placeholder_of(template: Option<Seq<char>>) -> Option<Seq<char>> {
    match template {
        Option::None => None,
        Option::Some(s) => {
            if !contains_seq(s, "<[table]>"@) {
                Some("<[table]>"@)
            } else if !contains_seq(s, "<[h3indexes]>"@) {
                Some("<[h3indexes]>"@)
            } else {
                None
            }
        },
    }
}

/// The resolutions the planner reads for a target resolution, ascending:
/// every resolution up to `upto` that has a base or a compacted table.
pub open spec fn plan_resolutions(base: Set<u8>, compacted: Set<u8>, upto: int) -> Seq<u8>
    decreases upto,
{
    if upto < 0 {
        Seq::empty()
    } else if upto == 0 {
        if base.contains(0u8) || compacted.contains(0u8) {
            seq![0u8]
        } else {
            Seq::empty()
        }
    } else {
        let pre = plan_resolutions(base, compacted, upto - 1);
        if base.contains(upto as u8) || compacted.contains(upto as u8) {
            pre.push(upto as u8)
        } else {
            pre
        }
    }
}

/// The ancestors of the queried cells at one resolution, first occurrence
/// order, duplicates removed.
pub open spec fn ancestors_spec(cells: Seq<u64>, r: u8) -> Seq<u64> {
    dedup_first(cells.map_values(|c: u64| parent_at(c, r as u64)))
}

/// The cell-list literal: `[v1,v2,…,vn]`, decimal, no spaces.
pub open spec fn in_list_spec(vals: Seq<u64>) -> Seq<char> {
    "["@ + join_with(vals.map_values(|v: u64| dec_str(v as int)), ","@) + "]"@
}

/// The table read at resolution `r` for a target resolution: the base table
/// at the target itself, the compacted table at coarser resolutions.
pub open spec fn planned_table_name(basename: Seq<char>, r: u8, target: u8) -> Seq<char> {
    table_name_spec(basename, r, r != target)
}

/// One per-resolution SELECT, over an already rendered cell-list literal.
pub open spec fn part_with_list(
    ts: TableSet,
    list: Seq<char>,
    r: u8,
    target: u8,
    template: Option<Seq<char>>,
) -> Seq<char> {
    let tablename = planned_table_name(ts.basename@, r, target);
    match template {
        Option::None => "select h3index, "@ + join_with(
            ColumnSchema::selectable_names(ts.columns@),
            ", "@,
        ) + " from "@ + tablename + " where h3index in "@ + list,
        Option::Some(s) => replace_seq(
            replace_seq(s, "<[table]>"@, tablename),
            "<[h3indexes]>"@,
            list,
        ),
    }
}

/// One per-resolution SELECT.
pub open spec fn part_spec(
    ts: TableSet,
    cells: Seq<u64>,
    r: u8,
    target: u8,
    template: Option<Seq<char>>,
) -> Seq<char> {
    part_with_list(ts, in_list_spec(ancestors_spec(cells, r)), r, target, template)
}

/// The views of rendered parts.
pub open spec fn part_views(parts: Seq<Vec<char>>) -> Seq<Seq<char>> {
    parts.map_values(|p: Vec<char>| p@)
}

/// The per-resolution SELECTs for a sequence of resolutions.
pub open spec fn parts_of(
    ts: TableSet,
    cells: Seq<u64>,
    rezs: Seq<u8>,
    target: u8,
    template: Option<Seq<char>>,
) -> Seq<Seq<char>> {
    rezs.map_values(|z: u8| part_spec(ts, cells, z, target, template))
}

/// The whole planned statement: the per-resolution SELECTs in ascending
/// resolution order, joined with ` union all `.
pub open spec fn plan_spec(
    ts: TableSet,
    cells: Seq<u64>,
    target: u8,
    template: Option<Seq<char>>,
) -> Seq<char> {
    join_with(
        parts_of(
            ts,
            cells,
            plan_resolutions(ts.base_h3_resolutions@, ts.compacted_h3_resolutions@, target as int),
            target,
            template,
        ),
        " union all "@,
    )
}

/// The first problem among the queried cells, scanned front to back: an
/// invalid cell, or one whose resolution differs from the target.
pub open spec fn cells_issue(cells: Seq<u64>, target: u64) -> Option<ErrorSpec>
    decreases cells.len(),
{
    if cells.len() == 0 {
        None
    } else if !cell_valid(cells[0]) {
        Some(ErrorSpec::InvalidCell)
    } else if cell_res(cells[0]) != target {
        Some(ErrorSpec::MixedResolutions)
    } else {
        cells_issue(cells.skip(1), target)
    }
}

/// What the planner returns: the statement, or the first error in the order
/// the checks run — a missing placeholder, an empty cell list, an invalid
/// or mixed-resolution cell, or a tableset with no readable resolution.
pub open spec fn plan_result(
    ts: TableSet,
    cells: Seq<u64>,
    template: Option<Seq<char>>,
) -> Result<Seq<char>, ErrorSpec> {
    match missing_placeholder_of(template) {
        Option::Some(p) => Err(ErrorSpec::MissingQueryPlaceholder(p)),
        Option::None => {
            if cells.len() == 0 {
                Err(ErrorSpec::EmptyIndexes)
            } else if !cell_valid(cells[0]) {
                Err(ErrorSpec::InvalidCell)
            } else {
                let target = cell_res(cells[0]) as u8;
                match cells_issue(cells, target as u64) {
                    Option::Some(e) => Err(e),
                    Option::None => {
                        if plan_resolutions(
                            ts.base_h3_resolutions@,
                            ts.compacted_h3_resolutions@,
                            target as int,
                        ).len() == 0 {
                            Err(ErrorSpec::NoQueryableTables)
                        } else {
                            Ok(plan_spec(ts, cells, target, template))
                        }
                    },
                }
            }
        },
    }
}

/// The resolutions the planner reads are exactly those of the tableset at
/// or below the bound, each once, in ascending order.
pub proof fn lemma_plan_resolutions_members(base: Set<u8>, compacted: Set<u8>, upto: int, r: u8)
    ensures
        plan_resolutions(base, compacted, upto).contains(r) <==> ((base.contains(r)
            || compacted.contains(r)) && 0 <= r <= upto),
    decreases upto,
{
    let s = plan_resolutions(base, compacted, upto);
    if upto < 0 {
        assert(!s.contains(r));
    } else if upto == 0 {
        if base.contains(0u8) || compacted.contains(0u8) {
            assert(s == seq![0u8]);
            if r == 0 {
                assert(s[0] == r);
                assert(s.contains(r));
            } else {
                assert(forall|i: int| 0 <= i < s.len() ==> s[i] == 0u8);
            }
        } else {
            assert(s.len() == 0);
        }
    } else {
        lemma_plan_resolutions_members(base, compacted, upto - 1, r);
        let pre = plan_resolutions(base, compacted, upto - 1);
        if base.contains(upto as u8) || compacted.contains(upto as u8) {
            assert(s == pre.push(upto as u8));
            if pre.contains(r) || r == upto as u8 {
                if r == upto as u8 {
                    assert(s[s.len() - 1] == r);
                } else {
                    let i = choose|i: int| 0 <= i < pre.len() && pre[i] == r;
                    assert(s[i] == r);
                }
                assert(s.contains(r));
            } else {
                assert forall|i: int| 0 <= i < s.len() implies s[i] != r by {
                    if i < pre.len() {
                        assert(s[i] == pre[i]);
                    }
                }
            }
        } else {
            assert(s == pre);
        }
    }
}

/// Planner completeness law: the statement holds one per-resolution SELECT
/// for exactly the resolutions of the tableset at or below the target, in
/// ascending order; part `i` of the plan is the SELECT for the `i`-th such
/// resolution.
pub proof fn lemma_planner_completeness(
    ts: TableSet,
    cells: Seq<u64>,
    target: u8,
    template: Option<Seq<char>>,
)
    ensures
        forall|r: u8| #![auto]
            plan_resolutions(
                ts.base_h3_resolutions@,
                ts.compacted_h3_resolutions@,
                target as int,
            ).contains(r) <==> ((ts.base_h3_resolutions@.contains(r)
                || ts.compacted_h3_resolutions@.contains(r)) && r <= target),
        parts_of(
            ts,
            cells,
            plan_resolutions(ts.base_h3_resolutions@, ts.compacted_h3_resolutions@, target as int),
            target,
            template,
        ).len() == plan_resolutions(
            ts.base_h3_resolutions@,
            ts.compacted_h3_resolutions@,
            target as int,
        ).len(),
        forall|i: int|
            0 <= i < plan_resolutions(
                ts.base_h3_resolutions@,
                ts.compacted_h3_resolutions@,
                target as int,
            ).len() ==> #[trigger] parts_of(
                ts,
                cells,
                plan_resolutions(
                    ts.base_h3_resolutions@,
                    ts.compacted_h3_resolutions@,
                    target as int,
                ),
                target,
                template,
            )[i] == part_spec(
                ts,
                cells,
                plan_resolutions(
                    ts.base_h3_resolutions@,
                    ts.compacted_h3_resolutions@,
                    target as int,
                )[i],
                target,
                template,
            ),
{
    assert forall|r: u8| #![auto]
        plan_resolutions(
            ts.base_h3_resolutions@,
            ts.compacted_h3_resolutions@,
            target as int,
        ).contains(r) <==> ((ts.base_h3_resolutions@.contains(r)
            || ts.compacted_h3_resolutions@.contains(r)) && r <= target) by {
        lemma_plan_resolutions_members(
            ts.base_h3_resolutions@,
            ts.compacted_h3_resolutions@,
            target as int,
            r,
        );
    }
}

/// Planner determinism law: the planner's result is a function of the
/// tableset's abstract state (basename, resolution sets, column schema), the
/// cell list, and the query text alone. Two calls on equal state return the
/// same statement.
pub proof fn lemma_planner_deterministic(
    ts1: TableSet,
    ts2: TableSet,
    cells: Seq<u64>,
    q1: TableSetQuery,
    q2: TableSetQuery,
)
    requires
        ts1.basename@ == ts2.basename@,
        ts1.base_h3_resolutions@ == ts2.base_h3_resolutions@,
        ts1.compacted_h3_resolutions@ == ts2.compacted_h3_resolutions@,
        ts1.columns@ == ts2.columns@,
        q1.template_view() == q2.template_view(),
    ensures
        plan_result(ts1, cells, q1.template_view()) == plan_result(
            ts2,
            cells,
            q2.template_view(),
        ),
{
    let template = q1.template_view();
    if missing_placeholder_of(template) is None && cells.len() > 0 && cell_valid(cells[0]) {
        let target = cell_res(cells[0]) as u8;
        if cells_issue(cells, target as u64) is None {
            let rezs = plan_resolutions(
                ts1.base_h3_resolutions@,
                ts1.compacted_h3_resolutions@,
                target as int,
            );
            assert(plan_resolutions(
                ts2.base_h3_resolutions@,
                ts2.compacted_h3_resolutions@,
                target as int,
            ) == rezs);
            assert forall|z: u8| true implies part_spec(ts1, cells, z, target, template)
                == part_spec(ts2, cells, z, target, template) by {
                assert(planned_table_name(ts1.basename@, z, target) == planned_table_name(
                    ts2.basename@,
                    z,
                    target,
                ));
            }
            assert(parts_of(ts1, cells, rezs, target, template) =~= parts_of(
                ts2,
                cells,
                rezs,
                target,
                template,
            ));
            assert(plan_spec(ts1, cells, target, template) == plan_spec(
                ts2,
                cells,
                target,
                template,
            ));
        }
    }
}

/// A cell list without an issue consists of valid cells at the target
/// resolution throughout.
pub(crate) proof fn lemma_cells_issue_none(cells: Seq<u64>, target: u64)
    requires
        cells_issue(cells, target) is None,
    ensures
        forall|i: int|
            0 <= i < cells.len() ==> cell_valid(#[trigger] cells[i]) && cell_res(cells[i])
                == target,
    decreases cells.len(),
{
    if cells.len() > 0 {
        lemma_cells_issue_none(cells.skip(1), target);
        assert forall|i: int|
            0 <= i < cells.len() implies cell_valid(#[trigger] cells[i]) && cell_res(cells[i])
            == target by {
            if i > 0 {
                assert(cells.skip(1)[i - 1] == cells[i]);
            }
        }
    }
}

/// Scanning a cell list for issues can start after a clean prefix.
pub(crate) proof fn lemma_cells_issue_skip(cells: Seq<u64>, target: u64, i: int)
    requires
        0 <= i <= cells.len(),
        forall|j: int|
            0 <= j < i ==> cell_valid(#[trigger] cells[j]) && cell_res(cells[j]) == target,
    ensures
        cells_issue(cells, target) == cells_issue(cells.skip(i), target),
    decreases i,
{
    if i == 0 {
        assert(cells.skip(0) =~= cells);
    } else {
        lemma_cells_issue_skip(cells, target, i - 1);
        let s = cells.skip(i - 1);
        assert(s[0] == cells[i - 1]);
        assert(cell_valid(s[0]) && cell_res(s[0]) == target);
        assert(s.skip(1) =~= cells.skip(i));
        assert(cells_issue(s, target) == cells_issue(s.skip(1), target));
    }
}

/// The ancestors of the cells at one resolution, in first-occurrence order.
fn ancestors_at(cells: &Vec<u64>, r: u8) -> (anc: Vec<u64>)
    requires
        forall|i: int|
            0 <= i < cells@.len() ==> cell_valid(#[trigger] cells@[i]) && r as u64 <= cell_res(
                cells@[i],
            ),
    ensures
        anc@ == ancestors_spec(cells@, r),
{
    let ghost mapped = cells@.map_values(|c: u64| parent_at(c, r as u64));
    let mut anc: Vec<u64> = Vec::new();
    let mut i: usize = 0;
    while i < cells.len()
        invariant
            i <= cells@.len(),
            mapped == cells@.map_values(|c: u64| parent_at(c, r as u64)),
            forall|j: int|
                0 <= j < cells@.len() ==> cell_valid(#[trigger] cells@[j]) && r as u64 <= cell_res(
                    cells@[j],
                ),
            anc@ == dedup_first(mapped.take(i as int)),
        decreases cells@.len() - i,
    {
        let p = cell_parent(cells[i], r);
        proof {
            let pre = mapped.take(i as int);
            let cur = mapped.take(i + 1);
            assert(cur.drop_last() =~= pre);
            assert(cur.last() == mapped[i as int]);
            assert(mapped[i as int] == parent_at(cells@[i as int], r as u64));
        }
        if !u64_vec_contains(&anc, p) {
            proof {
                assert(!dedup_first(mapped.take(i as int)).contains(p));
            }
            anc.push(p);
        }
        i += 1;
    }
    proof {
        assert(mapped.take(mapped.len() as int) =~= mapped);
    }
    anc
}

/// Renders the cell-list literal `[v1,v2,…]`.
fn in_list_chars(vals: &Vec<u64>) -> (r: Vec<char>)
    ensures
        r@ == in_list_spec(vals@),
{
    let ghost mapped = vals@.map_values(|v: u64| dec_str(v as int));
    let mut parts: Vec<Vec<char>> = Vec::new();
    let mut i: usize = 0;
    while i < vals.len()
        invariant
            i <= vals@.len(),
            mapped == vals@.map_values(|v: u64| dec_str(v as int)),
            parts@.map_values(|p: Vec<char>| p@) == mapped.take(i as int),
        decreases vals@.len() - i,
    {
        let d = u64_to_dec_chars(vals[i]);
        proof {
            assert(mapped.take(i + 1) =~= mapped.take(i as int).push(mapped[i as int]));
            assert(mapped[i as int] == dec_str(vals@[i as int] as int));
        }
        parts.push(d);
        proof {
            assert(parts@.map_values(|p: Vec<char>| p@) =~= mapped.take(i + 1));
        }
        i += 1;
    }
    proof {
        assert(mapped.take(mapped.len() as int) =~= mapped);
    }
    let sep = str_chars(",");
    let joined = join_chars(&parts, &sep);
    let mut r = str_chars("[");
    r.extend_from_slice(joined.as_slice());
    let mut close = str_chars("]");
    r.append(&mut close);
    proof {
        assert(r@ =~= in_list_spec(vals@));
    }
    r
}

/// Builds one per-resolution SELECT.
fn build_part(ts: &TableSet, in_list: &Vec<char>, r: u8, target: u8, query: &TableSetQuery) -> (out:
    Vec<char>)
    ensures
        out@ == part_with_list(*ts, in_list@, r, target, query.template_view()),
{
    let table = Table {
        basename: ts.basename.clone(),
        table_spec: TableSpec { h3_resolution: r, is_compacted: r != target, is_intermediate: false },
    };
    let name_string = table.to_table_name();
    let mut tn = str_chars(name_string.as_str());
    match query {
        TableSetQuery::AutoGenerated => {
            let mut out = str_chars("select h3index, ");
            let mut cols = ts.columns.select_list();
            out.append(&mut cols);
            let mut from_kw = str_chars(" from ");
            out.append(&mut from_kw);
            out.append(&mut tn);
            let mut where_kw = str_chars(" where h3index in ");
            out.append(&mut where_kw);
            out.extend_from_slice(in_list.as_slice());
            proof {
                assert(out@ =~= part_with_list(*ts, in_list@, r, target, query.template_view()));
            }
            out
        },
        TableSetQuery::TemplatedSelect(s) => {
            let schars = str_chars(s.as_str());
            let table_ph = str_chars("<[table]>");
            let idx_ph = str_chars("<[h3indexes]>");
            proof {
                reveal_strlit("<[table]>");
                reveal_strlit("<[h3indexes]>");
            }
            let step1 = chars_replace(&schars, &table_ph, &tn);
            let out = chars_replace(&step1, &idx_ph, in_list);
            out
        },
    }
}

impl TableSet {
    /// Builds the SELECT statement for the given cells: one per-resolution
    /// SELECT for every resolution of the set at or below the cells'
    /// resolution, joined with ` union all ` in ascending resolution order.
    /// Coarser resolutions read the compacted table and the ancestors of the
    /// cells there; the cells' own resolution reads the base table.
    pub fn build_select_query(&self, h3indexes: &Vec<u64>, query: &TableSetQuery) -> (r: Result<
        String,
        Error,
    >)
        ensures
            match r {
                Ok(s) => plan_result(*self, h3indexes@, query.template_view()) == Result::<
                    Seq<char>,
                    ErrorSpec,
                >::Ok(s@),
                Err(e) => plan_result(*self, h3indexes@, query.template_view()) == Result::<
                    Seq<char>,
                    ErrorSpec,
                >::Err(e@),
            },
    {
        match query.validate() {
            Err(e) => {
                return Err(e);
            },
            Ok(_) => {},
        }
        if h3indexes.len() == 0 {
            return Err(Error::EmptyIndexes);
        }
        let first = h3indexes[0];
        if !cell_is_valid(first) {
            return Err(Error::InvalidCell);
        }
        let target = cell_resolution(first);
        let ghost cells = h3indexes@;
        let mut i: usize = 0;
        while i < h3indexes.len()
            invariant
                i <= cells.len(),
                cells == h3indexes@,
                cells.len() > 0,
                cell_valid(cells[0]),
                target as u64 == cell_res(cells[0]),
                target <= 15,
                query.missing_placeholder() is None,
                forall|j: int|
                    0 <= j < i ==> cell_valid(#[trigger] cells[j]) && cell_res(cells[j])
                        == target as u64,
            decreases cells.len() - i,
        {
            let c = h3indexes[i];
            if !cell_is_valid(c) {
                proof {
                    lemma_cells_issue_skip(cells, target as u64, i as int);
                    assert(cells.skip(i as int)[0] == cells[i as int]);
                    assert(cells_issue(cells, target as u64) == Some(ErrorSpec::InvalidCell));
                }
                return Err(Error::InvalidCell);
            }
            if cell_resolution(c) != target {
                proof {
                    lemma_cells_issue_skip(cells, target as u64, i as int);
                    assert(cells.skip(i as int)[0] == cells[i as int]);
                    assert(cells_issue(cells, target as u64) == Some(
                        ErrorSpec::MixedResolutions,
                    ));
                }
                return Err(Error::MixedResolutions);
            }
            i += 1;
        }
        proof {
            lemma_cells_issue_skip(cells, target as u64, cells.len() as int);
            assert(cells.skip(cells.len() as int) =~= Seq::<u64>::empty());
            assert(cells_issue(cells, target as u64) is None);
        }
        let ghost base = self.base_h3_resolutions@;
        let ghost compacted = self.compacted_h3_resolutions@;
        let mut parts: Vec<Vec<char>> = Vec::new();
        let mut rr: u8 = 0;
        while rr <= target
            invariant
                rr <= target + 1,
                target <= 15,
                cells == h3indexes@,
                cells.len() > 0,
                target as u64 == cell_res(cells[0]),
                query.missing_placeholder() is None,
                cells_issue(cells, target as u64) is None,
                base == self.base_h3_resolutions@,
                compacted == self.compacted_h3_resolutions@,
                forall|j: int|
                    0 <= j < cells.len() ==> cell_valid(#[trigger] cells[j]) && cell_res(cells[j])
                        == target as u64,
                part_views(parts@) == parts_of(
                    *self,
                    cells,
                    plan_resolutions(base, compacted, rr as int - 1),
                    target,
                    query.template_view(),
                ),
            decreases target + 1 - rr,
        {
            let ghost pre_rezs = plan_resolutions(base, compacted, rr as int - 1);
            let ghost cur_rezs = plan_resolutions(base, compacted, rr as int);
            if self.base_h3_resolutions.contains(rr) || self.compacted_h3_resolutions.contains(
                rr,
            ) {
                let anc = ancestors_at(h3indexes, rr);
                let in_list = in_list_chars(&anc);
                let part = build_part(self, &in_list, rr, target, query);
                let ghost prev_parts = parts@;
                proof {
                    assert(in_list@ == in_list_spec(ancestors_spec(cells, rr)));
                    assert(part@ == part_spec(*self, cells, rr, target, query.template_view()));
                    assert(cur_rezs =~= pre_rezs.push(rr));
                }
                parts.push(part);
                proof {
                    let lhs = part_views(parts@);
                    let rhs = parts_of(*self, cells, cur_rezs, target, query.template_view());
                    assert(part_views(prev_parts) == parts_of(
                        *self,
                        cells,
                        pre_rezs,
                        target,
                        query.template_view(),
                    ));
                    assert(part_views(prev_parts).len() == prev_parts.len());
                    assert(parts_of(*self, cells, pre_rezs, target, query.template_view()).len()
                        == pre_rezs.len());
                    assert(parts@ == prev_parts.push(part));
                    assert(lhs.len() == parts@.len());
                    assert(rhs.len() == cur_rezs.len());
                    assert(cur_rezs.len() == pre_rezs.len() + 1);
                    assert(lhs.len() == rhs.len());
                    assert forall|j: int| 0 <= j < lhs.len() implies lhs[j] == rhs[j] by {
                        assert(lhs[j] == parts@[j]@);
                        assert(rhs[j] == part_spec(
                            *self,
                            cells,
                            cur_rezs[j],
                            target,
                            query.template_view(),
                        ));
                        if j < lhs.len() - 1 {
                            assert(parts@[j] == prev_parts[j]);
                            assert(part_views(prev_parts)[j] == prev_parts[j]@);
                            assert(parts_of(*self, cells, pre_rezs, target, query.template_view())[j]
                                == part_spec(*self, cells, pre_rezs[j], target, query.template_view()));
                            assert(cur_rezs[j] == pre_rezs[j]);
                        } else {
                            assert(parts@[j] == part);
                            assert(cur_rezs[j] == rr);
                        }
                    }
                    assert(lhs =~= rhs);
                }
            } else {
                proof {
                    assert(cur_rezs =~= pre_rezs);
                }
            }
            rr += 1;
        }
        let ghost final_rezs = plan_resolutions(base, compacted, target as int);
        proof {
            assert(rr == target + 1);
            assert(plan_resolutions(base, compacted, rr as int - 1) == final_rezs);
            assert(part_views(parts@) == parts_of(
                *self,
                cells,
                final_rezs,
                target,
                query.template_view(),
            ));
        }
        if parts.len() == 0 {
            proof {
                assert(final_rezs.len() == 0);
            }
            return Err(Error::NoQueryableTables);
        }
        let sep = str_chars(" union all ");
        let joined = join_chars(&parts, &sep);
        let out = chars_string(&joined);
        proof {
            assert(final_rezs.len() > 0);
            assert(parts@.map_values(|p: Vec<char>| p@) =~= part_views(parts@));
            assert(out@ == plan_spec(*self, cells, target, query.template_view()));
        }
        Ok(out)
    }
}

} // verus!
