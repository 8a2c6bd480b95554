//! The sliding-window driver.
//!
//! A large polygon query is split into windows: the polygon is tessellated
//! at a coarse resolution derived from the target resolution and the largest
//! child count one window may hold, and each coarse cell becomes one window.
//! This module holds the window arithmetic and the per-window decisions; the
//! tessellation, the polygon tests and the database calls stay with the
//! caller, which feeds their outcomes back in.

use vstd::prelude::*;

use crate::cells::{
    cell_children, cell_is_valid, cell_res, cell_resolution, cell_valid, children_at, parent_at,
};
use crate::errors::{Error, ErrorSpec};
use crate::query::{plan_result, TableSetQuery};
use crate::tableset::TableSet;
use crate::text::{chars_string, str_chars};

verus! {

/// How many descendants a hexagonal cell has `diff` resolutions below
/// itself: seven to the power `diff`.
pub open spec fn window_child_bound(diff: nat) -> nat
    decreases diff,
{
    if diff == 0 {
        1
    } else {
        7 * window_child_bound((diff - 1) as nat)
    }
}

/// The child bound grows with the resolution difference.
proof fn lemma_child_bound_monotone(a: nat, b: nat)
    requires
        a <= b,
    ensures
        window_child_bound(a) <= window_child_bound(b),
    decreases b,
{
    if a < b {
        lemma_child_bound_monotone(a, (b - 1) as nat);
        assert(window_child_bound(b) == 7 * window_child_bound((b - 1) as nat));
    }
}

/// The coarse resolution at which a window polygon is tessellated: the
/// coarsest resolution at or below the target whose cells hold at most
/// `window_max_size` descendants at the target resolution.
pub fn window_resolution(target_h3_resolution: u8, window_max_size: u32) -> (r: u8)
    requires
        target_h3_resolution <= 15,
        window_max_size >= 1,
    ensures
        r <= target_h3_resolution,
        window_child_bound((target_h3_resolution - r) as nat) <= window_max_size as nat,
        forall|r2: u8|
            r2 < r ==> #[trigger] window_child_bound((target_h3_resolution - r2) as nat)
                > window_max_size as nat,
{
    let mut r = target_h3_resolution;
    let mut bound: u64 = 1;
    while r > 0 && bound * 7 <= window_max_size as u64
        invariant
            r <= target_h3_resolution,
            bound == window_child_bound((target_h3_resolution - r) as nat),
            bound <= window_max_size,
        decreases r,
    {
        proof {
            assert(window_child_bound((target_h3_resolution - (r - 1)) as nat) == 7
                * window_child_bound((target_h3_resolution - r) as nat));
        }
        bound = bound * 7;
        r = r - 1;
    }
    proof {
        assert forall|r2: u8|
            r2 < r implies #[trigger] window_child_bound((target_h3_resolution - r2) as nat)
            > window_max_size as nat by {
            assert(bound * 7 > window_max_size as u64);
            assert(window_child_bound((target_h3_resolution - (r - 1)) as nat) == 7 * bound);
            lemma_child_bound_monotone(
                (target_h3_resolution - (r - 1)) as nat,
                (target_h3_resolution - r2) as nat,
            );
        }
    }
    r
}

/// What one sliding-window step does: skip the window, or run a query over
/// the window's children.
pub enum WindowAction {
    /// Nothing to read in this window; move on.
    Skip,
    /// Run this statement over these cells.
    Emit(String, Vec<u64>),
}

/// The state of a sliding window: the coarse cells still to visit, and how
/// each window's query is phrased. The polygon itself, the prefetch
/// pipeline and the connection stay with the caller.
pub struct SlidingWindow {
    pub tableset: TableSet,
    pub target_h3_resolution: u8,
    pub window_h3_resolution: u8,
    pub coarse_cells: Vec<u64>,
    pub position: usize,
    pub query: TableSetQuery,
    pub prefetch_query: Option<TableSetQuery>,
    pub concurrency: usize,
}

impl SlidingWindow {
    /// The coarse cells still to visit, in order.
    pub open spec fn remaining(&self) -> Seq<u64> {
        self.coarse_cells@.skip(self.position as int)
    }

    pub open spec fn queue(&self) -> Seq<u64> {
        self.coarse_cells@
    }

    pub open spec fn wf(&self) -> bool {
        &&& self.window_h3_resolution <= self.target_h3_resolution <= 15
        &&& self.position <= self.queue().len()
        &&& forall|i: int|
            0 <= i < self.queue().len() ==> cell_valid(#[trigger] self.queue()[i]) && cell_res(
                self.queue()[i],
            ) == self.window_h3_resolution as u64
    }

    /// Builds the window state over an already tessellated coarse queue,
    /// checking that every coarse cell is a valid cell at the window
    /// resolution. The coarse cells come from tessellating the window
    /// polygon at [`window_resolution`]`(target_h3_resolution,
    /// window_max_size)`.
    pub fn create_window(
        tableset: TableSet,
        coarse_cells: Vec<u64>,
        target_h3_resolution: u8,
        window_h3_resolution: u8,
        query: TableSetQuery,
        prefetch_query: Option<TableSetQuery>,
        concurrency: usize,
    ) -> (r: Result<SlidingWindow, Error>)
        ensures
            match r {
                Ok(w) => {
                    &&& window_h3_resolution <= target_h3_resolution <= 15
                    &&& w.wf()
                    &&& w.queue() == coarse_cells@
                    &&& w.remaining() == coarse_cells@
                    &&& w.tableset == tableset
                    &&& w.target_h3_resolution == target_h3_resolution
                    &&& w.window_h3_resolution == window_h3_resolution
                    &&& w.query == query
                    &&& w.prefetch_query == prefetch_query
                    &&& w.concurrency == concurrency
                },
                Err(e) => {
                    &&& e@ is InvalidCell || e@ is MixedResolutions
                    &&& !(window_h3_resolution <= target_h3_resolution <= 15) || exists|i: int|
                        0 <= i < coarse_cells@.len() && (!cell_valid(#[trigger] coarse_cells@[i])
                            || cell_res(coarse_cells@[i]) != window_h3_resolution as u64)
                },
            },
    {
        if !(window_h3_resolution <= target_h3_resolution && target_h3_resolution <= 15) {
            return Err(Error::MixedResolutions);
        }
        let mut i: usize = 0;
        while i < coarse_cells.len()
            invariant
                i <= coarse_cells@.len(),
                forall|j: int|
                    0 <= j < i ==> cell_valid(#[trigger] coarse_cells@[j]) && cell_res(
                        coarse_cells@[j],
                    ) == window_h3_resolution as u64,
            decreases coarse_cells@.len() - i,
        {
            let c = coarse_cells[i];
            if !cell_is_valid(c) {
                return Err(Error::InvalidCell);
            }
            if cell_resolution(c) != window_h3_resolution {
                return Err(Error::MixedResolutions);
            }
            i += 1;
        }
        let r = SlidingWindow {
            tableset,
            target_h3_resolution,
            window_h3_resolution,
            coarse_cells,
            position: 0,
            query,
            prefetch_query,
            concurrency,
        };
        proof {
            assert(r.coarse_cells@.skip(0) =~= r.coarse_cells@);
        }
        Ok(r)
    }

    /// The next coarse window cell, advancing the queue; `None` once the
    /// queue is exhausted. The iteration is finite and never restarts.
    pub fn next_window(&mut self) -> (r: Option<u64>)
        ensures
            old(self).wf() ==> final(self).wf(),
            final(self).queue() == old(self).queue(),
            old(self).wf() && old(self).remaining().len() == 0 ==> r is None
                && final(self).remaining() == old(self).remaining(),
            old(self).wf() && old(self).remaining().len() > 0 ==> r == Some(
                old(self).remaining()[0],
            ) && final(self).remaining() == old(self).remaining().skip(1),
            final(self).tableset == old(self).tableset,
            final(self).target_h3_resolution == old(self).target_h3_resolution,
            final(self).window_h3_resolution == old(self).window_h3_resolution,
            final(self).query == old(self).query,
            final(self).prefetch_query == old(self).prefetch_query,
            final(self).concurrency == old(self).concurrency,
    {
        if self.position < self.coarse_cells.len() {
            let c = self.coarse_cells[self.position];
            self.position += 1;
            proof {
                if old(self).wf() {
                    assert(old(self).remaining()[0] == c);
                    assert(final(self).remaining() =~= old(self).remaining().skip(1));
                }
            }
            Some(c)
        } else {
            proof {
                if old(self).wf() {
                    assert(old(self).remaining().len() == 0);
                }
            }
            None
        }
    }

    /// The descendants of a window cell at the target resolution; the
    /// caller keeps those inside the window polygon. `None` for a value
    /// that is not a valid cell at the window resolution.
    pub fn window_children(&self, window_h3index: u64) -> (r: Option<Vec<u64>>)
        ensures
            match r {
                Some(children) => {
                    &&& cell_valid(window_h3index)
                    &&& cell_res(window_h3index) == self.window_h3_resolution as u64
                    &&& children@ == children_at(
                        window_h3index,
                        self.target_h3_resolution as u64,
                    )
                    &&& forall|i: int|
                        0 <= i < children@.len() ==> cell_valid(#[trigger] children@[i])
                            && cell_res(children@[i]) == self.target_h3_resolution as u64
                            && parent_at(children@[i], self.window_h3_resolution as u64)
                            == window_h3index
                },
                None => !cell_valid(window_h3index) || cell_res(window_h3index)
                    != self.window_h3_resolution as u64 || !(self.window_h3_resolution
                    <= self.target_h3_resolution <= 15),
            },
    {
        if !(self.window_h3_resolution <= self.target_h3_resolution
            && self.target_h3_resolution <= 15) {
            return None;
        }
        if !cell_is_valid(window_h3index) {
            return None;
        }
        if cell_resolution(window_h3index) != self.window_h3_resolution {
            return None;
        }
        Some(cell_children(window_h3index, self.target_h3_resolution))
    }
}

/// The template [`contains_h3index_query`] plans with: the caller's
/// template with ` limit 1` appended, or the default existence probe.
pub open spec fn contains_template(query_template: Option<Seq<char>>) -> Seq<char> {
    match query_template {
        Option::Some(qs) => qs + " limit 1"@,
        Option::None => "select h3index from <[table]> where h3index in <[h3indexes]> limit 1"@,
    }
}

/// Plans the existence probe for one cell: whether the tableset holds the
/// cell or any of its ancestors. The caller's template gets ` limit 1`
/// appended; without one a plain `h3index` probe is used.
pub fn contains_h3index_query(
    tableset: &TableSet,
    h3index: u64,
    query_template: Option<String>,
) -> (r: Result<String, Error>)
    ensures
        ({
            let t = Some(
                contains_template(
                    match query_template {
                        Option::Some(qs) => Some(qs@),
                        Option::None => None,
                    },
                ),
            );
            match r {
                Ok(s) => plan_result(*tableset, seq![h3index], t) == Result::<
                    Seq<char>,
                    ErrorSpec,
                >::Ok(s@),
                Err(e) => plan_result(*tableset, seq![h3index], t) == Result::<
                    Seq<char>,
                    ErrorSpec,
                >::Err(e@),
            }
        }),
{
    let template_chars = match &query_template {
        Option::Some(qs) => {
            let mut t = str_chars(qs.as_str());
            let mut suffix = str_chars(" limit 1");
            t.append(&mut suffix);
            t
        },
        Option::None => {
            str_chars("select h3index from <[table]> where h3index in <[h3indexes]> limit 1")
        },
    };
    let query = TableSetQuery::TemplatedSelect(chars_string(&template_chars));
    let mut cells: Vec<u64> = Vec::new();
    cells.push(h3index);
    proof {
        assert(cells@ =~= seq![h3index]);
    }
    tableset.build_select_query(&cells, &query)
}

/// What a window step decides once the caller reports whether the window
/// cell has data and which children lie inside the polygon: a window
/// without data or without children is skipped, any other window emits the
/// planned statement over its children.
pub fn decide_window(
    tableset: &TableSet,
    has_data: bool,
    children: Vec<u64>,
    query: &TableSetQuery,
) -> (r: Result<WindowAction, Error>)
    ensures
        match r {
            Ok(a) => match a {
                WindowAction::Skip => !has_data || children@.len() == 0,
                WindowAction::Emit(s, emitted) => has_data && children@.len() > 0 && emitted@
                    == children@ && plan_result(*tableset, children@, query.template_view())
                    == Result::<Seq<char>, ErrorSpec>::Ok(s@),
            },
            Err(e) => has_data && children@.len() > 0 && plan_result(
                *tableset,
                children@,
                query.template_view(),
            ) == Result::<Seq<char>, ErrorSpec>::Err(e@),
        },
{
    if !has_data {
        return Ok(WindowAction::Skip);
    }
    if children.len() == 0 {
        return Ok(WindowAction::Skip);
    }
    match tableset.build_select_query(&children, query) {
        Ok(s) => Ok(WindowAction::Emit(s, children)),
        Err(e) => Err(e),
    }
}

} // verus!
