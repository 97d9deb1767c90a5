//! Terminal cells, and which task a cell selects.

use crate::project::{id_less, id_order_total, id_order_transitive, TaskId, TaskIdView};
use crate::views::views;
use vstd::prelude::*;

verus! {

/// A cell of the terminal.
#[derive(Clone, Copy, Debug, PartialEq, Eq, Structural)]
pub struct CellPoint {
    pub x: u16,
    pub y: u16,
}

impl CellPoint {
    pub fn new(x: u16, y: u16) -> (cell: CellPoint)
        ensures
            cell == (CellPoint { x, y }),
    {
        CellPoint { x, y }
    }
}

impl Default for CellPoint {
    fn default() -> (cell: CellPoint)
        ensures
            cell == (CellPoint { x: 0, y: 0 }),
    {
        CellPoint { x: 0, y: 0 }
    }
}

/// A task whose shape covers a point, and the rank of its area among areas.
#[derive(Debug, PartialEq, Eq)]
pub struct Hit {
    pub id: TaskId,
    pub area: u64,
}

pub struct HitView {
    pub id: TaskIdView,
    pub area: u64,
}

impl View for Hit {
    type V = HitView;

    open spec fn view(&self) -> HitView {
        HitView { id: self.id@, area: self.area }
    }
}

/// `a` is preferred to `b`: it is smaller, or of one size and comes later.
pub open spec fn preferred(a: HitView, b: HitView) -> bool {
    a.area < b.area || (a.area == b.area && id_less(b.id, a.id))
}

/// `id` is that of a hit to which no other is preferred.
pub open spec fn is_best_hit(hits: Seq<HitView>, id: TaskIdView) -> bool {
    exists|i: int| #[trigger] is_best_at(hits, i) && hits[i].id == id
}

pub open spec fn is_best_at(hits: Seq<HitView>, i: int) -> bool {
    &&& 0 <= i < hits.len()
    &&& forall|j: int| 0 <= j < hits.len() ==> !preferred(#[trigger] hits[j], hits[i])
}

/// Which of the hits is selected: the smallest one, and of several that are
/// equally small the one with the greatest id.
pub fn best_hit(hits: &Vec<Hit>) -> (selected: Option<TaskId>)
    ensures
        hits@.len() == 0 <==> selected is None,
        selected matches Some(id) ==> is_best_hit(views(hits@), id@),
{
    let ghost all = views(hits@);
    if hits.len() == 0 {
        return None;
    }
    let mut best: usize = 0;
    let mut i: usize = 1;
    proof {
        id_order_total(all[0].id, all[0].id);
    }
    while i < hits.len()
        invariant
            best < i <= hits@.len(),
            all == views(hits@),
            forall|j: int| 0 <= j < i ==> !preferred(#[trigger] all[j], all[best as int]),
        decreases hits@.len() - i,
    {
        let better = hits[i].area < hits[best].area || (hits[i].area == hits[best].area && hits[best].id.before(&hits[i].id));
        proof {
            assert(all[i as int] == hits@[i as int]@);
            assert(all[best as int] == hits@[best as int]@);
            assert(better == preferred(all[i as int], all[best as int]));
            if better {
                assert forall|j: int| 0 <= j < i + 1 implies !preferred(#[trigger] all[j], all[i as int]) by {
                    id_order_total(all[i as int].id, all[i as int].id);
                    if j < i && preferred(all[j], all[i as int]) {
                        assert(!preferred(all[j], all[best as int]));
                        if all[i as int].area == all[best as int].area && all[j].area == all[i as int].area {
                            id_order_transitive(all[best as int].id, all[i as int].id, all[j].id);
                        }
                    }
                }
            }
        }
        if better {
            best = i;
        }
        i += 1;
    }
    assert(is_best_at(all, best as int));
    assert(all[best as int] == hits@[best as int]@);
    Some(hits[best].id.clone())
}

/// The selection does not depend on the order of the hits: there is one best.
pub proof fn selection_is_unique(first: Seq<HitView>, second: Seq<HitView>, a: TaskIdView, b: TaskIdView)
    requires
        forall|h: HitView| #[trigger] first.contains(h) == second.contains(h),
        is_best_hit(first, a),
        is_best_hit(second, b),
    ensures
        a == b,
{
    let i = choose|i: int| #[trigger] is_best_at(first, i) && first[i].id == a;
    let j = choose|j: int| #[trigger] is_best_at(second, j) && second[j].id == b;
    assert(first.contains(first[i]));
    assert(second.contains(second[j]));
    assert(second.contains(first[i]));
    assert(first.contains(second[j]));
    let k = choose|k: int| 0 <= k < second.len() && second[k] == first[i];
    let m = choose|m: int| 0 <= m < first.len() && first[m] == second[j];
    assert(!preferred(second[k], second[j]));
    assert(!preferred(first[m], first[i]));
    id_order_total(a, b);
}

} // verus!
