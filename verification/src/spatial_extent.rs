use vstd::prelude::*;
use crate::quadtree::Point;

verus! {

/// A running minimum and maximum over each coordinate axis. The sentinels
/// (`i64::MAX` minima, `i64::MIN` maxima) mean "nothing seen yet"; the
/// first update narrows every axis.
pub struct SpatialExtent {
    pub x_min: i64,
    pub x_max: i64,
    pub y_min: i64,
    pub y_max: i64,
    pub z_min: i64,
    pub z_max: i64,
}

/// The extent before any point has been folded in.
pub open spec fn extent_empty() -> SpatialExtent {
    SpatialExtent {
        x_min: i64::MAX,
        x_max: i64::MIN,
        y_min: i64::MAX,
        y_max: i64::MIN,
        z_min: i64::MAX,
        z_max: i64::MIN,
    }
}

/// One fold step: each minimum lowered and each maximum raised to cover `p`.
pub open spec fn extent_step(e: SpatialExtent, p: Point) -> SpatialExtent {
    SpatialExtent {
        x_min: if p.x < e.x_min { p.x } else { e.x_min },
        x_max: if p.x > e.x_max { p.x } else { e.x_max },
        y_min: if p.y < e.y_min { p.y } else { e.y_min },
        y_max: if p.y > e.y_max { p.y } else { e.y_max },
        z_min: if p.z < e.z_min { p.z } else { e.z_min },
        z_max: if p.z > e.z_max { p.z } else { e.z_max },
    }
}

/// The extent of a whole sequence of points.
pub open spec fn extent_model(pts: Seq<Point>) -> SpatialExtent
    decreases pts.len(),
{
    if pts.len() == 0 {
        extent_empty()
    } else {
        extent_step(extent_model(pts.drop_last()), pts.last())
    }
}

/// The extent of a sequence covers every point of the sequence.
pub proof fn lemma_extent_model_covers(pts: Seq<Point>)
    ensures
        forall|j: int| 0 <= j < pts.len() ==> {
            let e = extent_model(pts);
            let p = #[trigger] pts[j];
            e.x_min <= p.x <= e.x_max && e.y_min <= p.y <= e.y_max && e.z_min <= p.z <= e.z_max
        },
    decreases pts.len(),
{
    if pts.len() > 0 {
        lemma_extent_model_covers(pts.drop_last());
        assert forall|j: int| 0 <= j < pts.len() implies {
            let e = extent_model(pts);
            let p = #[trigger] pts[j];
            e.x_min <= p.x <= e.x_max && e.y_min <= p.y <= e.y_max && e.z_min <= p.z <= e.z_max
        } by {
            if j < pts.len() - 1 {
                assert(pts[j] == pts.drop_last()[j]);
            }
        }
    }
}

impl Default for SpatialExtent {
    /// The sentinel extent, covering nothing.
    fn default() -> (e: Self)
        ensures
            e == extent_empty(),
    {
        SpatialExtent {
            x_min: i64::MAX,
            x_max: i64::MIN,
            y_min: i64::MAX,
            y_max: i64::MIN,
            z_min: i64::MAX,
            z_max: i64::MIN,
        }
    }
}

impl SpatialExtent {
    /// Widens the extent to cover `point`.
    pub fn update(&mut self, point: &Point)
        ensures
            *final(self) == extent_step(*old(self), *point),
    {
        if point.x < self.x_min {
            self.x_min = point.x;
        }
        if point.x > self.x_max {
            self.x_max = point.x;
        }
        if point.y < self.y_min {
            self.y_min = point.y;
        }
        if point.y > self.y_max {
            self.y_max = point.y;
        }
        if point.z < self.z_min {
            self.z_min = point.z;
        }
        if point.z > self.z_max {
            self.z_max = point.z;
        }
    }
}

} // verus!
