//! The scene aggregate: an insertion-ordered list of primitives answering
//! nearest-hit queries over a shrinking window, so the nearest surface wins
//! whatever the insertion order.

use vstd::prelude::*;
use crate::vec::{okv, dot3};
use crate::ray::{Ray, RayV, ray_ok};
use crate::hitrecord::HitRecord;
use crate::figure::{Figure, HitS, fig_ok, fig_hit_s};
use crate::material::mat_ok;

verus! {

/// The scene: all primitives, owned for the duration of the render.
pub struct World {
    pub objects: Vec<Figure>,
}

/// A scene the pipeline accepts: every primitive well-formed.
pub open spec fn world_ok(w: World) -> bool {
    forall|i: int| 0 <= i < w.objects@.len() ==> fig_ok(#[trigger] w.objects@[i])
}

/// The nearest hit across a list of primitives: scanning left to right,
/// each primitive is queried against the window shrunk to the best hit
/// found so far.
pub open spec fn world_hit_s(objs: Seq<Figure>, r: RayV, t_min: int, t_max: int) -> Option<HitS>
    decreases objs.len(),
{
    if objs.len() == 0 {
        None
    } else {
        let prev = world_hit_s(objs.drop_last(), r, t_min, t_max);
        let cur = match prev {
            Some(h) => h.t,
            None => t_max,
        };
        match fig_hit_s(objs.last(), r, t_min, cur) {
            Some(h) => Some(h),
            None => prev,
        }
    }
}

/// The nearest surface wins, whatever the insertion order: when the scene
/// reports a hit, no primitive has a hit nearer to the ray origin in the
/// full window; when it reports none, no primitive hits at all.
pub proof fn lemma_world_nearest(objs: Seq<Figure>, r: RayV, t_min: int, t_max: int)
    requires
        crate::vec::lsq3(r.direction) >= 1,
    ensures
        world_hit_s(objs, r, t_min, t_max) is None ==> (forall|i: int|
            0 <= i < objs.len() ==> fig_hit_s(#[trigger] objs[i], r, t_min, t_max) is None),
        world_hit_s(objs, r, t_min, t_max) matches Some(h) ==> (forall|i: int|
            0 <= i < objs.len() ==> (fig_hit_s(#[trigger] objs[i], r, t_min, t_max)
                matches Some(g) ==> h.t <= g.t)),
        world_hit_s(objs, r, t_min, t_max) matches Some(h) ==> t_min <= h.t <= t_max,
    decreases objs.len(),
{
    if objs.len() > 0 {
        let pre = objs.drop_last();
        lemma_world_nearest(pre, r, t_min, t_max);
        let prev = world_hit_s(pre, r, t_min, t_max);
        let cur = match prev {
            Some(h) => h.t,
            None => t_max,
        };
        crate::figure::lemma_fig_hit_shrink(objs.last(), r, t_min, cur, t_max);
        assert(forall|i: int| 0 <= i < pre.len() ==> pre[i] == #[trigger] objs[i]);
        assert(objs[objs.len() - 1] == objs.last());
    }
}

impl World {
    /// An empty scene.
    pub fn new() -> (r: World)
        ensures
            r.objects@.len() == 0,
    {
        World { objects: Vec::new() }
    }

    /// Append a primitive; the scene keeps insertion order.
    pub fn add(&mut self, object: Figure)
        ensures
            final(self).objects@ == old(self).objects@.push(object),
    {
        self.objects.push(object);
    }

    /// The nearest hit of the ray against the whole scene inside
    /// `[t_min, t_max]`, or nothing if every primitive misses.
    pub fn hit(&self, ray: &Ray, t_min: i128, t_max: i128) -> (r: Option<HitRecord>)
        requires
            world_ok(*self),
            ray_ok(ray@),
            0 <= t_min,
            t_max <= 0x800000000000,
        ensures
            (r is Some) == (world_hit_s(self.objects@, ray@, t_min as int, t_max as int) is Some),
            r matches Some(h) ==> (world_hit_s(self.objects@, ray@, t_min as int, t_max as int)
                matches Some(hs) && h.t as int == hs.t && h.p@ == hs.p && h.normal@ == hs.normal
                && h.front_face == hs.front_face && h.material == hs.material),
            r matches Some(h) ==> t_min <= h.t <= t_max && dot3(ray@.direction, h.normal@) <= 0
                && okv(h.p@, 0x1000000000000000) && okv(h.normal@, 0x2000000000000000000)
                && mat_ok(h.material),
    {
        let mut best: Option<HitRecord> = None;
        let mut closest: i128 = t_max;
        let mut i: usize = 0;
        while i < self.objects.len()
            invariant
                0 <= i <= self.objects@.len(),
                world_ok(*self),
                ray_ok(ray@),
                0 <= t_min,
                t_max <= 0x800000000000,
                (best is Some) == (world_hit_s(
                    self.objects@.subrange(0, i as int),
                    ray@,
                    t_min as int,
                    t_max as int,
                ) is Some),
                best matches Some(h) ==> (world_hit_s(
                    self.objects@.subrange(0, i as int),
                    ray@,
                    t_min as int,
                    t_max as int,
                ) matches Some(hs) && h.t as int == hs.t && h.p@ == hs.p && h.normal@ == hs.normal
                    && h.front_face == hs.front_face && h.material == hs.material),
                best is None ==> closest == t_max,
                best matches Some(h) ==> closest == h.t && t_min <= h.t <= t_max && dot3(
                    ray@.direction,
                    h.normal@,
                ) <= 0 && okv(h.p@, 0x1000000000000000) && okv(h.normal@, 0x2000000000000000000)
                    && mat_ok(h.material),
            decreases self.objects@.len() - i,
        {
            let obj: &Figure = &self.objects[i];
            let res: Option<HitRecord> = obj.hit(ray, t_min, closest);
            proof {
                assert(self.objects@.subrange(0, (i + 1) as int).drop_last() =~= self.objects@
                    .subrange(0, i as int));
                assert(self.objects@.subrange(0, (i + 1) as int).last() == self.objects@[i as int]);
            }
            if let Some(h) = res {
                closest = h.t;
                best = Some(h);
            }
            i = i + 1;
        }
        proof {
            assert(self.objects@.subrange(0, self.objects@.len() as int) =~= self.objects@);
        }
        best
    }
}

} // verus!
