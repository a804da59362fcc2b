//! The CEGIS controller: grows a sketch one hole at a time; for each hole it
//! proposes candidates, scores them through the rendering oracle and the
//! distance oracle, accumulates counterexamples for the residual-guided
//! proposer, and commits the best candidate seen — falling back to a fresh
//! proposal so that every outer iteration resolves its hole.  A finished run
//! returns a fully resolved program of exactly the configured length.

use vstd::prelude::*;

verus! {

use crate::domain::Domain;
use crate::domain::param_in_domain;
use crate::extract::is_covered;
use crate::extract::lemma_residuals_in_bounds;
use crate::extract::residuals_spec;
use crate::geometry::CLOUD_LIMIT;
use crate::geometry::COORD_LIMIT;
use crate::geometry::Point;
use crate::geometry::cloud_in_bounds;
use crate::geometry::point_in_bounds;
use crate::propose::bbox_spec;
use crate::propose::compute_bbox_sizes;
use crate::propose::compute_centroid;
use crate::propose::generate_random;
use crate::propose::guided_params;
use crate::propose::shape_heuristic;
use crate::propose::shape_heuristic_spec;
use crate::rng::rng_range_i16;
use crate::score::Score;
use crate::score::chamfer_den;
use crate::score::chamfer_distance;
use crate::score::chamfer_num;

/// One program position: resolved to a primitive, or still open.
#[derive(Clone, Debug)]
pub enum Slot {
    Filled(u8, Vec<i16>),
    Hole,
}

/// A partially resolved program, grown one slot per outer iteration.
pub type Sketch = Vec<Slot>;

/// A fully resolved program: a primitive kind with its ten fields per
/// position.
pub type Program = Vec<(u8, Vec<i16>)>;

/// The residual points of one extraction: target points the program left
/// uncovered.
#[derive(Clone, Debug)]
pub struct Constraint {
    pub residual_points: Vec<Point>,
}

/// A filled slot carries a legal primitive; a hole carries nothing.
pub open spec fn slot_ok(dom: Domain, s: Slot) -> bool {
    match s {
        Slot::Filled(k, p) => k < 3 && param_in_domain(dom, p@),
        Slot::Hole => true,
    }
}

/// No hole remains.
pub open spec fn sketch_filled(s: Seq<Slot>) -> bool {
    forall|i: int| 0 <= i < s.len() ==> (#[trigger] s[i]) is Filled
}

/// Every primitive of the program is legal.
pub open spec fn program_wf(dom: Domain, prog: Seq<(u8, Vec<i16>)>) -> bool {
    forall|i: int|
        0 <= i < prog.len() ==> (#[trigger] prog[i]).0 < 3 && param_in_domain(dom, prog[i].1@)
}

/// Every point of the sequence is in cloud bounds.
pub open spec fn pts_in_bounds(s: Seq<Point>) -> bool {
    forall|i: int| 0 <= i < s.len() ==> point_in_bounds(#[trigger] s[i])
}

/// Number of residual points over all accumulated constraints.
pub open spec fn total_residuals(cs: Seq<Constraint>) -> int
    decreases cs.len(),
{
    if cs.len() == 0 {
        0
    } else {
        total_residuals(cs.drop_last()) + cs.last().residual_points@.len()
    }
}

/// All accumulated residual points, in accumulation order.
pub open spec fn concat_residuals(cs: Seq<Constraint>) -> Seq<Point>
    decreases cs.len(),
{
    if cs.len() == 0 {
        Seq::empty()
    } else {
        concat_residuals(cs.drop_last()) + cs.last().residual_points@
    }
}

pub proof fn lemma_concat_residuals_len(cs: Seq<Constraint>)
    ensures
        concat_residuals(cs).len() == total_residuals(cs),
    decreases cs.len(),
{
    if cs.len() > 0 {
        lemma_concat_residuals_len(cs.drop_last());
    }
}

proof fn lemma_concat_residuals_in_bounds(cs: Seq<Constraint>)
    requires
        forall|i: int|
            0 <= i < cs.len() ==> pts_in_bounds((#[trigger] cs[i]).residual_points@),
    ensures
        pts_in_bounds(concat_residuals(cs)),
    decreases cs.len(),
{
    if cs.len() > 0 {
        assert(pts_in_bounds(cs.last().residual_points@));
        lemma_concat_residuals_in_bounds(cs.drop_last());
    }
}

proof fn lemma_total_take_le(cs: Seq<Constraint>, i: int)
    requires
        0 <= i <= cs.len(),
    ensures
        total_residuals(cs.take(i)) <= total_residuals(cs),
    decreases cs.len() - i,
{
    if i == cs.len() {
        assert(cs.take(i) =~= cs);
    } else {
        lemma_total_take_le(cs, i + 1);
        assert(cs.take(i + 1).drop_last() =~= cs.take(i));
        assert(cs.take(i + 1).last() == cs[i]);
    }
}

/// Kinds of a program, in order.
pub open spec fn kinds_of(prog: Seq<(u8, Vec<i16>)>) -> Seq<u8>
    decreases prog.len(),
{
    if prog.len() == 0 {
        Seq::empty()
    } else {
        kinds_of(prog.drop_last()).push(prog.last().0)
    }
}

/// All parameter fields of a program, flattened in order.
pub open spec fn flat_params(prog: Seq<(u8, Vec<i16>)>) -> Seq<i16>
    decreases prog.len(),
{
    if prog.len() == 0 {
        Seq::empty()
    } else {
        flat_params(prog.drop_last()) + prog.last().1@
    }
}

/// A well-formed program flattens to exactly ten fields per primitive: the
/// rendering contract's arity precondition holds by construction.
pub proof fn lemma_flat_params_len(dom: Domain, prog: Seq<(u8, Vec<i16>)>)
    requires
        program_wf(dom, prog),
    ensures
        flat_params(prog).len() == 10 * prog.len(),
    decreases prog.len(),
{
    if prog.len() > 0 {
        assert(program_wf(dom, prog.drop_last()));
        lemma_flat_params_len(dom, prog.drop_last());
    }
}

/// Flatten a program into the kind and parameter lists the rendering oracle
/// takes.
pub fn flatten_program(program: &Program) -> (r: (Vec<u8>, Vec<i16>))
    ensures
        r.0@ == kinds_of(program@),
        r.1@ == flat_params(program@),
{
    let mut kinds: Vec<u8> = Vec::new();
    let mut flat: Vec<i16> = Vec::new();
    let mut i: usize = 0;
    while i < program.len()
        invariant
            i <= program@.len(),
            kinds@ == kinds_of(program@.take(i as int)),
            flat@ == flat_params(program@.take(i as int)),
        decreases program@.len() - i,
    {
        proof {
            assert(program@.take(i + 1).drop_last() =~= program@.take(i as int));
            assert(program@.take(i + 1).last() == program@[i as int]);
        }
        let prim = &program[i];
        kinds.push(prim.0);
        flat.extend_from_slice(prim.1.as_slice());
        proof {
            assert(flat@ =~= flat_params(program@.take(i + 1)));
            assert(kinds@ =~= kinds_of(program@.take(i + 1)));
        }
        i += 1;
    }
    proof {
        assert(program@.take(program@.len() as int) =~= program@);
    }
    (kinds, flat)
}

/// Capability interface to the external rendering oracle: turn a flattened
/// program into a point cloud.  `None` stands for any oracle failure and
/// rejects the candidate; nothing more is assumed of an implementation.
pub trait RenderOracle {
    fn render(&mut self, kinds: Vec<u8>, params: Vec<i16>) -> Option<Vec<Point>>;
}

/// Validate a rendered cloud before it reaches the distance oracle.
pub fn cloud_ok(cloud: &Vec<Point>) -> (b: bool)
    ensures
        b == (cloud@.len() > 0 && cloud_in_bounds(cloud@)),
{
    if cloud.len() == 0 || cloud.len() > CLOUD_LIMIT {
        return false;
    }
    let mut i: usize = 0;
    while i < cloud.len()
        invariant
            i <= cloud@.len(),
            cloud@.len() <= CLOUD_LIMIT,
            forall|j: int| 0 <= j < i ==> point_in_bounds(#[trigger] cloud@[j]),
        decreases cloud@.len() - i,
    {
        let p = &cloud[i];
        if p.x < -COORD_LIMIT || p.x > COORD_LIMIT || p.y < -COORD_LIMIT || p.y > COORD_LIMIT
            || p.z < -COORD_LIMIT || p.z > COORD_LIMIT {
            proof {
                assert(!point_in_bounds(cloud@[i as int]));
            }
            return false;
        }
        i += 1;
    }
    true
}

/// Kind the residual-guided proposer picks from the accumulated residuals.
pub open spec fn guided_kind(cs: Seq<Constraint>, dom: Domain) -> u8 {
    let e = bbox_spec(concat_residuals(cs));
    shape_heuristic_spec(e.0, e.1, e.2, 2 * dom.scale as int)
}

/// The CEGIS controller state: the sketch under construction, the
/// accumulated constraints, the immutable target cloud and the configuration.
pub struct Cegis {
    pub sketch: Sketch,
    pub constraints: Vec<Constraint>,
    pub target: Vec<Point>,
    pub dom: Domain,
}

impl Cegis {
    pub open spec fn wf(self) -> bool {
        &&& self.dom.wf()
        &&& cloud_in_bounds(self.target@)
        &&& self.target@.len() > 0
        &&& forall|i: int|
            0 <= i < self.sketch@.len() ==> slot_ok(self.dom, #[trigger] self.sketch@[i])
        &&& forall|i: int|
            0 <= i < self.constraints@.len() ==> pts_in_bounds(
                (#[trigger] self.constraints@[i]).residual_points@,
            )
        &&& total_residuals(self.constraints@) <= CLOUD_LIMIT
    }

    /// A controller over a fixed nonempty target cloud, with an empty sketch
    /// and no constraints.
    pub fn new(target: Vec<Point>, dom: Domain) -> (c: Cegis)
        requires
            dom.wf(),
            cloud_in_bounds(target@),
            target@.len() > 0,
        ensures
            c.wf(),
            c.sketch@.len() == 0,
            c.constraints@.len() == 0,
            c.target@ == target@,
            c.dom == dom,
    {
        Cegis { sketch: Vec::new(), constraints: Vec::new(), target, dom }
    }

    /// All residual points accumulated so far, in order.
    pub fn all_residuals(&self) -> (r: Vec<Point>)
        requires
            self.wf(),
        ensures
            r@ == concat_residuals(self.constraints@),
            cloud_in_bounds(r@),
    {
        let mut r: Vec<Point> = Vec::new();
        let mut ci: usize = 0;
        while ci < self.constraints.len()
            invariant
                self.wf(),
                ci <= self.constraints@.len(),
                r@ == concat_residuals(self.constraints@.take(ci as int)),
            decreases self.constraints@.len() - ci,
        {
            proof {
                assert(self.constraints@.take(ci + 1).drop_last() =~= self.constraints@.take(
                    ci as int,
                ));
                assert(self.constraints@.take(ci + 1).last() == self.constraints@[ci as int]);
            }
            r.extend_from_slice(self.constraints[ci].residual_points.as_slice());
            proof {
                assert(r@ =~= concat_residuals(self.constraints@.take(ci + 1)));
            }
            ci += 1;
        }
        proof {
            assert(self.constraints@.take(self.constraints@.len() as int) =~= self.constraints@);
            lemma_concat_residuals_len(self.constraints@);
            lemma_concat_residuals_in_bounds(self.constraints@);
        }
        r
    }

    /// Number of residual points accumulated so far.
    fn total_residual_count(&self) -> (n: usize)
        requires
            self.wf(),
        ensures
            n == total_residuals(self.constraints@),
    {
        let mut n: usize = 0;
        let mut i: usize = 0;
        while i < self.constraints.len()
            invariant
                self.wf(),
                i <= self.constraints@.len(),
                n == total_residuals(self.constraints@.take(i as int)),
            decreases self.constraints@.len() - i,
        {
            proof {
                assert(self.constraints@.take(i + 1).drop_last() =~= self.constraints@.take(
                    i as int,
                ));
                assert(self.constraints@.take(i + 1).last() == self.constraints@[i as int]);
                lemma_total_take_le(self.constraints@, i + 1);
            }
            n = n + self.constraints[i].residual_points.len();
            i += 1;
        }
        proof {
            assert(self.constraints@.take(self.constraints@.len() as int) =~= self.constraints@);
        }
        n
    }

    /// Accumulate one extraction's residuals, keeping the store bounded: a
    /// constraint that would push the total past the cloud limit is dropped
    /// (the accumulation-policy choice: retain, never prune, but bound).
    fn merge_counterexample(&mut self, c: Constraint)
        requires
            old(self).wf(),
            pts_in_bounds(c.residual_points@),
        ensures
            final(self).wf(),
            final(self).dom == old(self).dom,
            final(self).target@ == old(self).target@,
            final(self).sketch@ == old(self).sketch@,
            old(self).constraints@.len() <= final(self).constraints@.len(),
            forall|i: int|
                0 <= i < old(self).constraints@.len() ==> final(self).constraints@[i] == old(
                    self,
                ).constraints@[i],
    {
        let cur = self.total_residual_count();
        let add = c.residual_points.len();
        if add <= CLOUD_LIMIT - cur {
            let ghost cs0 = self.constraints@;
            self.constraints.push(c);
            proof {
                assert(self.constraints@.drop_last() =~= cs0);
                assert(self.constraints@.last() == c);
            }
        }
    }

    /// The residual-guided proposer: centroid and bounding box of all
    /// accumulated residuals pick the kind and seed sizes and translations
    /// (perturbed by unit noise); rotations and flag are drawn from their
    /// ranges.  With no residuals yet it falls back to the naive proposer.
    pub fn propose_candidate_for_hole(&self, rng: &mut rand::rngs::SmallRng) -> (r: (
        u8,
        Vec<i16>,
    ))
        requires
            self.wf(),
        ensures
            r.0 < 3,
            param_in_domain(self.dom, r.1@),
            concat_residuals(self.constraints@).len() > 0 ==> r.0 == guided_kind(
                self.constraints@,
                self.dom,
            ),
    {
        let pts = self.all_residuals();
        if pts.len() == 0 {
            generate_random(rng, &self.dom)
        } else {
            let c = compute_centroid(&pts);
            let e = compute_bbox_sizes(&pts);
            let tol = 2 * self.dom.scale;
            let kind = shape_heuristic(e.0, e.1, e.2, tol);
            let mut noise: Vec<i16> = Vec::new();
            let mut i: usize = 0;
            while i < 6
                invariant
                    i <= 6,
                    noise@.len() == i,
                decreases 6 - i,
            {
                noise.push(rng_range_i16(rng, -1, 1));
                i += 1;
            }
            let mut rots: Vec<i16> = Vec::new();
            let mut j: usize = 0;
            while j < 3
                invariant
                    j <= 3,
                    rots@.len() == j,
                    self.dom.wf(),
                decreases 3 - j,
            {
                rots.push(rng_range_i16(rng, self.dom.rot_lo, self.dom.rot_hi));
                j += 1;
            }
            let flag = rng_range_i16(rng, self.dom.flag_lo, self.dom.flag_hi);
            let p = guided_params(&self.dom, &c, e, &noise, &rots, flag);
            (kind, p)
        }
    }

    /// Materialize the sketch into a program, proposing a fresh candidate
    /// for every hole.
    pub fn fill_holes(&self, rng: &mut rand::rngs::SmallRng) -> (r: Program)
        requires
            self.wf(),
        ensures
            r@.len() == self.sketch@.len(),
            program_wf(self.dom, r@),
            forall|i: int|
                0 <= i < r@.len() ==> (#[trigger] self.sketch@[i] matches Slot::Filled(k, p)
                    ==> r@[i].0 == k && r@[i].1@ == p@),
    {
        let mut r: Program = Vec::new();
        let mut i: usize = 0;
        while i < self.sketch.len()
            invariant
                self.wf(),
                i <= self.sketch@.len(),
                r@.len() == i,
                program_wf(self.dom, r@),
                forall|j: int|
                    0 <= j < i ==> (#[trigger] self.sketch@[j] matches Slot::Filled(k, p)
                        ==> r@[j].0 == k && r@[j].1@ == p@),
            decreases self.sketch@.len() - i,
        {
            match &self.sketch[i] {
                Slot::Filled(k, p) => {
                    let pc = p.clone();
                    proof {
                        assert(pc@ =~= p@);
                    }
                    r.push((*k, pc));
                },
                Slot::Hole => {
                    let cand = self.propose_candidate_for_hole(rng);
                    r.push(cand);
                },
            }
            i += 1;
        }
        r
    }

    /// Materialize the sketch into a program, substituting the given
    /// candidate for every hole (in a run there is exactly one, the last
    /// slot).
    pub fn with_candidate(&self, cand: &(u8, Vec<i16>)) -> (r: Program)
        requires
            self.wf(),
            cand.0 < 3,
            param_in_domain(self.dom, cand.1@),
        ensures
            r@.len() == self.sketch@.len(),
            program_wf(self.dom, r@),
            forall|i: int|
                #![trigger self.sketch@[i]]
                0 <= i < r@.len() ==> match self.sketch@[i] {
                    Slot::Filled(k, p) => r@[i].0 == k && r@[i].1@ == p@,
                    Slot::Hole => r@[i].0 == cand.0 && r@[i].1@ == cand.1@,
                },
    {
        let mut r: Program = Vec::new();
        let mut i: usize = 0;
        while i < self.sketch.len()
            invariant
                self.wf(),
                cand.0 < 3,
                param_in_domain(self.dom, cand.1@),
                i <= self.sketch@.len(),
                r@.len() == i,
                program_wf(self.dom, r@),
                forall|j: int|
                    #![trigger self.sketch@[j]]
                    0 <= j < i ==> match self.sketch@[j] {
                        Slot::Filled(k, p) => r@[j].0 == k && r@[j].1@ == p@,
                        Slot::Hole => r@[j].0 == cand.0 && r@[j].1@ == cand.1@,
                    },
            decreases self.sketch@.len() - i,
        {
            match &self.sketch[i] {
                Slot::Filled(k, p) => {
                    let pc = p.clone();
                    proof {
                        assert(pc@ =~= p@);
                    }
                    r.push((*k, pc));
                },
                Slot::Hole => {
                    let pc = cand.1.clone();
                    proof {
                        assert(pc@ =~= cand.1@);
                    }
                    r.push((cand.0, pc));
                },
            }
            i += 1;
        }
        r
    }

    /// The counterexample extractor: one constraint holding exactly the
    /// target points no primitive center of the program explains.
    pub fn compute_counterexamples(&self, program: &Program) -> (r: Vec<Constraint>)
        requires
            self.wf(),
            program_wf(self.dom, program@),
        ensures
            r@.len() == 1,
            r@[0].residual_points@ == residuals_spec(
                self.target@,
                program@,
                self.dom.scale as int,
                self.dom.coverage_radius_sq as int,
            ),
    {
        let ghost scale = self.dom.scale as int;
        let ghost rsq = self.dom.coverage_radius_sq as int;
        let mut res: Vec<Point> = Vec::new();
        let mut i: usize = 0;
        while i < self.target.len()
            invariant
                self.wf(),
                program_wf(self.dom, program@),
                scale == self.dom.scale as int,
                rsq == self.dom.coverage_radius_sq as int,
                i <= self.target@.len(),
                res@ == residuals_spec(self.target@.take(i as int), program@, scale, rsq),
            decreases self.target@.len() - i,
        {
            proof {
                assert(self.target@.take(i + 1).drop_last() =~= self.target@.take(i as int));
                assert(self.target@.take(i + 1).last() == self.target@[i as int]);
            }
            let p = self.target[i];
            if !is_covered(&p, program, &self.dom) {
                res.push(p);
            }
            i += 1;
        }
        proof {
            assert(self.target@.take(self.target@.len() as int) =~= self.target@);
        }
        let mut r: Vec<Constraint> = Vec::new();
        r.push(Constraint { residual_points: res });
        r
    }

    /// Score a rendered cloud against the target: the exact chamfer distance
    /// when the cloud is nonempty and in bounds, `None` otherwise.
    pub fn score_cloud(&self, cloud: &Vec<Point>) -> (r: Option<Score>)
        requires
            self.wf(),
        ensures
            (cloud@.len() > 0 && cloud_in_bounds(cloud@)) ==> (r matches Some(s)
                && s.num == chamfer_num(self.target@, cloud@)
                && s.den == chamfer_den(self.target@, cloud@)
                && s.wf()),
            !(cloud@.len() > 0 && cloud_in_bounds(cloud@)) ==> r is None,
    {
        if cloud_ok(cloud) {
            Some(chamfer_distance(&self.target, cloud))
        } else {
            None
        }
    }

    /// Score a program: render it through the oracle, then measure the
    /// chamfer distance to the target.  `None` — the oracle failed or handed
    /// back an unusable cloud — rejects the candidate.
    pub fn score_program<O: RenderOracle>(&self, oracle: &mut O, program: &Program) -> (r:
        Option<Score>)
        requires
            self.wf(),
            program_wf(self.dom, program@),
        ensures
            r matches Some(s) ==> s.wf(),
    {
        let (kinds, flat) = flatten_program(program);
        proof {
            lemma_flat_params_len(self.dom, program@);
        }
        match oracle.render(kinds, flat) {
            Some(cloud) => self.score_cloud(&cloud),
            None => None,
        }
    }

    /// Project a hole-free sketch into the program it denotes.
    pub fn program_of_sketch(&self) -> (r: Program)
        requires
            self.wf(),
            sketch_filled(self.sketch@),
        ensures
            r@.len() == self.sketch@.len(),
            program_wf(self.dom, r@),
            forall|i: int|
                0 <= i < r@.len() ==> (#[trigger] self.sketch@[i] matches Slot::Filled(k, p)
                    && r@[i].0 == k && r@[i].1@ == p@),
    {
        let mut r: Program = Vec::new();
        let mut i: usize = 0;
        while i < self.sketch.len()
            invariant
                self.wf(),
                sketch_filled(self.sketch@),
                i <= self.sketch@.len(),
                r@.len() == i,
                program_wf(self.dom, r@),
                forall|j: int|
                    0 <= j < i ==> (#[trigger] self.sketch@[j] matches Slot::Filled(k, p)
                        && r@[j].0 == k && r@[j].1@ == p@),
            decreases self.sketch@.len() - i,
        {
            match &self.sketch[i] {
                Slot::Filled(k, p) => {
                    let pc = p.clone();
                    proof {
                        assert(pc@ =~= p@);
                    }
                    r.push((*k, pc));
                },
                Slot::Hole => {
                    proof {
                        assert(self.sketch@[i as int] is Filled);
                        assert(false);
                    }
                },
            }
            i += 1;
        }
        r
    }

    /// One full synthesis run: while the sketch is shorter than the
    /// configured length, append a hole, spend the attempt budget proposing
    /// and scoring candidates for it (accumulating counterexamples, stopping
    /// early once a score satisfies the threshold), then commit the best
    /// candidate seen — or a fresh proposal when every attempt failed — so
    /// that the hole is always resolved.  Returns the projection of the
    /// final, hole-free sketch.
    pub fn run<O: RenderOracle>(
        &mut self,
        oracle: &mut O,
        rng: &mut rand::rngs::SmallRng,
        max_primitives: usize,
        max_attempts_per_hole: usize,
    ) -> (r: Program)
        requires
            old(self).wf(),
            sketch_filled(old(self).sketch@),
        ensures
            final(self).wf(),
            final(self).dom == old(self).dom,
            final(self).target@ == old(self).target@,
            sketch_filled(final(self).sketch@),
            final(self).sketch@.len() == if old(self).sketch@.len() >= max_primitives {
                old(self).sketch@.len() as int
            } else {
                max_primitives as int
            },
            r@.len() == final(self).sketch@.len(),
            program_wf(final(self).dom, r@),
            forall|i: int|
                0 <= i < r@.len() ==> (#[trigger] final(self).sketch@[i] matches Slot::Filled(
                    k,
                    p,
                ) && r@[i].0 == k && r@[i].1@ == p@),
            old(self).constraints@.len() <= final(self).constraints@.len(),
            forall|i: int|
                0 <= i < old(self).constraints@.len() ==> final(self).constraints@[i] == old(
                    self,
                ).constraints@[i],
    {
        while self.sketch.len() < max_primitives
            invariant
                self.wf(),
                self.dom == old(self).dom,
                self.target@ == old(self).target@,
                sketch_filled(self.sketch@),
                old(self).constraints@.len() <= self.constraints@.len(),
                forall|i: int|
                    0 <= i < old(self).constraints@.len() ==> self.constraints@[i] == old(
                        self,
                    ).constraints@[i],
                old(self).sketch@.len() >= max_primitives ==> self.sketch@.len() == old(
                    self,
                ).sketch@.len(),
                old(self).sketch@.len() < max_primitives ==> old(self).sketch@.len()
                    <= self.sketch@.len() <= max_primitives,
            decreases max_primitives - self.sketch@.len(),
        {
            let ghost entry_len = self.sketch@.len();
            self.sketch.push(Slot::Hole);
            let mut best: Option<(u8, Vec<i16>, Score)> = None;
            let mut done = false;
            let mut attempt: usize = 0;
            while attempt < max_attempts_per_hole && !done
                invariant
                    self.wf(),
                    self.dom == old(self).dom,
                    self.target@ == old(self).target@,
                    old(self).constraints@.len() <= self.constraints@.len(),
                    forall|i: int|
                        0 <= i < old(self).constraints@.len() ==> self.constraints@[i] == old(
                            self,
                        ).constraints@[i],
                    self.sketch@.len() == entry_len + 1,
                    entry_len < max_primitives,
                    old(self).sketch@.len() <= entry_len,
                    forall|i: int|
                        0 <= i < self.sketch@.len() - 1 ==> (#[trigger] self.sketch@[i])
                            is Filled,
                    attempt <= max_attempts_per_hole,
                    best matches Some(b) ==> b.0 < 3 && param_in_domain(self.dom, b.1@)
                        && b.2.wf(),
                decreases max_attempts_per_hole - attempt,
            {
                let cand = self.propose_candidate_for_hole(rng);
                let program = self.with_candidate(&cand);
                match self.score_program(oracle, &program) {
                    Some(s) => {
                        let better = match &best {
                            Option::None => true,
                            Option::Some(b) => s.lt(&b.2),
                        };
                        if better {
                            best = Some((cand.0, cand.1, s));
                        }
                        let mut ces = self.compute_counterexamples(&program);
                        let c = ces.remove(0);
                        proof {
                            lemma_residuals_in_bounds(
                                self.target@,
                                program@,
                                self.dom.scale as int,
                                self.dom.coverage_radius_sq as int,
                            );
                        }
                        self.merge_counterexample(c);
                        if s.le(&self.dom.threshold) {
                            done = true;
                        }
                    },
                    None => {},
                }
                attempt += 1;
            }
            let idx = self.sketch.len() - 1;
            let ghost sk0 = self.sketch@;
            match best {
                Some((k, p, _)) => {
                    self.sketch[idx] = Slot::Filled(k, p);
                },
                None => {
                    let cand = self.propose_candidate_for_hole(rng);
                    self.sketch[idx] = Slot::Filled(cand.0, cand.1);
                },
            }
            proof {
                assert(self.sketch@.len() == sk0.len());
                assert(forall|i: int|
                    0 <= i < self.sketch@.len() - 1 ==> self.sketch@[i] == sk0[i]);
                assert(sketch_filled(self.sketch@));
            }
        }
        self.program_of_sketch()
    }
}

} // verus!
