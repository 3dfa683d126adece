//! Rays that are read point by point.
//!
//! A ray keeps a cursor. Each reading moves the cursor on by one, until it reaches the bound
//! that the ray was made with, and yields the point that lies the cursor times the step along
//! the ray. Resetting the ray moves the cursor back to zero and changes nothing else.

use vstd::prelude::*;
use std::ops::Range;
use vstd::std_specs::cmp::PartialEqSpec;
use vstd::std_specs::cmp::PartialOrdIs;
use vstd::std_specs::ops::AddSpec;
use vstd::std_specs::ops::MulSpec;
use crate::error::Error;
use crate::primitive::FromPrimitive;
use crate::primitive::Primitive;
use crate::scalar::counts_to;
use crate::scalar::obeys;
use crate::scalar::one;
use crate::scalar::one_spec;
use crate::scalar::whole_part;
use crate::scalar::zero;
use crate::scalar::zero_spec;
use crate::scalar::Scalar;
use crate::vec2::Vec2;

verus! {

/// A probe that leaves `start` along `direction` and is read at evenly spaced points.
pub struct Ray<T: Copy> {
    start: Vec2<T>,
    direction: Vec2<T>,
    sample_id: T,
    sample_step: T,
    sample_max: T,
}

/// What a ray holds.
pub struct RayView<T: Copy> {
    pub start: Vec2<T>,
    /// The direction, as stored: already divided by its length.
    pub direction: Vec2<T>,
    /// The cursor: how many points have been read since the last reset.
    pub sample_id: T,
    pub sample_step: T,
    pub sample_max: T,
}

impl<T: Copy> View for Ray<T> {
    type V = RayView<T>;

    closed spec fn view(&self) -> RayView<T> {
        RayView {
            start: self.start,
            direction: self.direction,
            sample_id: self.sample_id,
            sample_step: self.sample_step,
            sample_max: self.sample_max,
        }
    }
}

impl<T: Scalar> RayView<T> {
    /// The bound on the number of points is not zero.
    pub open spec fn wf(self) -> bool {
        !self.sample_max.eq_spec(&zero_spec::<T>())
    }

    /// No point is left: the cursor has reached the bound.
    pub open spec fn exhausted(self) -> bool {
        self.sample_id.is_ge(&self.sample_max)
    }

    /// The ray with its cursor moved on by one.
    pub open spec fn advanced(self) -> RayView<T> {
        RayView { sample_id: self.sample_id.add_spec(one_spec::<T>()), ..self }
    }

    /// The ray with its cursor back at zero.
    pub open spec fn rewound(self) -> RayView<T> {
        RayView { sample_id: zero_spec::<T>(), ..self }
    }

    /// How far along the ray the cursor stands.
    pub open spec fn reach(self) -> T {
        self.sample_id.mul_spec(self.sample_step)
    }

    /// The point at the cursor: `start + direction * (sample_id * sample_step)`.
    pub open spec fn sample(self) -> Vec2<T> {
        self.start.add_spec(self.direction.mul_spec(Vec2 { x: self.reach(), y: self.reach() }))
    }

    /// The point at the cursor can be formed.
    pub open spec fn sample_req(self) -> bool {
        &&& self.sample_id.mul_req(self.sample_step)
        &&& self.direction.mul_req(Vec2 { x: self.reach(), y: self.reach() })
        &&& self.start.add_req(self.direction.mul_spec(Vec2 { x: self.reach(), y: self.reach() }))
    }

    /// The cursor can move on by one, and the point it then stands at can be formed.
    pub open spec fn advance_req(self) -> bool {
        self.sample_id.add_req(one_spec::<T>()) && self.advanced().sample_req()
    }

    /// The ray after `n` moves of its cursor.
    pub open spec fn after(self, n: nat) -> RayView<T>
        decreases n,
    {
        if n == 0 {
            self
        } else {
            self.after((n - 1) as nat).advanced()
        }
    }

    /// The cursor can make `n` moves: it reaches the bound at none of the first `n`
    /// positions.
    pub open spec fn runs(self, n: nat) -> bool
        decreases n,
    {
        if n == 0 {
            true
        } else {
            self.runs((n - 1) as nat) && !self.after((n - 1) as nat).exhausted()
        }
    }

    /// Every move that the cursor makes before it reaches the bound can be made.
    pub open spec fn sampling_req(self) -> bool {
        forall|n: nat|
            #[trigger] self.runs(n) && !self.after(n).exhausted() ==> self.after(n).advance_req()
    }

    /// `points` is what reading the ray to its end yields, and `end` the ray it leaves: the
    /// cursor makes as many moves as it can, and each move yields the point it arrives at.
    pub open spec fn yields(self, points: Seq<Vec2<T>>, end: RayView<T>) -> bool {
        &&& self.runs(points.len())
        &&& self.after(points.len()).exhausted()
        &&& end == self.after(points.len())
        &&& forall|k: int|
            0 <= k < points.len() ==> #[trigger] points[k] == self.after((k + 1) as nat).sample()
    }
}

impl<T: Scalar> Ray<T> {
    /// A ray from `start` along `direction`, which is divided by its length, with its cursor
    /// at zero. A bound of zero points is refused: the failure names the bound, cast to 32
    /// bits, and the range from one up to the largest index of the machine, whose end reads
    /// `-1` in 32 bits.
    pub fn new(start: Vec2<T>, direction: Vec2<T>, sample_max: T, sample_step: T) -> (r: Result<
        Self,
        Error,
    >)
        requires
            obeys::<T>(),
            !sample_max.eq_spec(&zero_spec::<T>()) ==> direction.normalize_req(),
        ensures
            match r {
                Ok(ray) => {
                    &&& !sample_max.eq_spec(&zero_spec::<T>())
                    &&& ray@.wf()
                    &&& ray@ == (RayView {
                        start,
                        direction: direction.normalized_spec(),
                        sample_id: zero_spec::<T>(),
                        sample_step,
                        sample_max,
                    })
                },
                Err(e) => {
                    &&& sample_max.eq_spec(&zero_spec::<T>())
                    &&& e == (Error::OutOfBounds {
                        value: <i32 as FromPrimitive<Primitive>>::from_primitive_spec(
                            sample_max.to_primitive_spec(),
                        ),
                        range: (Range { start: 1i32, end: -1i32 }),
                    })
                },
            },
    {
        if sample_max == zero() {
            return Err(
                Error::OutOfBounds {
                    value: <i32 as FromPrimitive<Primitive>>::from_primitive(
                        sample_max.to_primitive(),
                    ),
                    range: Range { start: 1, end: -1 },
                },
            );
        }
        let mut direction = direction;
        direction.normalize();
        Ok(Self { start, direction, sample_step, sample_id: zero(), sample_max })
    }

    /// Moves the cursor back to zero.
    pub fn reset(&mut self)
        ensures
            final(self)@ == old(self)@.rewound(),
    {
        self.sample_id = zero();
    }

    /// The next point, while the cursor is below the bound.
    pub fn next(&mut self) -> (r: Option<Vec2<T>>)
        requires
            obeys::<T>(),
            !old(self)@.exhausted() ==> old(self)@.advance_req(),
        ensures
            match r {
                Some(point) => {
                    &&& !old(self)@.exhausted()
                    &&& final(self)@ == old(self)@.advanced()
                    &&& point == final(self)@.sample()
                },
                None => old(self)@.exhausted() && final(self)@ == old(self)@,
            },
    {
        if self.sample_id >= self.sample_max {
            return None;
        }
        self.sample_id = self.sample_id + one();
        let reach = self.sample_id * self.sample_step;
        Some(self.start + self.direction * Vec2::new(reach, reach))
    }

    /// All the points that are left, in order. The reading comes to an end because the points
    /// are collected, and no collection outgrows the memory of the machine.
    pub fn samples(&mut self) -> (points: Vec<Vec2<T>>)
        requires
            obeys::<T>(),
            old(self)@.sampling_req(),
        ensures
            old(self)@.yields(points@, final(self)@),
    {
        let mut ret: Vec<Vec2<T>> = Vec::new();
        loop
            invariant
                obeys::<T>(),
                old(self)@.sampling_req(),
                old(self)@.runs(ret@.len()),
                self@ == old(self)@.after(ret@.len()),
                forall|k: int|
                    0 <= k < ret@.len() ==> #[trigger] ret@[k] == old(self)@.after(
                        (k + 1) as nat,
                    ).sample(),
            ensures
                old(self)@.yields(ret@, self@),
            decreases usize::MAX - ret.len(),
        {
            match self.next() {
                Some(sample) => {
                    ret.push(sample);
                },
                None => {
                    break ;
                },
            }
        }
        ret
    }
}

/// Over a representation that counts like the whole numbers, a ray whose cursor stands at
/// zero has as many points left as its bound says: the cursor makes that many moves and
/// then has reached the bound.
pub proof fn lemma_counting_ray<T: Scalar>(ray: RayView<T>, n: nat)
    requires
        whole_part(ray.sample_id) == 0,
        whole_part(ray.sample_max) == n,
        counts_to(ray.sample_max),
    ensures
        ray.runs(n),
        ray.after(n).exhausted(),
        forall|points: Seq<Vec2<T>>, end: RayView<T>|
            #[trigger] ray.yields(points, end) ==> points.len() == n,
{
    lemma_counting_steps(ray, n, n);
    assert forall|points: Seq<Vec2<T>>, end: RayView<T>| #[trigger]
        ray.yields(points, end) implies points.len() == n by {
        if points.len() < n {
            lemma_runs_before(ray, n, points.len());
        } else if n < points.len() {
            lemma_runs_before(ray, points.len(), n);
        }
    }
}

/// The first `k` moves of a counting cursor, up to the bound `n`.
proof fn lemma_counting_steps<T: Scalar>(ray: RayView<T>, n: nat, k: nat)
    requires
        whole_part(ray.sample_id) == 0,
        whole_part(ray.sample_max) == n,
        counts_to(ray.sample_max),
        k <= n,
    ensures
        ray.runs(k),
        whole_part(ray.after(k).sample_id) == k,
        ray.after(k).sample_max == ray.sample_max,
        ray.after(k).exhausted() <==> k == n,
    decreases k,
{
    if k > 0 {
        lemma_counting_steps(ray, n, (k - 1) as nat);
    }
}

/// Moving the cursor changes nothing else of a ray.
pub proof fn lemma_after_keeps<T: Scalar>(ray: RayView<T>, n: nat)
    ensures
        ray.after(n).rewound() == ray.rewound(),
    decreases n,
{
    if n > 0 {
        lemma_after_keeps(ray, (n - 1) as nat);
    }
}

/// A cursor that can make `n` moves has not reached the bound at any earlier position.
pub proof fn lemma_runs_before<T: Scalar>(ray: RayView<T>, n: nat, m: nat)
    requires
        ray.runs(n),
        m < n,
    ensures
        !ray.after(m).exhausted(),
    decreases n,
{
    if m + 1 < n {
        lemma_runs_before(ray, (n - 1) as nat, m);
    }
}

/// Reading a ray to its end yields one sequence of points only, and leaves one ray only.
pub proof fn lemma_yields_once<T: Scalar>(
    ray: RayView<T>,
    first: Seq<Vec2<T>>,
    left: RayView<T>,
    second: Seq<Vec2<T>>,
    end: RayView<T>,
)
    requires
        ray.yields(first, left),
        ray.yields(second, end),
    ensures
        first == second,
        left == end,
{
    if first.len() < second.len() {
        lemma_runs_before(ray, second.len(), first.len());
    } else if second.len() < first.len() {
        lemma_runs_before(ray, first.len(), second.len());
    }
    assert(first =~= second);
}

/// Sampling can be started again: a ray that was read to its end from a cursor at zero, and
/// then reset, yields the same points when it is read to its end once more.
pub proof fn lemma_reset_restarts<T: Scalar>(
    ray: RayView<T>,
    first: Seq<Vec2<T>>,
    left: RayView<T>,
    second: Seq<Vec2<T>>,
    end: RayView<T>,
)
    requires
        ray.sample_id == zero_spec::<T>(),
        ray.yields(first, left),
        left.rewound().yields(second, end),
    ensures
        second == first,
        end == left,
{
    lemma_after_keeps(ray, first.len());
    assert(left.rewound() == ray);
    lemma_yields_once(ray, first, left, second, end);
}

} // verus!
