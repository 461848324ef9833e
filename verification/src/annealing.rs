//! The flat shape set of the first version of the program and its
//! per-generation mutation.
use vstd::prelude::*;

use rand::rngs::SmallRng;

use crate::rng::{coin_flip, random_below_u32, random_below_usize, random_u32};
use crate::shapes::{
    alpha_of, canvas_ok, coord_drawn, draws_in_range, fresh_ok, lemma_small_canvas_fresh, lemma_small_canvas_mutation,
    radius_ok, geometry_in_canvas, is_normalized, kind_allowed, mutate_shape,
    mutation_ok, normalized, random_shape, random_small_shape, same_paint, shape_mutated, small_around, small_fresh_ok,
    Shape, MAXALPHA, MINALPHA,
};

verus! {

/// A bounded list of shapes with an optional blur radius (`R` is the
/// radius type; the application's is `f32`).
pub struct ShapeSet<R> {
    /// The shapes, drawn in order.
    pub shapes: Vec<Shape>,
    /// Most shapes the set may hold.
    pub capacity: usize,
    /// Blur radius of this candidate, if any.
    pub blur_radius: Option<R>,
}

impl<R: Copy> ShapeSet<R> {
    /// An empty set that can hold `capacity` shapes.
    pub fn new(capacity: usize) -> (s: Self)
        ensures
            s.shapes@.len() == 0,
            s.capacity == capacity,
            s.blur_radius is None,
    {
        ShapeSet { shapes: Vec::new(), capacity, blur_radius: None }
    }

    /// The shapes.
    pub fn active(&self) -> (s: &[Shape])
        ensures
            s@ == self.shapes@,
    {
        self.shapes.as_slice()
    }

    /// Number of shapes.
    pub fn len(&self) -> (n: usize)
        ensures
            n == self.shapes@.len(),
    {
        self.shapes.len()
    }
}

/// Every shape is normalised for the margin, with its alpha in range.
pub open spec fn shapes_ok(s: Seq<Shape>, width: u32, height: u32, margin: i16) -> bool {
    forall|i: int|
        0 <= i < s.len() ==> is_normalized(#[trigger] s[i], width, height, margin) && MINALPHA <= alpha_of(s[i])
            <= MAXALPHA
}

/// The blur radius after a blur mutation: a missing one appears at
/// `initial`; a present one steps and disappears if `kept` rejects it.
pub open spec fn radius_mutated<R, BS: Fn(R, u32, bool) -> R, BK: Fn(R) -> bool>(
    b: Option<R>,
    r: Option<R>,
    step: BS,
    kept: BK,
    initial: R,
) -> bool {
    match b {
        None => r == Some(initial),
        Some(x) => exists|raw: u32, up: bool, y: R|
            #![trigger step.ensures((x, raw, up), y)]
            step.ensures((x, raw, up), y) && (r == Some(y) && kept.ensures((y,), true) || r is None && kept.ensures(
                (y,),
                false,
            )),
    }
}

/// A shape a generation may add: of an allowed kind, normalised, its alpha
/// in range, and either drawn anywhere on the canvas or drawn small (spread
/// 5, 10, 25 or 2) around a point of the canvas, then normalised.
pub open spec fn fresh_shape(x: Shape, width: u32, height: u32, margin: i16, use_triangles: bool, use_circles: bool) -> bool {
    &&& kind_allowed(x, use_triangles, use_circles)
    &&& MINALPHA <= alpha_of(x) <= MAXALPHA
    &&& is_normalized(x, width, height, margin)
    &&& {
        ||| exists|u: Shape|
            #![trigger normalized(u, width, height, margin)]
            geometry_in_canvas(u, width, height) && same_paint(u, x) && x == normalized(u, width, height, margin)
        ||| exists|u: Shape, px: int, py: int, delta: int|
            #![trigger normalized(u, width, height, margin), small_around(u, px, py, delta)]
            (delta == 5 || delta == 10 || delta == 25 || delta == 2) && coord_drawn(px as i16, width) && coord_drawn(
                py as i16,
                height,
            ) && i16::MIN <= px <= i16::MAX && i16::MIN <= py <= i16::MAX && same_paint(u, x) && small_around(u, px, py, delta) && x == normalized(u, width, height, margin)
    }
}

/// `s` with the shapes at `a` and `b` exchanged.
pub open spec fn swapped(s: Seq<Shape>, a: int, b: int) -> Seq<Shape> {
    s.update(a, s[b]).update(b, s[a])
}

/// `t` is `s` after at most `n` single-shape mutations, each at some
/// position, with values `draws_in_range` allows.
pub open spec fn mutation_chain(s: Seq<Shape>, t: Seq<Shape>, n: nat, width: u32, height: u32, margin: i16) -> bool
    decreases n,
{
    if n == 0 {
        t == s
    } else {
        ||| mutation_chain(s, t, (n - 1) as nat, width, height, margin)
        ||| exists|c: Seq<Shape>, i: int, choice: u32, d: [i16; 6]|
            #![trigger c.update(i, shape_mutated(c[i], choice, d, width, height, margin))]
            mutation_chain(s, c, (n - 1) as nat, width, height, margin) && 0 <= i < c.len() && choice < 6
                && draws_in_range(c[i], choice, d, width, height) && t == c.update(
                i,
                shape_mutated(c[i], choice, d, width, height, margin),
            )
    }
}

/// One mutation attempt on `c` giving `t`: the shape at `p` is picked and
/// `r` rolled in `[0, 1000)`; exactly when `r` is below `rate` the shape is
/// replaced by `shape_mutated` of some draws in range, else nothing changes.
pub open spec fn shape_attempt(c: Seq<Shape>, t: Seq<Shape>, p: int, r: int, rate: int, width: u32, height: u32, margin: i16) -> bool {
    &&& 0 <= p < c.len()
    &&& 0 <= r < 1000
    &&& if r < rate {
        exists|choice: u32, d: [i16; 6]|
            #![trigger shape_mutated(c[p], choice, d, width, height, margin)]
            choice < 6 && draws_in_range(c[p], choice, d, width, height) && t == c.update(
                p,
                shape_mutated(c[p], choice, d, width, height, margin),
            )
    } else {
        t == c
    }
}

/// `t` is `s` after the first `n` mutation attempts recorded in `picks` and
/// `rolls` (see `shape_attempt`).
pub open spec fn shape_attempts(
    s: Seq<Shape>,
    t: Seq<Shape>,
    n: nat,
    picks: Seq<int>,
    rolls: Seq<int>,
    rate: int,
    width: u32,
    height: u32,
    margin: i16,
) -> bool
    decreases n,
{
    if n == 0 {
        t == s
    } else {
        exists|c: Seq<Shape>|
            #![trigger shape_attempt(c, t, picks[n - 1], rolls[n - 1], rate, width, height, margin)]
            shape_attempts(s, c, (n - 1) as nat, picks, rolls, rate, width, height, margin) && shape_attempt(
                c,
                t,
                picks[n - 1],
                rolls[n - 1],
                rate,
                width,
                height,
                margin,
            )
    }
}

/// With a mutation rate of 0 no attempt mutates: the shapes stay as they
/// were.
pub proof fn lemma_zero_rate_shape_attempts(
    s: Seq<Shape>,
    t: Seq<Shape>,
    n: nat,
    picks: Seq<int>,
    rolls: Seq<int>,
    width: u32,
    height: u32,
    margin: i16,
)
    requires
        shape_attempts(s, t, n, picks, rolls, 0, width, height, margin),
    ensures
        t == s,
    decreases n,
{
    if n > 0 {
        let c = choose|c: Seq<Shape>|
            #![trigger shape_attempt(c, t, picks[n - 1], rolls[n - 1], 0, width, height, margin)]
            shape_attempts(s, c, (n - 1) as nat, picks, rolls, 0, width, height, margin) && shape_attempt(
                c,
                t,
                picks[n - 1],
                rolls[n - 1],
                0,
                width,
                height,
                margin,
            );
        lemma_zero_rate_shape_attempts(s, c, (n - 1) as nat, picks, rolls, width, height, margin);
    }
}

/// Attempts past the first `n` do not matter to the first `n`.
proof fn lemma_shape_attempts_extend(
    s: Seq<Shape>,
    t: Seq<Shape>,
    n: nat,
    picks: Seq<int>,
    rolls: Seq<int>,
    p: int,
    r: int,
    rate: int,
    width: u32,
    height: u32,
    margin: i16,
)
    requires
        shape_attempts(s, t, n, picks, rolls, rate, width, height, margin),
        n <= picks.len(),
        n <= rolls.len(),
    ensures
        shape_attempts(s, t, n, picks.push(p), rolls.push(r), rate, width, height, margin),
    decreases n,
{
    if n > 0 {
        let c = choose|c: Seq<Shape>|
            #![trigger shape_attempt(c, t, picks[n - 1], rolls[n - 1], rate, width, height, margin)]
            shape_attempts(s, c, (n - 1) as nat, picks, rolls, rate, width, height, margin) && shape_attempt(
                c,
                t,
                picks[n - 1],
                rolls[n - 1],
                rate,
                width,
                height,
                margin,
            );
        lemma_shape_attempts_extend(s, c, (n - 1) as nat, picks, rolls, p, r, rate, width, height, margin);
        assert(picks.push(p)[n - 1] == picks[n - 1] && rolls.push(r)[n - 1] == rolls[n - 1]);
    }
}

/// One more attempt extends the record.
proof fn lemma_shape_attempt_step(
    s: Seq<Shape>,
    c: Seq<Shape>,
    t: Seq<Shape>,
    picks: Seq<int>,
    rolls: Seq<int>,
    p: int,
    r: int,
    rate: int,
    width: u32,
    height: u32,
    margin: i16,
)
    requires
        shape_attempts(s, c, picks.len(), picks, rolls, rate, width, height, margin),
        rolls.len() == picks.len(),
        shape_attempt(c, t, p, r, rate, width, height, margin),
    ensures
        shape_attempts(s, t, picks.len() + 1, picks.push(p), rolls.push(r), rate, width, height, margin),
{
    lemma_shape_attempts_extend(s, c, picks.len(), picks, rolls, p, r, rate, width, height, margin);
    assert(picks.push(p)[picks.len() as int] == p && rolls.push(r)[picks.len() as int] == r);
    assert(((picks.len() + 1) - 1) as nat == picks.len());
}

/// What one generation does to the shape list: one fresh shape appended;
/// one shape removed (of two or more); or, after perhaps exchanging two
/// shapes, ten mutation attempts, each mutating its picked shape exactly
/// when its roll out of 1000 is below the mutation rate.
pub open spec fn shapes_step(
    s: Seq<Shape>,
    t: Seq<Shape>,
    width: u32,
    height: u32,
    margin: i16,
    mutation_rate: u32,
    use_triangles: bool,
    use_circles: bool,
) -> bool {
    ||| exists|x: Shape| #![trigger s.push(x)] t == s.push(x) && fresh_shape(x, width, height, margin, use_triangles, use_circles)
    ||| s.len() > 1 && exists|i: int| 0 <= i < s.len() && t == #[trigger] s.remove(i)
    ||| exists|mid: Seq<Shape>, picks: Seq<int>, rolls: Seq<int>|
        #![trigger shape_attempts(mid, t, 10, picks, rolls, mutation_rate as int, width, height, margin)]
        (mid == s || exists|a: int, b: int| 0 <= a < s.len() && 0 <= b < s.len() && mid == #[trigger] swapped(s, a, b))
            && picks.len() == 10 && rolls.len() == 10 && shape_attempts(
            mid,
            t,
            10,
            picks,
            rolls,
            mutation_rate as int,
            width,
            height,
            margin,
        )
}

/// A generation of `s` with margin `margin` runs without overflow: new
/// shapes, full size or of spread 5, 10, 25 or 2, can be drawn, and every
/// shape that fewer than ten single-shape mutations (after perhaps
/// exchanging two shapes) can reach can be mutated again.
pub open spec fn generation_ok(
    s: Seq<Shape>,
    width: u32,
    height: u32,
    margin: i16,
    use_triangles: bool,
    use_circles: bool,
) -> bool {
    &&& fresh_ok(width, height, margin, use_triangles, use_circles)
    &&& small_fresh_ok(width, height, margin, 5, use_triangles, use_circles)
    &&& small_fresh_ok(width, height, margin, 10, use_triangles, use_circles)
    &&& small_fresh_ok(width, height, margin, 25, use_triangles, use_circles)
    &&& small_fresh_ok(width, height, margin, 2, use_triangles, use_circles)
    &&& forall|mid: Seq<Shape>, t: Seq<Shape>, n: nat, i: int|
        #![trigger mutation_chain(mid, t, n, width, height, margin), t[i]]
        n < 10 && (mid == s || exists|a: int, b: int| 0 <= a < s.len() && 0 <= b < s.len() && mid == #[trigger] swapped(s, a, b))
            && mutation_chain(mid, t, n, width, height, margin) && 0 <= i < t.len() ==> mutation_ok(
            t[i],
            width,
            height,
            margin,
        )
}

/// Mutate a shape set for one generation, with the margin of its current
/// blur (`margin_of` of the radius, 0 without one): one time in ten add a
/// random shape (full size one time in five, else small with spread 5, 10,
/// 25 or 2) when below both the capacity and `max_shapes_incremental`; one
/// time in twenty remove a random shape (when there are two or more).
/// Otherwise one time in twenty swap two random shapes, one time in twenty
/// mutate the blur, then ten times pick a shape and mutate it with
/// probability `mutation_rate / 1000`.
pub fn mutate_shapes<R: Copy, BS: Fn(R, u32, bool) -> R, BK: Fn(R) -> bool, MG: Fn(R) -> i16>(
    rng: &mut SmallRng,
    set: &mut ShapeSet<R>,
    max_shapes_incremental: usize,
    width: u32,
    height: u32,
    mutation_rate: u32,
    use_triangles: bool,
    use_circles: bool,
    blur_step: &BS,
    blur_kept: &BK,
    initial_blur: R,
    margin_of: &MG,
)
    requires
        old(set).shapes@.len() >= 1,
        forall|m: i16|
            #[trigger] margin_for_radius(old(set).blur_radius, m, *margin_of) ==> generation_ok(
                old(set).shapes@,
                width,
                height,
                m,
                use_triangles,
                use_circles,
            ),
        forall|x: R| margin_of.requires((x,)),
        forall|x: R, raw: u32, up: bool| blur_step.requires((x, raw, up)),
        forall|x: R| blur_kept.requires((x,)),
    ensures
        final(set).capacity == old(set).capacity,
        final(set).shapes@.len() >= 1,
        final(set).shapes@.len() == old(set).shapes@.len() || (final(set).shapes@.len() == old(set).shapes@.len() + 1
            && old(set).shapes@.len() < old(set).capacity && old(set).shapes@.len() < max_shapes_incremental) || (
        final(set).shapes@.len() + 1 == old(set).shapes@.len()),
        final(set).blur_radius == old(set).blur_radius || radius_mutated(
            old(set).blur_radius,
            final(set).blur_radius,
            *blur_step,
            *blur_kept,
            initial_blur,
        ),
        exists|m: i16|
            #[trigger] margin_for_radius(old(set).blur_radius, m, *margin_of) && (shapes_ok(
                old(set).shapes@,
                width,
                height,
                m,
            ) ==> shapes_ok(final(set).shapes@, width, height, m)) && shapes_step(
                old(set).shapes@,
                final(set).shapes@,
                width,
                height,
                m,
                mutation_rate,
                use_triangles,
                use_circles,
            ),
{
    let margin: i16 = match set.blur_radius {
        Some(r) => margin_of(r),
        None => 0,
    };
    let ghost m0 = margin;
    let ghost orig = set.shapes@;
    assert(margin_for_radius(old(set).blur_radius, m0, *margin_of));
    assert(generation_ok(orig, width, height, m0, use_triangles, use_circles));

    if random_below_u32(rng, 0, 10) == 0 && set.shapes.len() < set.capacity && set.shapes.len() < max_shapes_incremental {
        let choice = random_below_u32(rng, 0, 5);
        let new_shape = if choice == 0 {
            random_shape(rng, width, height, use_triangles, use_circles, margin)
        } else if choice == 1 {
            random_small_shape(rng, width, height, 5, use_triangles, use_circles, margin)
        } else if choice == 2 {
            random_small_shape(rng, width, height, 10, use_triangles, use_circles, margin)
        } else if choice == 3 {
            random_small_shape(rng, width, height, 25, use_triangles, use_circles, margin)
        } else {
            random_small_shape(rng, width, height, 2, use_triangles, use_circles, margin)
        };
        set.shapes.push(new_shape);
        proof {
            lemma_push_ok(orig, new_shape, width, height, m0);
            assert(fresh_shape(new_shape, width, height, m0, use_triangles, use_circles));
            assert(set.shapes@ == orig.push(new_shape));
        }
        return;
    }

    if random_below_u32(rng, 0, 20) == 0 && set.shapes.len() > 1 {
        let idx = random_below_usize(rng, 0, set.shapes.len());
        set.shapes.remove(idx);
        proof {
            assert(set.shapes@ == orig.remove(idx as int));
            lemma_remove_ok(orig, idx as int, width, height);
        }
        return;
    }

    if random_below_u32(rng, 0, 20) == 0 && set.shapes.len() >= 2 {
        let a = random_below_usize(rng, 0, set.shapes.len());
        let b = random_below_usize(rng, 0, set.shapes.len());
        if a != b {
            let sa = set.shapes[a];
            let sb = set.shapes[b];
            set.shapes.set(a, sb);
            set.shapes.set(b, sa);
            proof {
                lemma_swap_ok(orig, set.shapes@, a as int, b as int, width, height);
                assert(set.shapes@ == swapped(orig, a as int, b as int));
            }
        }
    }

    if random_below_u32(rng, 0, 20) == 0 {
        set.blur_radius = match set.blur_radius {
            None => Some(initial_blur),
            Some(r) => {
                let raw = random_u32(rng);
                let up = coin_flip(rng);
                let y = blur_step(r, raw, up);
                assert(blur_step.ensures((r, raw, up), y));
                if blur_kept(y) {
                    Some(y)
                } else {
                    None
                }
            },
        };
    }

    assert(set.blur_radius == old(set).blur_radius || radius_mutated(
        old(set).blur_radius,
        set.blur_radius,
        *blur_step,
        *blur_kept,
        initial_blur,
    ));
    let ghost blur_after = set.blur_radius;
    let ghost mid = set.shapes@;
    let ghost mut picks: Seq<int> = Seq::empty();
    let ghost mut rolls: Seq<int> = Seq::empty();
    let mut t: usize = 0;
    while t < 10
        invariant
            set.blur_radius == blur_after,
            margin == m0,
            generation_ok(orig, width, height, m0, use_triangles, use_circles),
            mid == orig || exists|a: int, b: int|
                0 <= a < orig.len() && 0 <= b < orig.len() && mid == #[trigger] swapped(orig, a, b),
            set.shapes@.len() == mid.len(),
            mid.len() >= 1,
            set.capacity == old(set).capacity,
            shapes_ok(mid, width, height, margin) ==> shapes_ok(set.shapes@, width, height, margin),
            t <= 10,
            mutation_chain(mid, set.shapes@, t as nat, width, height, margin),
            picks.len() == t,
            rolls.len() == t,
            shape_attempts(mid, set.shapes@, t as nat, picks, rolls, mutation_rate as int, width, height, margin),
        decreases 10 - t,
    {
        let idx = random_below_usize(rng, 0, set.shapes.len());
        let roll = random_below_u32(rng, 0, 1000);
        let ghost before0 = set.shapes@;
        if roll < mutation_rate {
            let mut s = set.shapes[idx];
            let ghost s0 = s;
            proof {
                assert(set.shapes@[idx as int] == s0);
                assert(mutation_ok(set.shapes@[idx as int], width, height, margin));
            }
            mutate_shape(rng, &mut s, width, height, margin);
            let ghost before = set.shapes@;
            set.shapes.set(idx, s);
            proof {
                let (ch, dd) = choose|choice: u32, d: [i16; 6]|
                    choice < 6 && draws_in_range(s0, choice, d, width, height) && s == #[trigger] shape_mutated(
                        s0,
                        choice,
                        d,
                        width,
                        height,
                        margin,
                    );
                assert(before[idx as int] == s0);
                assert(set.shapes@ == before.update(idx as int, shape_mutated(before[idx as int], ch, dd, width, height, margin)));
                assert(mutation_chain(mid, set.shapes@, (t + 1) as nat, width, height, margin));
                assert(shape_attempt(before, set.shapes@, idx as int, roll as int, mutation_rate as int, width, height, margin));
                assert forall|i: int| 0 <= i < set.shapes@.len() implies (shapes_ok(before, width, height, margin)
                    ==> is_normalized(#[trigger] set.shapes@[i], width, height, margin) && MINALPHA <= alpha_of(
                    set.shapes@[i],
                ) <= MAXALPHA) by {
                    if i != idx {
                        assert(set.shapes@[i] == before[i]);
                    } else {
                        if shapes_ok(before, width, height, margin) {
                            assert(is_normalized(before[i], width, height, margin));
                        }
                    }
                }
            }
        }
        proof {
            if !(mutation_chain(mid, set.shapes@, (t + 1) as nat, width, height, margin)) {
                assert(mutation_chain(mid, set.shapes@, t as nat, width, height, margin));
            }
            assert(shape_attempt(before0, set.shapes@, idx as int, roll as int, mutation_rate as int, width, height, margin));
            lemma_shape_attempt_step(mid, before0, set.shapes@, picks, rolls, idx as int, roll as int, mutation_rate as int, width, height, margin);
            picks = picks.push(idx as int);
            rolls = rolls.push(roll as int);
        }
        t = t + 1;
    }
    assert(mutation_chain(mid, set.shapes@, 10, width, height, margin));
}

/// The margin a blur radius gives: 0 without one, else what `margin_of`
/// may return for it.
pub open spec fn margin_for_radius<R, MG: Fn(R) -> i16>(b: Option<R>, m: i16, margin_of: MG) -> bool {
    match b {
        None => m == 0,
        Some(r) => margin_of.ensures((r,), m),
    }
}

/// Mutations on a canvas within `canvas_ok` keep every radius within
/// `radius_ok`.
proof fn lemma_chain_keeps_radii(mid: Seq<Shape>, t: Seq<Shape>, n: nat, width: u32, height: u32, margin: i16)
    requires
        canvas_ok(width, height, margin),
        forall|i: int| 0 <= i < mid.len() ==> radius_ok(#[trigger] mid[i]),
        mutation_chain(mid, t, n, width, height, margin),
    ensures
        forall|i: int| 0 <= i < t.len() ==> radius_ok(#[trigger] t[i]),
    decreases n,
{
    if n > 0 {
        if mutation_chain(mid, t, (n - 1) as nat, width, height, margin) {
            lemma_chain_keeps_radii(mid, t, (n - 1) as nat, width, height, margin);
        } else {
            let (c, k, choice, d) = choose|c: Seq<Shape>, i: int, choice: u32, d: [i16; 6]|
                mutation_chain(mid, c, (n - 1) as nat, width, height, margin) && 0 <= i < c.len() && choice < 6
                    && draws_in_range(c[i], choice, d, width, height) && t == #[trigger] c.update(
                    i,
                    shape_mutated(c[i], choice, d, width, height, margin),
                );
            lemma_chain_keeps_radii(mid, c, (n - 1) as nat, width, height, margin);
            lemma_small_canvas_mutation(c[k], width, height, margin);
            assert forall|i: int| 0 <= i < t.len() implies radius_ok(#[trigger] t[i]) by {
                if i != k {
                    assert(t[i] == c[i]);
                }
            }
        }
    }
}

/// On a canvas within `canvas_ok`, a generation of shapes whose radii are
/// within `radius_ok` runs without overflow.
pub proof fn lemma_small_canvas_generation(
    s: Seq<Shape>,
    width: u32,
    height: u32,
    margin: i16,
    use_triangles: bool,
    use_circles: bool,
)
    requires
        canvas_ok(width, height, margin),
        forall|i: int| 0 <= i < s.len() ==> radius_ok(#[trigger] s[i]),
    ensures
        generation_ok(s, width, height, margin, use_triangles, use_circles),
{
    lemma_small_canvas_fresh(width, height, margin, 5, use_triangles, use_circles);
    lemma_small_canvas_fresh(width, height, margin, 10, use_triangles, use_circles);
    lemma_small_canvas_fresh(width, height, margin, 25, use_triangles, use_circles);
    lemma_small_canvas_fresh(width, height, margin, 2, use_triangles, use_circles);
    assert forall|mid: Seq<Shape>, t: Seq<Shape>, n: nat, i: int|
        n < 10 && (mid == s || exists|a: int, b: int| 0 <= a < s.len() && 0 <= b < s.len() && mid == #[trigger] swapped(s, a, b))
            && mutation_chain(mid, t, n, width, height, margin) && 0 <= i < t.len() implies mutation_ok(
        t[i],
        width,
        height,
        margin,
    ) by {
        assert forall|j: int| 0 <= j < mid.len() implies radius_ok(#[trigger] mid[j]) by {
            if mid != s {
                let (a, b) = choose|a: int, b: int| 0 <= a < s.len() && 0 <= b < s.len() && mid == #[trigger] swapped(s, a, b);
                if j == b {
                    assert(mid[j] == s[a]);
                } else if j == a {
                    assert(mid[j] == s[b]);
                } else {
                    assert(mid[j] == s[j]);
                }
            }
        }
        lemma_chain_keeps_radii(mid, t, n, width, height, margin);
        lemma_small_canvas_mutation(t[i], width, height, margin);
    }
}

proof fn lemma_push_ok(s: Seq<Shape>, x: Shape, width: u32, height: u32, margin: i16)
    requires
        is_normalized(x, width, height, margin),
        MINALPHA <= alpha_of(x) <= MAXALPHA,
    ensures
        shapes_ok(s, width, height, margin) ==> shapes_ok(s.push(x), width, height, margin),
{
    if shapes_ok(s, width, height, margin) {
        assert forall|i: int| 0 <= i < s.push(x).len() implies is_normalized(#[trigger] s.push(x)[i], width, height, margin)
            && MINALPHA <= alpha_of(s.push(x)[i]) <= MAXALPHA by {
            if i < s.len() {
                assert(s.push(x)[i] == s[i]);
            }
        }
    }
}

proof fn lemma_remove_ok(s: Seq<Shape>, k: int, width: u32, height: u32)
    requires
        0 <= k < s.len(),
    ensures
        forall|m: i16| shapes_ok(s, width, height, m) ==> #[trigger] shapes_ok(s.remove(k), width, height, m),
{
    assert forall|m: i16| shapes_ok(s, width, height, m) implies #[trigger] shapes_ok(s.remove(k), width, height, m) by {
        assert forall|i: int| 0 <= i < s.remove(k).len() implies is_normalized(#[trigger] s.remove(k)[i], width, height, m)
            && MINALPHA <= alpha_of(s.remove(k)[i]) <= MAXALPHA by {
            if i < k {
                assert(s.remove(k)[i] == s[i]);
            } else {
                assert(s.remove(k)[i] == s[i + 1]);
            }
        }
    }
}

proof fn lemma_swap_ok(s: Seq<Shape>, t: Seq<Shape>, a: int, b: int, width: u32, height: u32)
    requires
        0 <= a < s.len(),
        0 <= b < s.len(),
        t == s.update(a, s[b]).update(b, s[a]),
    ensures
        forall|m: i16| shapes_ok(s, width, height, m) ==> #[trigger] shapes_ok(t, width, height, m),
{
    assert forall|m: i16| shapes_ok(s, width, height, m) implies #[trigger] shapes_ok(t, width, height, m) by {
        assert forall|i: int| 0 <= i < t.len() implies is_normalized(#[trigger] t[i], width, height, m) && MINALPHA
            <= alpha_of(t[i]) <= MAXALPHA by {
            if i == b {
                assert(t[i] == s[a]);
            } else if i == a {
                assert(t[i] == s[b]);
            } else {
                assert(t[i] == s[i]);
            }
        }
    }
}

} // verus!
