//! The collision resolver: what a ball's contacts of one tick do to it.
//!
//! A contact with a paddle turns the ball's velocity by an angle that depends on
//! where along the paddle's height the ball struck, and scales it. A contact with
//! a goal scores for the team that does not defend it, once per ball and tick. A
//! contact with anything else is left to the physics step.

use vstd::prelude::*;
use crate::fixed::{add_sat, saturate, sub_sat, ONE};
use crate::game_entities::{
    Ball, BallBundle, BoundsBundle, Collider, ContactPair, Goal, GoalEvent, Opposite,
    PaddleBundle, Team, Transform, Velocity,
};
use crate::random::random_fraction;
use crate::rotation::{rotate_spec, rotation_spec};
use crate::utils::{inverse_lerp, inverse_lerp_spec, lemma_lerp_between, lerp, lerp_spec, rotate_vec2};

verus! {

/// The deflection, in fixed-point degrees, at the bottom end of a paddle: upward.
pub const MIN_ANGLE: i64 = 45_000_000;

/// The deflection, in fixed-point degrees, at the top end of a paddle: downward.
pub const MAX_ANGLE: i64 = -45_000_000;

/// What a ball touched.
#[derive(Clone, Copy, Debug, PartialEq, Eq, Structural)]
pub enum ContactKind {
    /// The paddle at this index.
    Paddle(usize),
    /// The goal at this index among the boundaries.
    Goal(usize),
    /// A wall, or nothing that this resolver knows.
    Neither,
}

/// What the contacts of one tick made of a ball: its velocity, and the team that
/// scored by it, if one did.
pub struct Outcome {
    pub velocity: Velocity,
    pub goal: Option<Team>,
}

/// The identifiers of the paddles, in their order.
pub open spec fn paddle_ids(paddles: Seq<PaddleBundle>) -> Seq<u32> {
    paddles.map_values(|p: PaddleBundle| p.id)
}

/// For each boundary, its identifier if it is a goal.
pub open spec fn goal_ids(bounds: Seq<BoundsBundle>) -> Seq<Option<u32>> {
    bounds.map_values(
        |b: BoundsBundle|
            if b.goal is Some {
                Some(b.id)
            } else {
                None
            },
    )
}

/// The kind of the entity `other`: the first paddle of that identifier if there
/// is one, else the first goal of that identifier, else neither.
pub open spec fn classify_spec(
    other: u32,
    paddles: Seq<PaddleBundle>,
    bounds: Seq<BoundsBundle>,
) -> ContactKind {
    match paddle_ids(paddles).index_of_first(other) {
        Some(i) => ContactKind::Paddle(i as usize),
        None => match goal_ids(bounds).index_of_first(Some(other)) {
            Some(j) => ContactKind::Goal(j as usize),
            None => ContactKind::Neither,
        },
    }
}

/// The other participant of a contact of the ball `ball_id`, if the pair is one.
pub open spec fn other_of(ball_id: u32, pair: ContactPair) -> Option<u32> {
    if pair.collider1 == ball_id {
        Some(pair.collider2)
    } else if pair.collider2 == ball_id {
        Some(pair.collider1)
    } else {
        None
    }
}

/// Where along the paddle's height the ball struck: `0` at the bottom end, `ONE`
/// at the top end, and one half for a paddle without height.
pub open spec fn reflection_ratio(
    p_transform: Transform,
    p_collider: Collider,
    b_transform: Transform,
) -> int {
    let p_min = saturate(p_transform.translation.y - p_collider.half_extents.y);
    let p_max = saturate(p_transform.translation.y + p_collider.half_extents.y);
    if p_min == p_max {
        ONE / 2
    } else {
        inverse_lerp_spec(p_min, p_max, b_transform.translation.y as int)
    }
}

/// The angle of deflection before any perturbation: from `MIN_ANGLE` at the
/// bottom end of the paddle to `MAX_ANGLE` at its top end.
pub open spec fn reflection_angle(
    p_transform: Transform,
    p_collider: Collider,
    b_transform: Transform,
) -> int {
    lerp_spec(
        MIN_ANGLE as int,
        MAX_ANGLE as int,
        reflection_ratio(p_transform, p_collider, b_transform),
    )
}

/// The angle with the perturbation `noise` added, except that a deflection of
/// exactly zero stays zero.
pub open spec fn perturbed(angle: int, noise: int) -> int {
    if angle != 0 {
        angle + noise
    } else {
        0
    }
}

/// The velocity of a ball after it struck a paddle: scaled by the ball's
/// multiplier, then turned by the perturbed angle of deflection.
pub open spec fn deflected(
    p_transform: Transform,
    p_collider: Collider,
    b_transform: Transform,
    b_velocity: Velocity,
    b: Ball,
    noise: int,
) -> Velocity {
    Velocity {
        linvel: rotate_spec(
            b_velocity.linvel.scale_spec(b.speed_multiplier),
            rotation_spec(
                perturbed(reflection_angle(p_transform, p_collider, b_transform), noise),
            ),
        ),
        angvel: b_velocity.angvel,
    }
}

/// The effect of one contact pair on a ball. A pair that the ball is not part of
/// has none. A paddle deflects the ball. The first goal that the ball touches in
/// a tick scores for the team opposite to the one that defends it; later goals
/// have no effect.
pub open spec fn contact_step(
    ball: BallBundle,
    before: Outcome,
    pair: ContactPair,
    paddles: Seq<PaddleBundle>,
    bounds: Seq<BoundsBundle>,
    noise: int,
) -> Outcome {
    match other_of(ball.id, pair) {
        None => before,
        Some(other) => match classify_spec(other, paddles, bounds) {
            ContactKind::Paddle(i) => Outcome {
                velocity: deflected(
                    paddles[i as int].transform,
                    paddles[i as int].collider,
                    ball.transform,
                    before.velocity,
                    ball.ball,
                    noise,
                ),
                goal: before.goal,
            },
            ContactKind::Goal(j) => if before.goal is None {
                Outcome {
                    velocity: before.velocity,
                    goal: Some(bounds[j as int].goal.unwrap().team.opposite_spec()),
                }
            } else {
                before
            },
            ContactKind::Neither => before,
        },
    }
}

/// What `contacts`, taken in their order, make of `ball`. The contact at
/// position `k` is perturbed by `noise[k]`.
pub open spec fn after_contacts(
    ball: BallBundle,
    paddles: Seq<PaddleBundle>,
    bounds: Seq<BoundsBundle>,
    contacts: Seq<ContactPair>,
    noise: Seq<int>,
) -> Outcome
    decreases contacts.len(),
{
    if contacts.len() == 0 {
        Outcome { velocity: ball.velocity, goal: None }
    } else {
        contact_step(
            ball,
            after_contacts(ball, paddles, bounds, contacts.drop_last(), noise),
            contacts.last(),
            paddles,
            bounds,
            noise[contacts.len() - 1],
        )
    }
}

/// A ball with the velocity that its contacts left it.
pub open spec fn resolved_ball(
    ball: BallBundle,
    paddles: Seq<PaddleBundle>,
    bounds: Seq<BoundsBundle>,
    contacts: Seq<ContactPair>,
    noise: Seq<int>,
) -> BallBundle {
    BallBundle { velocity: after_contacts(ball, paddles, bounds, contacts, noise).velocity, ..ball }
}

/// All balls after the contacts of a tick; `noises[i]` perturbs the ball at position `i`.
pub open spec fn resolved_balls(
    balls: Seq<BallBundle>,
    paddles: Seq<PaddleBundle>,
    bounds: Seq<BoundsBundle>,
    contacts: Seq<ContactPair>,
    noises: Seq<Seq<int>>,
) -> Seq<BallBundle> {
    Seq::new(
        balls.len(),
        |i: int| resolved_ball(balls[i], paddles, bounds, contacts, noises[i]),
    )
}

/// The goal events of a tick: at most one for each ball, in the order of the balls.
pub open spec fn goal_events(
    balls: Seq<BallBundle>,
    paddles: Seq<PaddleBundle>,
    bounds: Seq<BoundsBundle>,
    contacts: Seq<ContactPair>,
    noises: Seq<Seq<int>>,
) -> Seq<GoalEvent>
    decreases balls.len(),
{
    if balls.len() == 0 {
        Seq::empty()
    } else {
        let earlier = goal_events(balls.drop_last(), paddles, bounds, contacts, noises);
        match after_contacts(balls.last(), paddles, bounds, contacts, noises[balls.len() - 1]).goal {
            Some(team) => earlier.push(GoalEvent { ball_id: balls.last().id, team }),
            None => earlier,
        }
    }
}

/// Perturbations for `contacts` contacts: each a fraction of a degree, in `[0, ONE)`.
pub open spec fn noise_ok(noise: Seq<int>, contacts: nat) -> bool {
    &&& noise.len() == contacts
    &&& forall|k: int| 0 <= k < noise.len() ==> 0 <= #[trigger] noise[k] < ONE
}

/// Perturbations for `balls` balls with `contacts` contacts each.
pub open spec fn noises_ok(noises: Seq<Seq<int>>, balls: nat, contacts: nat) -> bool {
    &&& noises.len() == balls
    &&& forall|i: int| 0 <= i < noises.len() ==> noise_ok(#[trigger] noises[i], contacts)
}

/// What contacts make of a ball depends on the perturbations of those contacts only.
pub proof fn lemma_after_contacts_noise(
    ball: BallBundle,
    paddles: Seq<PaddleBundle>,
    bounds: Seq<BoundsBundle>,
    contacts: Seq<ContactPair>,
    n1: Seq<int>,
    n2: Seq<int>,
)
    requires
        forall|k: int| 0 <= k < contacts.len() ==> n1[k] == n2[k],
    ensures
        after_contacts(ball, paddles, bounds, contacts, n1) == after_contacts(
            ball,
            paddles,
            bounds,
            contacts,
            n2,
        ),
    decreases contacts.len(),
{
    if contacts.len() > 0 {
        lemma_after_contacts_noise(ball, paddles, bounds, contacts.drop_last(), n1, n2);
    }
}

/// The goal events of some balls depend on the perturbations of those balls only.
pub proof fn lemma_goal_events_noise(
    balls: Seq<BallBundle>,
    paddles: Seq<PaddleBundle>,
    bounds: Seq<BoundsBundle>,
    contacts: Seq<ContactPair>,
    n1: Seq<Seq<int>>,
    n2: Seq<Seq<int>>,
)
    requires
        forall|i: int| 0 <= i < balls.len() ==> n1[i] == n2[i],
    ensures
        goal_events(balls, paddles, bounds, contacts, n1) == goal_events(
            balls,
            paddles,
            bounds,
            contacts,
            n2,
        ),
    decreases balls.len(),
{
    if balls.len() > 0 {
        lemma_goal_events_noise(balls.drop_last(), paddles, bounds, contacts, n1, n2);
    }
}

/// A tick yields at most one goal event for each ball.
pub proof fn lemma_goal_events_len(
    balls: Seq<BallBundle>,
    paddles: Seq<PaddleBundle>,
    bounds: Seq<BoundsBundle>,
    contacts: Seq<ContactPair>,
    noises: Seq<Seq<int>>,
)
    ensures
        goal_events(balls, paddles, bounds, contacts, noises).len() <= balls.len(),
    decreases balls.len(),
{
    if balls.len() > 0 {
        lemma_goal_events_len(balls.drop_last(), paddles, bounds, contacts, noises);
    }
}

/// Finds the first paddle with the identifier `id`.
pub fn find_paddle(paddles: &Vec<PaddleBundle>, id: u32) -> (r: Option<usize>)
    ensures
        match r {
            Some(i) => paddle_ids(paddles@).index_of_first(id) == Some(i as int) && i
                < paddles.len(),
            None => paddle_ids(paddles@).index_of_first(id) is None,
        },
{
    let ghost ids = paddle_ids(paddles@);
    let mut i: usize = 0;
    while i < paddles.len()
        invariant
            i <= paddles.len(),
            ids == paddle_ids(paddles@),
            forall|j: int| 0 <= j < i ==> ids[j] != id,
        decreases paddles.len() - i,
    {
        if paddles[i].id == id {
            proof {
                assert(ids[i as int] == id);
                ids.index_of_first_ensures(id);
            }
            return Some(i);
        }
        i = i + 1;
    }
    proof {
        ids.index_of_first_ensures(id);
    }
    None
}

/// Finds the first goal with the identifier `id` among the boundaries.
pub fn find_goal(bounds: &Vec<BoundsBundle>, id: u32) -> (r: Option<usize>)
    ensures
        match r {
            Some(j) => goal_ids(bounds@).index_of_first(Some(id)) == Some(j as int) && j
                < bounds.len() && bounds[j as int].goal is Some,
            None => goal_ids(bounds@).index_of_first(Some(id)) is None,
        },
{
    let ghost ids = goal_ids(bounds@);
    let mut j: usize = 0;
    while j < bounds.len()
        invariant
            j <= bounds.len(),
            ids == goal_ids(bounds@),
            forall|k: int| 0 <= k < j ==> ids[k] != Some(id),
        decreases bounds.len() - j,
    {
        if bounds[j].goal.is_some() && bounds[j].id == id {
            proof {
                assert(ids[j as int] == Some(id));
                ids.index_of_first_ensures(Some(id));
            }
            return Some(j);
        }
        j = j + 1;
    }
    proof {
        ids.index_of_first_ensures(Some(id));
    }
    None
}

/// Tells what kind of entity a ball touched: paddles are looked for first.
pub fn classify_contact(
    other: u32,
    paddles: &Vec<PaddleBundle>,
    bounds: &Vec<BoundsBundle>,
) -> (kind: ContactKind)
    ensures
        kind == classify_spec(other, paddles@, bounds@),
        kind matches ContactKind::Paddle(i) ==> i < paddles.len(),
        kind matches ContactKind::Goal(j) ==> j < bounds.len() && bounds[j as int].goal is Some,
{
    match find_paddle(paddles, other) {
        Some(i) => ContactKind::Paddle(i),
        None => match find_goal(bounds, other) {
            Some(j) => ContactKind::Goal(j),
            None => ContactKind::Neither,
        },
    }
}

/// Computes the angle of deflection, before any perturbation, of a ball that
/// struck a paddle.
pub fn compute_reflection_angle(
    p_transform: &Transform,
    p_collider: &Collider,
    b_transform: &Transform,
) -> (angle: i64)
    ensures
        angle == reflection_angle(*p_transform, *p_collider, *b_transform),
        MAX_ANGLE <= angle <= MIN_ANGLE,
{
    let p_min: i64 = sub_sat(p_transform.translation.y, p_collider.half_extents.y);
    let p_max: i64 = add_sat(p_transform.translation.y, p_collider.half_extents.y);
    let reflection_ratio: i64 = if p_min == p_max {
        ONE / 2
    } else {
        inverse_lerp(p_min, p_max, b_transform.translation.y)
    };
    proof {
        lemma_lerp_between(MIN_ANGLE as int, MAX_ANGLE as int, reflection_ratio as int);
    }
    lerp(MIN_ANGLE, MAX_ANGLE, reflection_ratio)
}

/// Deflects a ball off a paddle, with the perturbation `noise` of the angle.
pub fn deflect(
    p_transform: &Transform,
    p_collider: &Collider,
    b_transform: &Transform,
    b_velocity: &mut Velocity,
    b: &Ball,
    noise: i64,
)
    requires
        0 <= noise < ONE,
    ensures
        *final(b_velocity) == deflected(
            *p_transform,
            *p_collider,
            *b_transform,
            *old(b_velocity),
            *b,
            noise as int,
        ),
{
    let angle: i64 = compute_reflection_angle(p_transform, p_collider, b_transform);
    let turned: i64 = if angle != 0 {
        angle + noise
    } else {
        0
    };
    b_velocity.linvel = rotate_vec2(b_velocity.linvel.scale(b.speed_multiplier), turned);
}

/// Deflects a ball off a paddle. A deflection other than zero is perturbed by a
/// random fraction of a degree, so that the ball does not repeat its path.
pub fn handle_ball_paddle_collision(
    p_transform: &Transform,
    p_collider: &Collider,
    b_transform: &Transform,
    b_velocity: &mut Velocity,
    b: &Ball,
)
    ensures
        exists|noise: int|
            0 <= noise < ONE && *final(b_velocity) == #[trigger] deflected(
                *p_transform,
                *p_collider,
                *b_transform,
                *old(b_velocity),
                *b,
                noise,
            ),
{
    let angle: i64 = compute_reflection_angle(p_transform, p_collider, b_transform);
    let noise: i64 = if angle != 0 {
        random_fraction()
    } else {
        0
    };
    deflect(p_transform, p_collider, b_transform, b_velocity, b, noise);
}

/// Announces a goal: the team that scores is the one opposite to the goal's.
pub fn handle_ball_goal_collision(ev_goal: &mut Vec<GoalEvent>, goal: &Goal, ball_id: u32)
    ensures
        final(ev_goal)@ == old(ev_goal)@.push(
            GoalEvent { ball_id, team: goal.team.opposite_spec() },
        ),
{
    ev_goal.push(GoalEvent { team: goal.team.opposite(), ball_id });
}

/// What it is for `velocity` and `events` to be what the contacts of a tick, with
/// the perturbations `noise`, make of `ball` and of the events `before` it.
pub open spec fn ball_resolved(
    ball: BallBundle,
    paddles: Seq<PaddleBundle>,
    bounds: Seq<BoundsBundle>,
    contacts: Seq<ContactPair>,
    noise: Seq<int>,
    velocity: Velocity,
    before: Seq<GoalEvent>,
    events: Seq<GoalEvent>,
) -> bool {
    let outcome = after_contacts(ball, paddles, bounds, contacts, noise);
    &&& noise_ok(noise, contacts.len())
    &&& velocity == outcome.velocity
    &&& events == match outcome.goal {
        Some(team) => before.push(GoalEvent { ball_id: ball.id, team }),
        None => before,
    }
}

/// What it is for `new_balls` and `new_events` to be what the contacts of a
/// tick, with the perturbations `noises`, make of `balls` and `events`.
pub open spec fn collisions_resolved(
    balls: Seq<BallBundle>,
    events: Seq<GoalEvent>,
    paddles: Seq<PaddleBundle>,
    bounds: Seq<BoundsBundle>,
    contacts: Seq<ContactPair>,
    noises: Seq<Seq<int>>,
    new_balls: Seq<BallBundle>,
    new_events: Seq<GoalEvent>,
) -> bool {
    &&& noises_ok(noises, balls.len(), contacts.len())
    &&& new_balls == resolved_balls(balls, paddles, bounds, contacts, noises)
    &&& new_events == events + goal_events(balls, paddles, bounds, contacts, noises)
}

/// Applies the contacts of a tick to one ball, in their order: returns the
/// velocity that they leave it, and announces the goal if it touched one.
pub fn resolve_ball_contacts(
    ev_goal: &mut Vec<GoalEvent>,
    ball: &BallBundle,
    paddles: &Vec<PaddleBundle>,
    bounds: &Vec<BoundsBundle>,
    contacts: &Vec<ContactPair>,
) -> (velocity: Velocity)
    ensures
        exists|noise: Seq<int>| #[trigger]
            ball_resolved(
                *ball,
                paddles@,
                bounds@,
                contacts@,
                noise,
                velocity,
                old(ev_goal)@,
                final(ev_goal)@,
            ),
{
    let mut velocity: Velocity = ball.velocity;
    let mut goal: Option<Team> = None;
    let ghost mut noise: Seq<int> = Seq::empty();
    let mut j: usize = 0;
    while j < contacts.len()
        invariant
            j <= contacts.len(),
            noise.len() == j,
            forall|k: int| 0 <= k < j ==> 0 <= #[trigger] noise[k] < ONE,
            after_contacts(*ball, paddles@, bounds@, contacts@.take(j as int), noise) == (Outcome {
                velocity,
                goal,
            }),
            ev_goal@ == match goal {
                Some(team) => old(ev_goal)@.push(GoalEvent { ball_id: ball.id, team }),
                None => old(ev_goal)@,
            },
        decreases contacts.len() - j,
    {
        let pair: ContactPair = contacts[j];
        let ghost mut drawn: int = 0;
        if pair.collider1 == ball.id || pair.collider2 == ball.id {
            let other: u32 = if ball.id == pair.collider1 {
                pair.collider2
            } else {
                pair.collider1
            };
            match classify_contact(other, paddles, bounds) {
                ContactKind::Paddle(p) => {
                    let ghost struck = velocity;
                    handle_ball_paddle_collision(
                        &paddles[p].transform,
                        &paddles[p].collider,
                        &ball.transform,
                        &mut velocity,
                        &ball.ball,
                    );
                    proof {
                        drawn = choose|n: int|
                            0 <= n < ONE && velocity == #[trigger] deflected(
                                paddles@[p as int].transform,
                                paddles@[p as int].collider,
                                ball.transform,
                                struck,
                                ball.ball,
                                n,
                            );
                    }
                },
                ContactKind::Goal(g) => {
                    if goal.is_none() {
                        let touched: Goal = bounds[g].goal.unwrap();
                        handle_ball_goal_collision(ev_goal, &touched, ball.id);
                        goal = Some(touched.team.opposite());
                    }
                },
                ContactKind::Neither => {},
            }
        }
        proof {
            let earlier = noise;
            noise = noise.push(drawn);
            lemma_after_contacts_noise(
                *ball,
                paddles@,
                bounds@,
                contacts@.take(j as int),
                earlier,
                noise,
            );
            assert(contacts@.take(j + 1).drop_last() =~= contacts@.take(j as int));
        }
        j = j + 1;
    }
    proof {
        assert(contacts@.take(contacts.len() as int) =~= contacts@);
        assert(ball_resolved(
            *ball,
            paddles@,
            bounds@,
            contacts@,
            noise,
            velocity,
            old(ev_goal)@,
            ev_goal@,
        ));
    }
    velocity
}

/// Resolves the contacts that the physics step reported for this tick: every
/// ball is deflected by the paddles it touches, and a goal event is announced
/// for every ball that touches a goal.
pub fn evaluate_ball_collision(
    ev_goal: &mut Vec<GoalEvent>,
    balls: &mut Vec<BallBundle>,
    paddles: &Vec<PaddleBundle>,
    bounds: &Vec<BoundsBundle>,
    contacts: &Vec<ContactPair>,
)
    ensures
        exists|noises: Seq<Seq<int>>| #[trigger]
            collisions_resolved(
                old(balls)@,
                old(ev_goal)@,
                paddles@,
                bounds@,
                contacts@,
                noises,
                final(balls)@,
                final(ev_goal)@,
            ),
{
    let ghost old_balls = balls@;
    let ghost old_events = ev_goal@;
    let ghost mut noises: Seq<Seq<int>> = Seq::empty();
    let n: usize = balls.len();
    let mut i: usize = 0;
    while i < n
        invariant
            i <= n,
            balls@.len() == n,
            old_balls.len() == n,
            noises.len() == i,
            forall|k: int| 0 <= k < i ==> noise_ok(#[trigger] noises[k], contacts@.len()),
            forall|k: int|
                0 <= k < i ==> #[trigger] balls@[k] == resolved_ball(
                    old_balls[k],
                    paddles@,
                    bounds@,
                    contacts@,
                    noises[k],
                ),
            forall|k: int| i <= k < n ==> #[trigger] balls@[k] == old_balls[k],
            ev_goal@ == old_events + goal_events(
                old_balls.take(i as int),
                paddles@,
                bounds@,
                contacts@,
                noises,
            ),
        decreases n - i,
    {
        let ball: BallBundle = balls[i];
        let ghost events_before = ev_goal@;
        let velocity: Velocity = resolve_ball_contacts(ev_goal, &ball, paddles, bounds, contacts);
        balls.set(i, BallBundle { velocity, ..ball });
        proof {
            let noise = choose|noise: Seq<int>| #[trigger]
                ball_resolved(
                    ball,
                    paddles@,
                    bounds@,
                    contacts@,
                    noise,
                    velocity,
                    events_before,
                    ev_goal@,
                );
            let earlier = noises;
            noises = noises.push(noise);
            lemma_goal_events_noise(
                old_balls.take(i as int),
                paddles@,
                bounds@,
                contacts@,
                earlier,
                noises,
            );
            assert(old_balls.take(i + 1).drop_last() =~= old_balls.take(i as int));
            assert(old_balls.take(i + 1).last() == ball);
            let earlier_events = goal_events(
                old_balls.take(i as int),
                paddles@,
                bounds@,
                contacts@,
                noises,
            );
            match after_contacts(ball, paddles@, bounds@, contacts@, noise).goal {
                Some(team) => {
                    assert(events_before.push(GoalEvent { ball_id: ball.id, team }) =~= old_events
                        + earlier_events.push(GoalEvent { ball_id: ball.id, team }));
                },
                None => {},
            }
        }
        i = i + 1;
    }
    proof {
        assert(old_balls.take(n as int) =~= old_balls);
        assert(balls@ =~= resolved_balls(old_balls, paddles@, bounds@, contacts@, noises));
        assert(collisions_resolved(
            old_balls,
            old_events,
            paddles@,
            bounds@,
            contacts@,
            noises,
            balls@,
            ev_goal@,
        ));
    }
}

} // verus!
