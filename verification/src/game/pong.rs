//! The rules of one arena: what the ball touches, how its velocity is
//! reflected, who scores, and when the match is over.
//!
//! Positions live with the caller, who moves the paddle and the ball and
//! hands in the edges of what is on the court. The edges are compared, and
//! the contacts resolved, here.

use vstd::prelude::*;
use crate::scalar::{Single, SINGLE_SIGN};

verus! {

/// Encoding of the smallest horizontal speed a ball may have: 3.
pub const MIN_HORIZONTAL_SPEED: u32 = 0x4040_0000;

/// Encoding of the grace period after a paddle hit: 0.2.
pub const COLLISION_COOLDOWN: u32 = 0x3E4C_CCCD;

/// The size of an arena.
#[derive(Debug, Clone, Copy, PartialEq, Eq, Structural)]
pub struct GameWindow {
    pub width: Single,
    pub height: Single,
}

impl GameWindow {
    pub fn new(width: Single, height: Single) -> (window: Self)
        ensures
            window == (GameWindow { width, height }),
    {
        GameWindow { width, height }
    }
}

/// The offset of an arena's top left corner, in whole pixels. It names the
/// slot that a match occupies.
#[derive(Debug, Clone, Copy, PartialEq, Eq, Structural)]
pub struct Slot {
    pub x: usize,
    pub y: usize,
}

/// The score counters of the two sides.
#[derive(Debug, Clone, Copy, PartialEq, Eq, Structural)]
pub struct Pontuation {
    pub player1: i32,
    pub player2: i32,
}

impl Pontuation {
    pub fn new() -> (pontuation: Self)
        ensures
            pontuation == (Pontuation { player1: 0, player2: 0 }),
    {
        Pontuation { player1: 0, player2: 0 }
    }

    pub fn increase_p1_score(&mut self)
        requires
            old(self).player1 < i32::MAX,
        ensures
            *final(self) == (Pontuation { player1: (old(self).player1 + 1) as i32, ..*old(self) }),
    {
        self.player1 += 1;
    }

    pub fn increase_p2_score(&mut self)
        requires
            old(self).player2 < i32::MAX,
        ensures
            *final(self) == (Pontuation { player2: (old(self).player2 + 1) as i32, ..*old(self) }),
    {
        self.player2 += 1;
    }
}

/// The side that wins a match.
#[derive(Debug, Clone, Copy, PartialEq, Eq, Structural)]
pub enum Winner {
    Player1,
    Player2,
}

/// How a match ended: the winner, and the score at that moment.
#[derive(Debug, Clone, Copy, PartialEq, Eq, Structural)]
pub struct GameStats {
    pub winner: Winner,
    pub pontuation: Pontuation,
}

/// What the ball touches after it has moved.
#[derive(Debug, Clone, Copy, PartialEq, Eq, Structural)]
pub struct Contacts {
    /// The ball has reached the left wall, behind the paddle.
    pub left_wall: bool,
    /// The ball has reached the right wall.
    pub right_wall: bool,
    /// The ball has reached the top or the bottom wall.
    pub top_or_bottom: bool,
    /// The ball overlaps the paddle.
    pub paddle: bool,
}

/// A rectangle with sides along the axes, by its four edges. The vertical
/// axis points down: `top` is the smaller coordinate.
#[derive(Debug, Clone, Copy, PartialEq, Eq, Structural)]
pub struct Bounds {
    pub left: Single,
    pub right: Single,
    pub top: Single,
    pub bottom: Single,
}

impl Bounds {
    /// The two rectangles share a point. Edges count: rectangles that only
    /// touch overlap. A NaN edge overlaps nothing.
    pub open spec fn overlaps_spec(self, other: Bounds) -> bool {
        &&& self.left.le_spec(other.right)
        &&& self.right.ge_spec(other.left)
        &&& self.top.le_spec(other.bottom)
        &&& self.bottom.ge_spec(other.top)
    }

    pub fn overlaps(&self, other: &Bounds) -> (b: bool)
        ensures
            b == self.overlaps_spec(*other),
    {
        self.left.le(other.right) && self.right.ge(other.left) && self.top.le(other.bottom) && self.bottom.ge(
            other.top,
        )
    }
}

impl Contacts {
    /// What a ball touches in an arena. `ball` is the ball's extent, a
    /// radius to each side of its centre; `ball_box` is the square that is
    /// tested against the paddle. A wall is reached as soon as the ball's
    /// edge is on it.
    pub open spec fn detected(arena: Bounds, ball: Bounds, ball_box: Bounds, paddle: Bounds) -> Contacts {
        Contacts {
            left_wall: ball.left.le_spec(arena.left),
            right_wall: ball.right.ge_spec(arena.right),
            top_or_bottom: ball.top.le_spec(arena.top) || ball.bottom.ge_spec(arena.bottom),
            paddle: ball_box.overlaps_spec(paddle),
        }
    }

    /// Finds what the ball touches; see [`Contacts::detected`].
    pub fn detect(arena: &Bounds, ball: &Bounds, ball_box: &Bounds, paddle: &Bounds) -> (contacts: Contacts)
        ensures
            contacts == Contacts::detected(*arena, *ball, *ball_box, *paddle),
    {
        Contacts {
            left_wall: ball.left.le(arena.left),
            right_wall: ball.right.ge(arena.right),
            top_or_bottom: ball.top.le(arena.top) || ball.bottom.ge(arena.bottom),
            paddle: ball_box.overlaps(paddle),
        }
    }
}

/// `v` with its magnitude raised to the minimum horizontal speed where it
/// is below, the sign kept. A NaN is left alone.
pub open spec fn with_min_speed(v: Single) -> Single {
    if v.abs_spec().lt_spec(Single { bits: MIN_HORIZONTAL_SPEED }) {
        if v.is_sign_negative() {
            Single { bits: (SINGLE_SIGN + MIN_HORIZONTAL_SPEED) as u32 }
        } else {
            Single { bits: MIN_HORIZONTAL_SPEED }
        }
    } else {
        v
    }
}

/// The horizontal velocity after a reflection: the sign flipped, and the
/// magnitude raised to the minimum where it is below.
pub open spec fn reflected(v: Single) -> Single {
    with_min_speed(v.neg_spec())
}

/// The horizontal velocity a ball starts with, given the one that was
/// drawn: the magnitude raised to the minimum where it is below, the sign
/// kept, and a zero of either sign sent to the right.
pub open spec fn launch_speed(v: Single) -> Single {
    if v.key() == 0 {
        Single { bits: MIN_HORIZONTAL_SPEED }
    } else {
        with_min_speed(v)
    }
}

fn raise_to_min_speed(v: Single) -> (r: Single)
    ensures
        r == with_min_speed(v),
{
    if v.abs().lt(Single::from_bits(MIN_HORIZONTAL_SPEED)) {
        if v.bits >= SINGLE_SIGN {
            Single { bits: SINGLE_SIGN + MIN_HORIZONTAL_SPEED }
        } else {
            Single { bits: MIN_HORIZONTAL_SPEED }
        }
    } else {
        v
    }
}

/// A velocity: its horizontal and its vertical part.
#[derive(Debug, Clone, Copy, PartialEq, Eq, Structural)]
pub struct Velocity {
    pub x: Single,
    pub y: Single,
}

/// The ball's velocity and the time left until it can hit the paddle again.
#[derive(Debug, Clone, Copy, PartialEq, Eq, Structural)]
pub struct Ball {
    pub velocity: Velocity,
    pub collision_cooldown: Single,
}

impl Ball {
    /// A ball as [`Ball::new`] makes it from a velocity that `launch` can
    /// return.
    pub open spec fn launched_by<L: Fn() -> Velocity>(self, launch: &L) -> bool {
        exists|raw: Velocity|
            #[trigger] call_ensures(launch, (), raw) && self == (Ball {
                velocity: Velocity { x: launch_speed(raw.x), y: raw.y },
                collision_cooldown: Single { bits: 0 },
            })
    }

    /// A ball with the velocity that `launch` returns, its horizontal part
    /// raised to the minimum speed, and no cooldown.
    pub fn new<L: Fn() -> Velocity>(launch: &L) -> (ball: Self)
        requires
            call_requires(launch, ()),
        ensures
            ball.launched_by(launch),
    {
        let raw = launch();
        let mut vx = raw.x;
        if vx.abs().lt(Single::from_bits(MIN_HORIZONTAL_SPEED)) {
            vx = if vx.bits == 0 || vx.bits == SINGLE_SIGN {
                Single { bits: MIN_HORIZONTAL_SPEED }
            } else {
                raise_to_min_speed(vx)
            };
        }
        Ball { velocity: Velocity { x: vx, y: raw.y }, collision_cooldown: Single::zero() }
    }

    /// Reflects the horizontal velocity; see [`reflected`].
    pub fn invert_velocity_x(&mut self)
        ensures
            *final(self) == (Ball {
                velocity: Velocity { x: reflected(old(self).velocity.x), ..old(self).velocity },
                ..*old(self)
            }),
    {
        self.velocity.x = raise_to_min_speed(self.velocity.x.neg());
    }

    /// Flips the sign of the vertical velocity.
    pub fn invert_velocity_y(&mut self)
        ensures
            *final(self) == (Ball {
                velocity: Velocity { y: old(self).velocity.y.neg_spec(), ..old(self).velocity },
                ..*old(self)
            }),
    {
        self.velocity.y = self.velocity.y.neg();
    }
}

/// One match: its arena, its score, its ball, and whether it is over.
#[derive(Debug, Clone, Copy, PartialEq, Eq, Structural)]
pub struct Pong {
    pub window: GameWindow,
    pub position: Slot,
    pub pontuation: Pontuation,
    pub ball: Ball,
    pub finished: bool,
}

impl Pong {
    /// The ball hits the paddle: it has not left through the left wall, the
    /// cooldown has run out, and the two overlap.
    pub open spec fn hit(self, contacts: Contacts) -> bool {
        !contacts.left_wall && self.ball.collision_cooldown.le_spec(Single { bits: 0 }) && contacts.paddle
    }

    /// The ball's velocity once the walls have been resolved, before the
    /// paddle is looked at.
    pub open spec fn bounced(self, contacts: Contacts) -> Velocity {
        Velocity {
            x: if contacts.right_wall {
                reflected(self.ball.velocity.x)
            } else {
                self.ball.velocity.x
            },
            y: if contacts.top_or_bottom {
                self.ball.velocity.y.neg_spec()
            } else {
                self.ball.velocity.y
            },
        }
    }

    /// The match after its contacts have been resolved, in this order:
    /// the left wall ends the match; the right wall reflects the horizontal
    /// velocity; the top and bottom walls flip the vertical velocity; a hit
    /// of the paddle reflects the horizontal velocity, scores for its
    /// owner, starts the cooldown, and leaves `perturbed` as the vertical
    /// velocity.
    pub open spec fn resolved(self, contacts: Contacts, perturbed: Single) -> Pong {
        if contacts.left_wall {
            Pong { finished: true, ..self }
        } else if self.hit(contacts) {
            Pong {
                pontuation: Pontuation {
                    player1: (self.pontuation.player1 + 1) as i32,
                    ..self.pontuation
                },
                ball: Ball {
                    velocity: Velocity { x: reflected(self.bounced(contacts).x), y: perturbed },
                    collision_cooldown: Single { bits: COLLISION_COOLDOWN },
                },
                ..self
            }
        } else {
            Pong { ball: Ball { velocity: self.bounced(contacts), ..self.ball }, ..self }
        }
    }

    /// A fresh match in the arena `window` at `position`: no score, not
    /// finished, and a ball launched with `launch`.
    pub fn new<L: Fn() -> Velocity>(window: GameWindow, position: Slot, launch: &L) -> (pong: Self)
        requires
            call_requires(launch, ()),
        ensures
            pong.window == window,
            pong.position == position,
            pong.pontuation == (Pontuation { player1: 0, player2: 0 }),
            pong.ball.launched_by(launch),
            !pong.finished,
    {
        Pong { window, position, pontuation: Pontuation::new(), ball: Ball::new(launch), finished: false }
    }

    /// Resolves the contacts of one tick; see [`Pong::resolved`]. On a hit
    /// of the paddle the vertical velocity becomes what `perturb` returns
    /// for it. Returns the winner when the match has just ended.
    pub fn check_collision<P: Fn(Single) -> Single>(&mut self, contacts: Contacts, perturb: &P) -> (winner: Option<Winner>)
        requires
            old(self).pontuation.player1 < i32::MAX,
            forall|v: Single| call_requires(perturb, (v,)),
        ensures
            *final(self) == old(self).resolved(contacts, final(self).ball.velocity.y),
            old(self).hit(contacts) ==> call_ensures(
                perturb,
                (old(self).bounced(contacts).y,),
                final(self).ball.velocity.y,
            ),
            winner == (if contacts.left_wall {
                Some(Winner::Player2)
            } else {
                None
            }),
    {
        if contacts.left_wall {
            self.finished = true;
            return Some(Winner::Player2);
        }
        if contacts.right_wall {
            self.ball.invert_velocity_x();
        }
        if contacts.top_or_bottom {
            self.ball.invert_velocity_y();
        }
        if self.ball.collision_cooldown.le(Single::zero()) && contacts.paddle {
            self.ball.invert_velocity_x();
            self.pontuation.increase_p1_score();
            self.ball.collision_cooldown = Single::from_bits(COLLISION_COOLDOWN);
            self.ball.velocity.y = perturb(self.ball.velocity.y);
        }
        None
    }

    /// What a tick with these contacts reports: the winner and the score
    /// when the ball has left through the left wall, and nothing otherwise.
    pub open spec fn outcome(self, contacts: Contacts) -> Option<GameStats> {
        if contacts.left_wall {
            Some(GameStats { winner: Winner::Player2, pontuation: self.pontuation })
        } else {
            None
        }
    }

    /// `self` is `before` after one tick with these contacts: the contacts
    /// are resolved, and a match that has just ended gets a fresh ball.
    pub open spec fn ticked_from<P: Fn(Single) -> Single, L: Fn() -> Velocity>(
        self,
        before: Pong,
        contacts: Contacts,
        perturb: &P,
        launch: &L,
    ) -> bool {
        if contacts.left_wall {
            &&& self == (Pong { finished: true, ball: self.ball, ..before })
            &&& self.ball.launched_by(launch)
        } else {
            &&& self == before.resolved(contacts, self.ball.velocity.y)
            &&& before.hit(contacts) ==> call_ensures(perturb, (before.bounced(contacts).y,), self.ball.velocity.y)
        }
    }

    /// Advances the rules of the match by one tick; see
    /// [`Pong::ticked_from`] and [`Pong::outcome`]. The score is reported
    /// as it stands; it is not reset.
    pub fn update<P: Fn(Single) -> Single, L: Fn() -> Velocity>(
        &mut self,
        contacts: Contacts,
        perturb: &P,
        launch: &L,
    ) -> (stats: Option<GameStats>)
        requires
            old(self).pontuation.player1 < i32::MAX,
            forall|v: Single| call_requires(perturb, (v,)),
            call_requires(launch, ()),
        ensures
            final(self).ticked_from(*old(self), contacts, perturb, launch),
            stats == old(self).outcome(contacts),
    {
        match self.check_collision(contacts, perturb) {
            Some(winner) => {
                self.ball = Ball::new(launch);
                Some(GameStats { winner, pontuation: self.pontuation })
            },
            None => None,
        }
    }
}

/// A reflected horizontal velocity is never slower than the minimum: its
/// magnitude does not compare below it, whatever the velocity was, zero
/// included. Unless the velocity is NaN, the reflection is at least as fast
/// as the minimum and points the other way.
pub proof fn lemma_reflection_keeps_min_speed(v: Single)
    ensures
        !reflected(v).abs_spec().lt_spec(Single { bits: MIN_HORIZONTAL_SPEED }),
        !v.is_nan_spec() ==> reflected(v).abs_spec().ge_spec(Single { bits: MIN_HORIZONTAL_SPEED }),
        !v.is_nan_spec() ==> reflected(v).is_sign_negative() == !v.is_sign_negative(),
{
}

/// A launched ball is never slower horizontally than the minimum.
pub proof fn lemma_launch_keeps_min_speed(v: Single)
    ensures
        !launch_speed(v).abs_spec().lt_spec(Single { bits: MIN_HORIZONTAL_SPEED }),
        !v.is_nan_spec() ==> launch_speed(v).abs_spec().ge_spec(Single { bits: MIN_HORIZONTAL_SPEED }),
{
}

/// While the cooldown is above zero, an overlap with the paddle is no hit:
/// the score stays, and the horizontal velocity changes only where the
/// right wall reflects it.
pub proof fn lemma_cooldown_blocks_hit(pong: Pong, contacts: Contacts, perturbed: Single)
    requires
        pong.ball.collision_cooldown.gt_spec(Single { bits: 0 }),
        !contacts.left_wall,
    ensures
        !pong.hit(contacts),
        pong.resolved(contacts, perturbed).pontuation == pong.pontuation,
        pong.resolved(contacts, perturbed).ball.velocity == pong.bounced(contacts),
        pong.resolved(contacts, perturbed).ball.collision_cooldown == pong.ball.collision_cooldown,
{
}

/// Right after a hit of the paddle the cooldown is the grace period, which
/// is above zero: a second overlap in the next tick is no hit.
pub proof fn lemma_no_double_hit(pong: Pong, first: Contacts, perturbed: Single, second: Contacts, again: Single)
    requires
        pong.hit(first),
        !second.left_wall,
    ensures
        pong.resolved(first, perturbed).ball.collision_cooldown == (Single { bits: COLLISION_COOLDOWN }),
        !pong.resolved(first, perturbed).hit(second),
        pong.resolved(first, perturbed).resolved(second, again).pontuation == pong.resolved(
            first,
            perturbed,
        ).pontuation,
{
}

/// Only the left wall ends a match: it sets the finished flag, and every
/// other contact leaves the flag as it was.
pub proof fn lemma_only_left_wall_finishes(pong: Pong, contacts: Contacts, perturbed: Single)
    ensures
        contacts.left_wall ==> pong.resolved(contacts, perturbed).finished,
        !contacts.left_wall ==> pong.resolved(contacts, perturbed).finished == pong.finished,
{
}

} // verus!
