//! Desired-state mutation data carried by outgoing state-setting messages, and
//! builder extension traits for editing it in place. As in [`crate::render`],
//! every physical quantity is carried as the 32-bit IEEE-754 bit pattern of the
//! simulation's single-precision value; the library never computes with them.
use vstd::prelude::*;

verus! {

/// A partially-specified vector: only the coordinates that are `Some` are set.
#[derive(Clone, Copy, PartialEq, Eq, Debug)]
pub struct Vector3Partial {
    pub x: Option<u32>,
    pub y: Option<u32>,
    pub z: Option<u32>,
}

impl From<crate::render::Vector3> for Vector3Partial {
    /// A partial vector with every coordinate of `value` set.
    fn from(value: crate::render::Vector3) -> (r: Self) {
        Vector3Partial { x: Some(value.x), y: Some(value.y), z: Some(value.z) }
    }
}

impl vstd::std_specs::convert::FromSpecImpl<crate::render::Vector3> for Vector3Partial {
    open spec fn obeys_from_spec() -> bool {
        true
    }

    open spec fn from_spec(value: crate::render::Vector3) -> Self {
        Vector3Partial { x: Some(value.x), y: Some(value.y), z: Some(value.z) }
    }
}

/// A partially-specified rotation: only the angles that are `Some` are set.
#[derive(Clone, Copy, PartialEq, Eq, Debug)]
pub struct RotatorPartial {
    pub pitch: Option<u32>,
    pub yaw: Option<u32>,
    pub roll: Option<u32>,
}

/// A partially-specified physics state.
#[derive(Clone, Copy, PartialEq, Eq, Debug)]
pub struct DesiredPhysics {
    pub location: Option<Vector3Partial>,
    pub rotation: Option<RotatorPartial>,
    pub velocity: Option<Vector3Partial>,
    pub angular_velocity: Option<Vector3Partial>,
}

/// The desired state of one ball.
#[derive(Clone, Copy, PartialEq, Eq, Debug)]
pub struct DesiredBallState {
    pub physics: DesiredPhysics,
}

/// The desired state of one car.
#[derive(Clone, Copy, PartialEq, Eq, Debug)]
pub struct DesiredCarState {
    pub physics: Option<DesiredPhysics>,
    pub boost_amount: Option<u32>,
}

/// Desired match-level settings.
#[derive(Clone, Copy, PartialEq, Eq, Debug)]
pub struct DesiredMatchInfo {
    pub world_gravity_z: Option<u32>,
    pub game_speed: Option<u32>,
}

/// A whole desired-state mutation: per-ball states, per-car states, and
/// optional match-level settings.
#[derive(PartialEq, Eq, Debug)]
pub struct DesiredGameState {
    pub ball_states: Vec<DesiredBallState>,
    pub car_states: Vec<DesiredCarState>,
    pub match_info: Option<DesiredMatchInfo>,
}

/// Mathematical value of a [`DesiredGameState`].
#[verifier::ext_equal]
pub struct DesiredGameStateV {
    pub ball_states: Seq<DesiredBallState>,
    pub car_states: Seq<DesiredCarState>,
    pub match_info: Option<DesiredMatchInfo>,
}

impl View for DesiredGameState {
    type V = DesiredGameStateV;

    open spec fn view(&self) -> DesiredGameStateV {
        DesiredGameStateV {
            ball_states: self.ball_states@,
            car_states: self.car_states@,
            match_info: self.match_info,
        }
    }
}

impl Clone for DesiredGameState {
    fn clone(&self) -> (r: Self)
        ensures
            r@ == self@,
    {
        let r = DesiredGameState {
            ball_states: self.ball_states.clone(),
            car_states: self.car_states.clone(),
            match_info: self.match_info,
        };
        proof {
            assert(r.ball_states@ =~= self.ball_states@);
            assert(r.car_states@ =~= self.car_states@);
        }
        r
    }
}

/// A physics state with nothing set.
pub open spec fn empty_physics() -> DesiredPhysics {
    DesiredPhysics { location: None, rotation: None, velocity: None, angular_velocity: None }
}

/// A car state with nothing set.
pub open spec fn empty_car() -> DesiredCarState {
    DesiredCarState { physics: None, boost_amount: None }
}

/// A ball state with nothing set.
pub open spec fn empty_ball() -> DesiredBallState {
    DesiredBallState { physics: empty_physics() }
}

/// Match-level settings with nothing set.
pub open spec fn empty_match_info() -> DesiredMatchInfo {
    DesiredMatchInfo { world_gravity_z: None, game_speed: None }
}

impl Default for DesiredGameState {
    /// A desired state that sets nothing.
    fn default() -> (r: Self)
        ensures
            r@.ball_states == Seq::<DesiredBallState>::empty(),
            r@.car_states == Seq::<DesiredCarState>::empty(),
            r@.match_info is None,
    {
        let r = DesiredGameState { ball_states: Vec::new(), car_states: Vec::new(), match_info: None };
        proof {
            assert(r@.ball_states =~= Seq::<DesiredBallState>::empty());
            assert(r@.car_states =~= Seq::<DesiredCarState>::empty());
        }
        r
    }
}

/// The item at `i`, or the empty item where the sequence is shorter.
pub open spec fn item_or_empty<T>(items: Seq<T>, i: int, empty: T) -> T {
    if 0 <= i < items.len() {
        items[i]
    } else {
        empty
    }
}

/// One in-place edit of the item at `i`: the sequence grows with empty items
/// until `i` is in range, the item at `i` is replaced by an output of `build`
/// on its prior value, and every other item is kept.
pub open spec fn one_edit_rel<T, F: Fn(usize, T) -> T>(
    build: F,
    items: Seq<T>,
    empty: T,
    i: usize,
    out: Seq<T>,
) -> bool {
    &&& out.len() == if items.len() >= i + 1 {
        items.len() as int
    } else {
        i + 1
    }
    &&& forall|j: int| 0 <= j < out.len() && j != i ==> out[j] == item_or_empty(items, j, empty)
    &&& call_ensures(build, (i, item_or_empty(items, i as int, empty)), out[i as int])
}

/// The edits named by `idx`, applied first to last, each as [`one_edit_rel`].
pub open spec fn edits_rel<T, F: Fn(usize, T) -> T>(
    build: F,
    items: Seq<T>,
    empty: T,
    idx: Seq<usize>,
    out: Seq<T>,
) -> bool
    decreases idx.len(),
{
    if idx.len() == 0 {
        out == items
    } else {
        exists|mid: Seq<T>|
            edits_rel(build, items, empty, idx.drop_last(), mid) && #[trigger] one_edit_rel(
                build,
                mid,
                empty,
                idx.last(),
                out,
            )
    }
}

/// Builder methods for editing a [`DesiredGameState`] in place.
pub trait DesiredGameStateExt: Sized {
    /// The desired-state value the builder methods edit.
    spec fn dgs(&self) -> DesiredGameStateV;

    /// Edits the match-info section, starting from empty settings if absent.
    fn mod_match_info<F: FnOnce(DesiredMatchInfo) -> DesiredMatchInfo>(&mut self, build: F)
        requires
            call_requires(
                build,
                (match old(self).dgs().match_info {
                    Some(mi) => mi,
                    None => empty_match_info(),
                },),
            ),
        ensures
            final(self).dgs().ball_states == old(self).dgs().ball_states,
            final(self).dgs().car_states == old(self).dgs().car_states,
            ({
                let input = match old(self).dgs().match_info {
                    Some(mi) => mi,
                    None => empty_match_info(),
                };
                &&& final(self).dgs().match_info matches Some(mi2)
                &&& call_ensures(build, (input,), mi2)
            }),
    ;

    /// Edits the car at `index`, growing the car list with empty entries as
    /// needed so that `index` is in range.
    fn mod_car<F: FnOnce(DesiredCarState) -> DesiredCarState>(&mut self, index: usize, build: F)
        requires
            index < usize::MAX,
            call_requires(
                build,
                (item_or_empty(old(self).dgs().car_states, index as int, empty_car()),),
            ),
        ensures
            final(self).dgs().ball_states == old(self).dgs().ball_states,
            final(self).dgs().match_info == old(self).dgs().match_info,
            final(self).dgs().car_states.len() == if old(self).dgs().car_states.len() >= index + 1 {
                old(self).dgs().car_states.len() as int
            } else {
                index + 1
            },
            forall|j: int|
                0 <= j < final(self).dgs().car_states.len() && j != index
                    ==> final(self).dgs().car_states[j] == item_or_empty(
                    old(self).dgs().car_states,
                    j,
                    empty_car(),
                ),
            call_ensures(
                build,
                (item_or_empty(old(self).dgs().car_states, index as int, empty_car()),),
                final(self).dgs().car_states[index as int],
            ),
    ;

    /// Applies `build` to each car index in `indices`, first to last, growing
    /// the car list as [`Self::mod_car`] does.
    fn mod_cars<F: Fn(usize, DesiredCarState) -> DesiredCarState>(
        &mut self,
        indices: &Vec<usize>,
        build: F,
    )
        requires
            forall|i: usize, c: DesiredCarState| call_requires(build, (i, c)),
            forall|k: int| 0 <= k < indices@.len() ==> indices@[k] < usize::MAX,
        ensures
            final(self).dgs().ball_states == old(self).dgs().ball_states,
            final(self).dgs().match_info == old(self).dgs().match_info,
            edits_rel(
                build,
                old(self).dgs().car_states,
                empty_car(),
                indices@,
                final(self).dgs().car_states,
            ),
    ;

    /// Edits the ball at `index`, growing the ball list with empty entries as
    /// needed so that `index` is in range.
    fn mod_ball<F: FnOnce(DesiredBallState) -> DesiredBallState>(&mut self, index: usize, build: F)
        requires
            index < usize::MAX,
            call_requires(
                build,
                (item_or_empty(old(self).dgs().ball_states, index as int, empty_ball()),),
            ),
        ensures
            final(self).dgs().car_states == old(self).dgs().car_states,
            final(self).dgs().match_info == old(self).dgs().match_info,
            final(self).dgs().ball_states.len() == if old(self).dgs().ball_states.len() >= index
                + 1 {
                old(self).dgs().ball_states.len() as int
            } else {
                index + 1
            },
            forall|j: int|
                0 <= j < final(self).dgs().ball_states.len() && j != index
                    ==> final(self).dgs().ball_states[j] == item_or_empty(
                    old(self).dgs().ball_states,
                    j,
                    empty_ball(),
                ),
            call_ensures(
                build,
                (item_or_empty(old(self).dgs().ball_states, index as int, empty_ball()),),
                final(self).dgs().ball_states[index as int],
            ),
    ;

    /// Applies `build` to each ball index in `indices`, first to last, growing
    /// the ball list as [`Self::mod_ball`] does.
    fn mod_balls<F: Fn(usize, DesiredBallState) -> DesiredBallState>(
        &mut self,
        indices: &Vec<usize>,
        build: F,
    )
        requires
            forall|i: usize, b: DesiredBallState| call_requires(build, (i, b)),
            forall|k: int| 0 <= k < indices@.len() ==> indices@[k] < usize::MAX,
        ensures
            final(self).dgs().car_states == old(self).dgs().car_states,
            final(self).dgs().match_info == old(self).dgs().match_info,
            edits_rel(
                build,
                old(self).dgs().ball_states,
                empty_ball(),
                indices@,
                final(self).dgs().ball_states,
            ),
    ;
}

impl DesiredGameStateExt for DesiredGameState {
    open spec fn dgs(&self) -> DesiredGameStateV {
        self@
    }

    fn mod_match_info<F: FnOnce(DesiredMatchInfo) -> DesiredMatchInfo>(&mut self, build: F) {
        let input = match self.match_info {
            Some(mi) => mi,
            None => DesiredMatchInfo { world_gravity_z: None, game_speed: None },
        };
        self.match_info = Some(build(input));
    }

    fn mod_car<F: FnOnce(DesiredCarState) -> DesiredCarState>(&mut self, index: usize, build: F) {
        let ghost oldcars = self.car_states@;
        while self.car_states.len() <= index
            invariant
                index < usize::MAX,
                self.ball_states@ == old(self).ball_states@,
                self.match_info == old(self).match_info,
                oldcars == old(self).car_states@,
                self.car_states@.len() >= oldcars.len(),
                self.car_states@.len() <= index + 1 || self.car_states@ == oldcars,
                forall|j: int|
                    0 <= j < self.car_states@.len() ==> self.car_states@[j] == item_or_empty(
                        oldcars,
                        j,
                        empty_car(),
                    ),
            decreases index + 1 - self.car_states@.len(),
        {
            self.car_states.push(DesiredCarState { physics: None, boost_amount: None });
        }
        let input = self.car_states[index];
        let edited = build(input);
        self.car_states.set(index, edited);
    }

    fn mod_cars<F: Fn(usize, DesiredCarState) -> DesiredCarState>(
        &mut self,
        indices: &Vec<usize>,
        build: F,
    ) {
        let ghost oldcars = self.car_states@;
        let mut k: usize = 0;
        proof {
            assert(indices@.take(0) =~= Seq::<usize>::empty());
        }
        while k < indices.len()
            invariant
                k <= indices@.len(),
                forall|i: usize, c: DesiredCarState| call_requires(build, (i, c)),
                forall|kk: int| 0 <= kk < indices@.len() ==> indices@[kk] < usize::MAX,
                self.ball_states@ == old(self).ball_states@,
                self.match_info == old(self).match_info,
                edits_rel(build, oldcars, empty_car(), indices@.take(k as int), self.car_states@),
                oldcars == old(self).car_states@,
            decreases indices@.len() - k,
        {
            let ghost mid = self.car_states@;
            let index = indices[k];
            // grow, then edit in place: the body of `mod_car`, repeated here so
            // that the loop can relate each step to `one_edit_rel`
            while self.car_states.len() <= index
                invariant
                    index < usize::MAX,
                    self.ball_states@ == old(self).ball_states@,
                    self.match_info == old(self).match_info,
                    self.car_states@.len() >= mid.len(),
                    self.car_states@.len() <= index + 1 || self.car_states@ == mid,
                    forall|j: int|
                        0 <= j < self.car_states@.len() ==> self.car_states@[j] == item_or_empty(
                            mid,
                            j,
                            empty_car(),
                        ),
                decreases index + 1 - self.car_states@.len(),
            {
                self.car_states.push(DesiredCarState { physics: None, boost_amount: None });
            }
            let input = self.car_states[index];
            let edited = build(index, input);
            self.car_states.set(index, edited);
            proof {
                let taken = indices@.take(k as int + 1);
                assert(taken.drop_last() =~= indices@.take(k as int));
                assert(taken.last() == index);
                assert(one_edit_rel(build, mid, empty_car(), index, self.car_states@));
                assert(edits_rel(build, oldcars, empty_car(), taken.drop_last(), mid)
                    && one_edit_rel(build, mid, empty_car(), taken.last(), self.car_states@));
                assert(edits_rel(build, oldcars, empty_car(), taken, self.car_states@));
            }
            k = k + 1;
        }
        proof {
            assert(indices@.take(indices@.len() as int) =~= indices@);
        }
    }

    fn mod_ball<F: FnOnce(DesiredBallState) -> DesiredBallState>(
        &mut self,
        index: usize,
        build: F,
    ) {
        let ghost oldballs = self.ball_states@;
        while self.ball_states.len() <= index
            invariant
                index < usize::MAX,
                self.car_states@ == old(self).car_states@,
                self.match_info == old(self).match_info,
                oldballs == old(self).ball_states@,
                self.ball_states@.len() >= oldballs.len(),
                self.ball_states@.len() <= index + 1 || self.ball_states@ == oldballs,
                forall|j: int|
                    0 <= j < self.ball_states@.len() ==> self.ball_states@[j] == item_or_empty(
                        oldballs,
                        j,
                        empty_ball(),
                    ),
            decreases index + 1 - self.ball_states@.len(),
        {
            self.ball_states.push(
                DesiredBallState {
                    physics: DesiredPhysics {
                        location: None,
                        rotation: None,
                        velocity: None,
                        angular_velocity: None,
                    },
                },
            );
        }
        let input = self.ball_states[index];
        let edited = build(input);
        self.ball_states.set(index, edited);
    }

    fn mod_balls<F: Fn(usize, DesiredBallState) -> DesiredBallState>(
        &mut self,
        indices: &Vec<usize>,
        build: F,
    ) {
        let ghost oldballs = self.ball_states@;
        let mut k: usize = 0;
        proof {
            assert(indices@.take(0) =~= Seq::<usize>::empty());
        }
        while k < indices.len()
            invariant
                k <= indices@.len(),
                forall|i: usize, b: DesiredBallState| call_requires(build, (i, b)),
                forall|kk: int| 0 <= kk < indices@.len() ==> indices@[kk] < usize::MAX,
                self.car_states@ == old(self).car_states@,
                self.match_info == old(self).match_info,
                edits_rel(build, oldballs, empty_ball(), indices@.take(k as int), self.ball_states@),
                oldballs == old(self).ball_states@,
            decreases indices@.len() - k,
        {
            let ghost mid = self.ball_states@;
            let index = indices[k];
            while self.ball_states.len() <= index
                invariant
                    index < usize::MAX,
                    self.car_states@ == old(self).car_states@,
                    self.match_info == old(self).match_info,
                    self.ball_states@.len() >= mid.len(),
                    self.ball_states@.len() <= index + 1 || self.ball_states@ == mid,
                    forall|j: int|
                        0 <= j < self.ball_states@.len() ==> self.ball_states@[j] == item_or_empty(
                            mid,
                            j,
                            empty_ball(),
                        ),
                decreases index + 1 - self.ball_states@.len(),
            {
                self.ball_states.push(
                    DesiredBallState {
                        physics: DesiredPhysics {
                            location: None,
                            rotation: None,
                            velocity: None,
                            angular_velocity: None,
                        },
                    },
                );
            }
            let input = self.ball_states[index];
            let edited = build(index, input);
            self.ball_states.set(index, edited);
            proof {
                let taken = indices@.take(k as int + 1);
                assert(taken.drop_last() =~= indices@.take(k as int));
                assert(taken.last() == index);
                assert(one_edit_rel(build, mid, empty_ball(), index, self.ball_states@));
                assert(edits_rel(build, oldballs, empty_ball(), taken.drop_last(), mid)
                    && one_edit_rel(build, mid, empty_ball(), taken.last(), self.ball_states@));
                assert(edits_rel(build, oldballs, empty_ball(), taken, self.ball_states@));
            }
            k = k + 1;
        }
        proof {
            assert(indices@.take(indices@.len() as int) =~= indices@);
        }
    }
}

/// Builder methods for editing a [`DesiredBallState`] in place.
pub trait DesiredBallStateExt: Sized {
    /// The physics value the builder method edits.
    spec fn phys(&self) -> DesiredPhysics;

    /// Edits the physics of this ball.
    fn mod_physics<F: FnOnce(DesiredPhysics) -> DesiredPhysics>(&mut self, build: F)
        requires
            call_requires(build, (old(self).phys(),)),
        ensures
            call_ensures(build, (old(self).phys(),), final(self).phys()),
    ;
}

impl DesiredBallStateExt for DesiredBallState {
    open spec fn phys(&self) -> DesiredPhysics {
        self.physics
    }

    fn mod_physics<F: FnOnce(DesiredPhysics) -> DesiredPhysics>(&mut self, build: F) {
        self.physics = build(self.physics);
    }
}

} // verus!
