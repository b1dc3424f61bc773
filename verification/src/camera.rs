//! The choices behind camera navigation and camera set-up.
//!
//! The camera's transforms are floating-point work and live with the
//! application. What is decided here is which way a move goes in view space,
//! which of a camera's parameters is reported when several are at fault, and
//! when a camera must be built anew.

use vstd::prelude::*;

verus! {

/// A direction of camera-relative motion.
#[derive(Debug, Clone, Copy, PartialEq, Eq, Structural)]
pub enum Direction {
    Up,
    Down,
    Left,
    Right,
    Forward,
    Backward,
}

/// The view-space axis a direction moves along, as a unit vector: x for left
/// and right, y for up and down, z for forward and backward.
pub open spec fn axis_of(d: Direction) -> (int, int, int) {
    match d {
        Direction::Backward | Direction::Forward => (0, 0, 1),
        Direction::Left | Direction::Right => (1, 0, 0),
        Direction::Up | Direction::Down => (0, 1, 0),
    }
}

/// Whether a direction moves along its axis (1) or against it (-1). The view
/// looks down negative z, so forward goes against the z axis.
pub open spec fn sign_of(d: Direction) -> int {
    match d {
        Direction::Backward | Direction::Up | Direction::Right => 1,
        Direction::Forward | Direction::Down | Direction::Left => -1,
    }
}

/// The unit step of a direction in view space: its axis, turned round where
/// the sign is negative.
pub open spec fn step_of(d: Direction) -> (int, int, int) {
    let a = axis_of(d);
    if sign_of(d) == 1 {
        a
    } else {
        (-a.0, -a.1, -a.2)
    }
}

/// A vector of length one along one of the three axes.
pub open spec fn is_unit_axis_vector(v: (int, int, int)) -> bool {
    ||| v == (1int, 0int, 0int)
    ||| v == (-1int, 0int, 0int)
    ||| v == (0int, 1int, 0int)
    ||| v == (0int, -1int, 0int)
    ||| v == (0int, 0int, 1int)
    ||| v == (0int, 0int, -1int)
}

/// The direction that undoes `d`.
pub open spec fn opposite_of(d: Direction) -> Direction {
    match d {
        Direction::Up => Direction::Down,
        Direction::Down => Direction::Up,
        Direction::Left => Direction::Right,
        Direction::Right => Direction::Left,
        Direction::Forward => Direction::Backward,
        Direction::Backward => Direction::Forward,
    }
}

/// Every step is a unit vector along one axis, and the step of the opposite
/// direction is its negation: moving one way and then back by the same
/// distance leaves the camera where it was.
pub proof fn lemma_steps_are_opposite_units(d: Direction)
    ensures
        is_unit_axis_vector(step_of(d)),
        step_of(opposite_of(d)) == (-step_of(d).0, -step_of(d).1, -step_of(d).2),
        opposite_of(opposite_of(d)) == d,
{
}

impl Direction {
    /// The view-space axis this direction moves along.
    pub fn axis(&self) -> (a: (i8, i8, i8))
        ensures
            (a.0 as int, a.1 as int, a.2 as int) == axis_of(*self),
    {
        match self {
            Direction::Backward | Direction::Forward => (0, 0, 1),
            Direction::Left | Direction::Right => (1, 0, 0),
            Direction::Up | Direction::Down => (0, 1, 0),
        }
    }

    /// 1 if this direction moves along its axis, -1 if against it.
    pub fn sign(&self) -> (s: i8)
        ensures
            s as int == sign_of(*self),
    {
        match self {
            Direction::Backward | Direction::Up | Direction::Right => 1,
            Direction::Forward | Direction::Down | Direction::Left => -1,
        }
    }

    /// The unit step of this direction in view space.
    pub fn view_space_step(&self) -> (v: (i8, i8, i8))
        ensures
            (v.0 as int, v.1 as int, v.2 as int) == step_of(*self),
    {
        let a = self.axis();
        if self.sign() == 1 {
            a
        } else {
            (-a.0, -a.1, -a.2)
        }
    }
}

/// What was found when the parameters of a camera were measured. Each field
/// is true if the parameter is acceptable.
#[derive(Debug, Clone, Copy, PartialEq, Eq, Structural)]
pub struct ParameterChecks {
    /// The field of view lies strictly between zero and a half turn.
    pub fov_in_range: bool,
    /// The far plane lies beyond the near plane.
    pub far_beyond_near: bool,
    /// The near plane lies in front of the camera.
    pub near_positive: bool,
    /// The aspect ratio is above zero.
    pub aspect_ratio_positive: bool,
    /// The look-at target is apart from the camera's position.
    pub target_apart: bool,
    /// The up vector is not zero.
    pub up_nonzero: bool,
    /// The up vector and the view direction are not collinear.
    pub up_not_collinear: bool,
}

/// The parameter for which a camera was refused.
#[derive(Debug, Clone, Copy, PartialEq, Eq, Structural)]
pub enum ConfigurationError {
    FovOutOfRange,
    FarNotBeyondNear,
    NearNotPositive,
    AspectRatioNotPositive,
    TargetTooClose,
    UpIsZero,
    UpCollinearWithDirection,
}

/// All parameters are acceptable.
pub open spec fn all_hold(c: ParameterChecks) -> bool {
    c.fov_in_range && c.far_beyond_near && c.near_positive && c.aspect_ratio_positive
        && c.target_apart && c.up_nonzero && c.up_not_collinear
}

/// The first parameter at fault, in the order in which they are examined.
pub open spec fn first_fault(c: ParameterChecks) -> Option<ConfigurationError> {
    if !c.fov_in_range {
        Some(ConfigurationError::FovOutOfRange)
    } else if !c.far_beyond_near {
        Some(ConfigurationError::FarNotBeyondNear)
    } else if !c.near_positive {
        Some(ConfigurationError::NearNotPositive)
    } else if !c.aspect_ratio_positive {
        Some(ConfigurationError::AspectRatioNotPositive)
    } else if !c.target_apart {
        Some(ConfigurationError::TargetTooClose)
    } else if !c.up_nonzero {
        Some(ConfigurationError::UpIsZero)
    } else if !c.up_not_collinear {
        Some(ConfigurationError::UpCollinearWithDirection)
    } else {
        None
    }
}

/// A camera is accepted exactly if every one of its parameters is.
pub proof fn lemma_accepted_iff_all_hold(c: ParameterChecks)
    ensures
        first_fault(c) is None <==> all_hold(c),
{
}

/// Accepts a camera whose parameters are all acceptable, and otherwise names
/// the first one at fault.
pub fn validate_configuration(c: &ParameterChecks) -> (res: Result<(), ConfigurationError>)
    ensures
        res is Ok <==> all_hold(*c),
        res is Err ==> first_fault(*c) == Some(res->Err_0),
{
    if !c.fov_in_range {
        Err(ConfigurationError::FovOutOfRange)
    } else if !c.far_beyond_near {
        Err(ConfigurationError::FarNotBeyondNear)
    } else if !c.near_positive {
        Err(ConfigurationError::NearNotPositive)
    } else if !c.aspect_ratio_positive {
        Err(ConfigurationError::AspectRatioNotPositive)
    } else if !c.target_apart {
        Err(ConfigurationError::TargetTooClose)
    } else if !c.up_nonzero {
        Err(ConfigurationError::UpIsZero)
    } else if !c.up_not_collinear {
        Err(ConfigurationError::UpCollinearWithDirection)
    } else {
        Ok(())
    }
}

/// Accepts a new look-at target that is apart from the camera and whose
/// direction is not collinear with the up vector; the distance is examined
/// first.
pub fn validate_look_at(target_apart: bool, up_not_collinear: bool) -> (res: Result<
    (),
    ConfigurationError,
>)
    ensures
        res == (if !target_apart {
            Err::<(), ConfigurationError>(ConfigurationError::TargetTooClose)
        } else if !up_not_collinear {
            Err::<(), ConfigurationError>(ConfigurationError::UpCollinearWithDirection)
        } else {
            Ok::<(), ConfigurationError>(())
        }),
{
    if !target_apart {
        Err(ConfigurationError::TargetTooClose)
    } else if !up_not_collinear {
        Err(ConfigurationError::UpCollinearWithDirection)
    } else {
        Ok(())
    }
}

/// What to do about the camera before it is used in a frame.
#[derive(Debug, Clone, Copy, PartialEq, Eq, Structural)]
pub enum CameraAction {
    /// There is no camera yet: create the initial one.
    Create,
    /// The aspect ratio of the window has changed: build a new camera at the
    /// old one's position, looking the same way.
    Recreate,
    /// The camera fits the window.
    Keep,
}

/// Decides whether the camera must be created, re-created or can be kept.
pub fn camera_action(has_camera: bool, aspect_ratio_matches: bool) -> (action: CameraAction)
    ensures
        action == (if !has_camera {
            CameraAction::Create
        } else if !aspect_ratio_matches {
            CameraAction::Recreate
        } else {
            CameraAction::Keep
        }),
{
    if !has_camera {
        CameraAction::Create
    } else if !aspect_ratio_matches {
        CameraAction::Recreate
    } else {
        CameraAction::Keep
    }
}

/// Which of the six navigation keys are held down.
#[derive(Debug, Clone, Copy, PartialEq, Eq, Structural)]
pub struct NavigationKeys {
    pub w: bool,
    pub s: bool,
    pub a: bool,
    pub d: bool,
    pub z: bool,
    pub x: bool,
}

/// `d` if the key is held, else nothing.
pub open spec fn move_if(held: bool, d: Direction) -> Seq<Direction> {
    if held {
        seq![d]
    } else {
        Seq::empty()
    }
}

/// The moves that the held keys ask for, in the order in which they are
/// made: W forward, S backward, A left, D right, Z up, X down.
pub open spec fn moves_of(keys: NavigationKeys) -> Seq<Direction> {
    move_if(keys.w, Direction::Forward) + move_if(keys.s, Direction::Backward) + move_if(
        keys.a,
        Direction::Left,
    ) + move_if(keys.d, Direction::Right) + move_if(keys.z, Direction::Up) + move_if(
        keys.x,
        Direction::Down,
    )
}

/// Lists the moves to make for the keys that are held down.
pub fn directions_for_keys(keys: &NavigationKeys) -> (moves: Vec<Direction>)
    ensures
        moves@ == moves_of(*keys),
{
    let mut moves: Vec<Direction> = Vec::new();
    let ghost mut done: Seq<Direction> = Seq::empty();
    if keys.w {
        moves.push(Direction::Forward);
    }
    proof {
        done = move_if(keys.w, Direction::Forward);
        assert(moves@ =~= done);
    }
    if keys.s {
        moves.push(Direction::Backward);
    }
    proof {
        assert(moves@ =~= done + move_if(keys.s, Direction::Backward));
        done = done + move_if(keys.s, Direction::Backward);
    }
    if keys.a {
        moves.push(Direction::Left);
    }
    proof {
        assert(moves@ =~= done + move_if(keys.a, Direction::Left));
        done = done + move_if(keys.a, Direction::Left);
    }
    if keys.d {
        moves.push(Direction::Right);
    }
    proof {
        assert(moves@ =~= done + move_if(keys.d, Direction::Right));
        done = done + move_if(keys.d, Direction::Right);
    }
    if keys.z {
        moves.push(Direction::Up);
    }
    proof {
        assert(moves@ =~= done + move_if(keys.z, Direction::Up));
        done = done + move_if(keys.z, Direction::Up);
    }
    if keys.x {
        moves.push(Direction::Down);
    }
    proof {
        assert(moves@ =~= done + move_if(keys.x, Direction::Down));
    }
    moves
}

} // verus!
