use scene_viewer::camera::{
    camera_action, validate_configuration, validate_look_at, CameraAction, ConfigurationError,
    Direction, ParameterChecks,
};

const ALL: [Direction; 6] = [
    Direction::Up,
    Direction::Down,
    Direction::Left,
    Direction::Right,
    Direction::Forward,
    Direction::Backward,
];

fn sound() -> ParameterChecks {
    ParameterChecks {
        fov_in_range: true,
        far_beyond_near: true,
        near_positive: true,
        aspect_ratio_positive: true,
        target_apart: true,
        up_nonzero: true,
        up_not_collinear: true,
    }
}

#[test]
fn steps_follow_the_view_space_axes() {
    assert_eq!(Direction::Forward.view_space_step(), (0, 0, -1));
    assert_eq!(Direction::Backward.view_space_step(), (0, 0, 1));
    assert_eq!(Direction::Left.view_space_step(), (-1, 0, 0));
    assert_eq!(Direction::Right.view_space_step(), (1, 0, 0));
    assert_eq!(Direction::Up.view_space_step(), (0, 1, 0));
    assert_eq!(Direction::Down.view_space_step(), (0, -1, 0));
}

#[test]
fn axis_and_sign_of_each_direction() {
    assert_eq!(Direction::Forward.axis(), (0, 0, 1));
    assert_eq!(Direction::Backward.axis(), (0, 0, 1));
    assert_eq!(Direction::Left.axis(), (1, 0, 0));
    assert_eq!(Direction::Right.axis(), (1, 0, 0));
    assert_eq!(Direction::Up.axis(), (0, 1, 0));
    assert_eq!(Direction::Down.axis(), (0, 1, 0));
    assert_eq!(Direction::Forward.sign(), -1);
    assert_eq!(Direction::Backward.sign(), 1);
    assert_eq!(Direction::Left.sign(), -1);
    assert_eq!(Direction::Right.sign(), 1);
    assert_eq!(Direction::Up.sign(), 1);
    assert_eq!(Direction::Down.sign(), -1);
}

#[test]
fn opposite_steps_cancel() {
    let pairs = [
        (Direction::Up, Direction::Down),
        (Direction::Left, Direction::Right),
        (Direction::Forward, Direction::Backward),
    ];
    for (d, back) in pairs {
        let a = d.view_space_step();
        let b = back.view_space_step();
        assert_eq!((a.0 + b.0, a.1 + b.1, a.2 + b.2), (0, 0, 0));
    }
    for d in ALL {
        let a = d.view_space_step();
        assert_eq!(a.0 * a.0 + a.1 * a.1 + a.2 * a.2, 1);
    }
}

#[test]
fn sound_parameters_are_accepted() {
    assert_eq!(validate_configuration(&sound()), Ok(()));
}

#[test]
fn each_fault_is_named() {
    let mut c = sound();
    c.fov_in_range = false;
    assert_eq!(
        validate_configuration(&c),
        Err(ConfigurationError::FovOutOfRange)
    );
    let mut c = sound();
    c.far_beyond_near = false;
    assert_eq!(
        validate_configuration(&c),
        Err(ConfigurationError::FarNotBeyondNear)
    );
    let mut c = sound();
    c.near_positive = false;
    assert_eq!(
        validate_configuration(&c),
        Err(ConfigurationError::NearNotPositive)
    );
    let mut c = sound();
    c.aspect_ratio_positive = false;
    assert_eq!(
        validate_configuration(&c),
        Err(ConfigurationError::AspectRatioNotPositive)
    );
    let mut c = sound();
    c.target_apart = false;
    assert_eq!(
        validate_configuration(&c),
        Err(ConfigurationError::TargetTooClose)
    );
    let mut c = sound();
    c.up_nonzero = false;
    assert_eq!(validate_configuration(&c), Err(ConfigurationError::UpIsZero));
    let mut c = sound();
    c.up_not_collinear = false;
    assert_eq!(
        validate_configuration(&c),
        Err(ConfigurationError::UpCollinearWithDirection)
    );
}

#[test]
fn the_first_fault_is_reported() {
    let mut c = sound();
    c.near_positive = false;
    c.far_beyond_near = false;
    c.up_nonzero = false;
    assert_eq!(
        validate_configuration(&c),
        Err(ConfigurationError::FarNotBeyondNear)
    );
    let none = ParameterChecks {
        fov_in_range: false,
        far_beyond_near: false,
        near_positive: false,
        aspect_ratio_positive: false,
        target_apart: false,
        up_nonzero: false,
        up_not_collinear: false,
    };
    assert_eq!(
        validate_configuration(&none),
        Err(ConfigurationError::FovOutOfRange)
    );
}

#[test]
fn any_fault_refuses_the_camera() {
    for bits in 0u32..128 {
        let c = ParameterChecks {
            fov_in_range: bits & 1 != 0,
            far_beyond_near: bits & 2 != 0,
            near_positive: bits & 4 != 0,
            aspect_ratio_positive: bits & 8 != 0,
            target_apart: bits & 16 != 0,
            up_nonzero: bits & 32 != 0,
            up_not_collinear: bits & 64 != 0,
        };
        assert_eq!(validate_configuration(&c).is_ok(), bits == 127);
    }
}

#[test]
fn look_at_examines_the_distance_first() {
    assert_eq!(validate_look_at(true, true), Ok(()));
    assert_eq!(
        validate_look_at(false, true),
        Err(ConfigurationError::TargetTooClose)
    );
    assert_eq!(
        validate_look_at(false, false),
        Err(ConfigurationError::TargetTooClose)
    );
    assert_eq!(
        validate_look_at(true, false),
        Err(ConfigurationError::UpCollinearWithDirection)
    );
}

#[test]
fn camera_is_created_once_and_rebuilt_on_resize() {
    assert_eq!(camera_action(false, false), CameraAction::Create);
    assert_eq!(camera_action(false, true), CameraAction::Create);
    assert_eq!(camera_action(true, false), CameraAction::Recreate);
    assert_eq!(camera_action(true, true), CameraAction::Keep);
}
