use pong::fixed::ONE;
use pong::rotation::Rotation;
use pong::vector::Vec2;

fn rot(degrees: i64) -> (i64, i64) {
    let r = Rotation::from_degrees(degrees);
    (r.cos, r.sin)
}

#[test]
fn rotation_table() {
    assert_eq!(rot(0), (1_000_000, 0));
    assert_eq!(rot(30 * ONE), (866_025, 500_000));
    assert_eq!(rot(45 * ONE), (707_107, 707_107));
    assert_eq!(rot(60 * ONE), (500_000, 866_025));
    assert_eq!(rot(90 * ONE), (0, 1_000_000));
    assert_eq!(rot(120 * ONE), (-500_000, 866_025));
    assert_eq!(rot(180 * ONE), (-1_000_000, 0));
    assert_eq!(rot(-90 * ONE), (0, -1_000_000));
    assert_eq!(rot(-45 * ONE), (707_107, -707_107));
    assert_eq!(rot(-135 * ONE), (-707_107, -707_107));
    assert_eq!(rot(-180 * ONE), (-1_000_000, 0));
    assert_eq!(rot(ONE), (999_848, 17_452));
    assert_eq!(rot(44_500_000), (713_250, 700_909));
}

#[test]
fn rotation_wraps_whole_turns() {
    assert_eq!(rot(360 * ONE), rot(0));
    assert_eq!(rot(750 * ONE), rot(30 * ONE));
    assert_eq!(rot(-330 * ONE), rot(30 * ONE));
    assert_eq!(rot(i64::MAX), rot(i64::MAX % (360 * ONE)));
    assert_eq!(rot(i64::MIN), rot(i64::MIN % (360 * ONE)));
}

#[test]
fn rotation_is_accurate_to_a_millionth() {
    let mut degrees: i64 = -400 * ONE;
    while degrees <= 400 * ONE {
        let (c, s) = rot(degrees);
        let theta = (degrees as f64 / ONE as f64).to_radians();
        assert!((c as f64 - theta.cos() * ONE as f64).abs() <= 1.0, "cos at {}", degrees);
        assert!((s as f64 - theta.sin() * ONE as f64).abs() <= 1.0, "sin at {}", degrees);
        assert!(-ONE <= c && c <= ONE && -ONE <= s && s <= ONE);
        degrees += 123_457;
    }
}

#[test]
fn identity_leaves_vectors_alone() {
    let v = Vec2 { x: -7, y: i64::MAX };
    assert_eq!(Rotation::identity().apply(v), v);
    assert_eq!(Rotation::identity(), Rotation::from_degrees(0));
}

#[test]
fn vector_helpers() {
    assert_eq!(Vec2::new(1, 2), Vec2 { x: 1, y: 2 });
    assert_eq!(Vec2::zero(), Vec2 { x: 0, y: 0 });
    assert_eq!(Vec2::new(1, 9).limit(Vec2::new(5, 2)), Vec2::new(1, 2));
    assert_eq!(Vec2::new(-7, -1).limit(Vec2::new(5, 2)), Vec2::new(-5, -1));
    assert_eq!(Vec2::new(-7, 3).limit(Vec2::new(0, -2)), Vec2::new(0, 0));
    assert_eq!(Vec2::new(500 * ONE, -2 * ONE).scale(1_050_000), Vec2::new(525 * ONE, -2_100_000));
}

#[test]
fn rotations_have_unit_length() {
    let mut degrees: i64 = -400 * ONE;
    let mut worst: i64 = 0;
    while degrees <= 400 * ONE {
        let (c, s) = rot(degrees);
        let off = (c * c + s * s - ONE * ONE).abs();
        assert!(off <= 2 * ONE, "at {}", degrees);
        worst = worst.max(off);
        degrees += 54_321;
    }
    assert!(worst > 0);
}

#[test]
fn rotation_keeps_the_length_of_a_vector() {
    let v = Vec2 { x: 300 * ONE, y: -400 * ONE };
    let before = (v.x as i128).pow(2) + (v.y as i128).pow(2);
    let mut degrees: i64 = -180 * ONE;
    while degrees <= 180 * ONE {
        let r = Rotation::from_degrees(degrees).apply(v);
        let after = (r.x as i128).pow(2) + (r.y as i128).pow(2);
        // up to two millionths of it, and the rounding of the two coordinates
        let slack = 2 * before / ONE as i128 + 4 * (v.x.abs() + v.y.abs()) as i128;
        assert!((after - before).abs() <= slack, "at {}", degrees);
        degrees += 1_234_567;
    }
}
