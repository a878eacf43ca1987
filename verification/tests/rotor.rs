use enigma::Error;
use enigma::Rotor;
use enigma::RotorType;

#[test]
fn test_rotor_step_turnover() {
    let mut rotor = Rotor::new(RotorType::I, 'P', 1).unwrap();
    assert!(!rotor.step()); // Q - No turnover.
    assert!(rotor.step()); // R - Turnover.
    assert!(!rotor.step()); // S - No turnover.

    let mut rotor = Rotor::new(RotorType::II, 'D', 1).unwrap();
    assert!(!rotor.step()); // E - No turnover.
    assert!(rotor.step()); // F - Turnover.
    assert!(!rotor.step()); // G - No turnover.

    let mut rotor = Rotor::new(RotorType::III, 'U', 1).unwrap();
    assert!(!rotor.step()); // V - No turnover.
    assert!(rotor.step()); // W - Turnover.
    assert!(!rotor.step()); // X - No turnover.

    let mut rotor = Rotor::new(RotorType::IV, 'I', 1).unwrap();
    assert!(!rotor.step()); // J - No turnover.
    assert!(rotor.step()); // K - Turnover.
    assert!(!rotor.step()); // L - No turnover.

    let mut rotor = Rotor::new(RotorType::V, 'Y', 1).unwrap();
    assert!(!rotor.step()); // Z - No turnover.
    assert!(rotor.step()); // A - Turnover.
    assert!(!rotor.step()); // B - No turnover.

    for rotor_type in vec![RotorType::VI, RotorType::VII, RotorType::VIII] {
        let mut rotor = Rotor::new(rotor_type, 'Y', 1).unwrap();
        assert!(!rotor.step()); // Z - No turnover.
        assert!(rotor.step()); // A - Turnover.
        assert!(!rotor.step()); // B - No turnover.

        let mut rotor = Rotor::new(rotor_type, 'L', 1).unwrap();
        assert!(!rotor.step()); // M - No turnover.
        assert!(rotor.step()); // N - Turnover.
        assert!(!rotor.step()); // O - No turnover.
    }
}

#[test]
fn test_rotor_scramble_left() {
    let rotor = Rotor::new(RotorType::I, 'A', 1).unwrap();
    assert_eq!(4, rotor.scramble_left(0)); // A -> E
}

#[test]
fn test_rotor_scramble_right() {
    let rotor = Rotor::new(RotorType::I, 'A', 1).unwrap();
    assert_eq!(0, rotor.scramble_right(4)); // E -> A
}

#[test]
fn test_rotor_step_scramble_left() {
    let mut rotor = Rotor::new(RotorType::I, 'A', 1).unwrap();
    rotor.step();
    assert_eq!(9, rotor.scramble_left(0)); // A (B) -> K (J)
}

#[test]
fn test_rotor_step_scramble_right() {
    let mut rotor = Rotor::new(RotorType::I, 'A', 1).unwrap();
    rotor.step();
    assert_eq!(2, rotor.scramble_right(4)); // E (F) -> D (C)
}

#[test]
fn test_rotor_invalid_ring_setting_low() {
    assert!(Rotor::new(RotorType::I, 'A', 0).is_err());
}

#[test]
fn test_rotor_invalid_ring_setting_high() {
    assert!(Rotor::new(RotorType::I, 'A', 27).is_err());
}

#[test]
fn test_get_rotor_type_from_string() {
    assert_eq!(RotorType::I, Rotor::get_rotor_type_from_string("I").unwrap());
    assert_eq!(RotorType::I, Rotor::get_rotor_type_from_string("i").unwrap());

    assert_eq!(RotorType::II, Rotor::get_rotor_type_from_string("II").unwrap());
    assert_eq!(RotorType::II, Rotor::get_rotor_type_from_string("ii").unwrap());

    assert_eq!(RotorType::III, Rotor::get_rotor_type_from_string("III").unwrap());
    assert_eq!(RotorType::III, Rotor::get_rotor_type_from_string("iii").unwrap());

    assert_eq!(RotorType::IV, Rotor::get_rotor_type_from_string("IV").unwrap());
    assert_eq!(RotorType::IV, Rotor::get_rotor_type_from_string("iv").unwrap());

    assert_eq!(RotorType::V, Rotor::get_rotor_type_from_string("V").unwrap());
    assert_eq!(RotorType::V, Rotor::get_rotor_type_from_string("v").unwrap());

    assert_eq!(RotorType::VI, Rotor::get_rotor_type_from_string("VI").unwrap());
    assert_eq!(RotorType::VI, Rotor::get_rotor_type_from_string("vi").unwrap());

    assert_eq!(RotorType::VII, Rotor::get_rotor_type_from_string("VII").unwrap());
    assert_eq!(RotorType::VII, Rotor::get_rotor_type_from_string("vii").unwrap());

    assert_eq!(RotorType::VIII, Rotor::get_rotor_type_from_string("VIII").unwrap());
    assert_eq!(RotorType::VIII, Rotor::get_rotor_type_from_string("viii").unwrap());
}

#[test]
fn test_get_rotor_type_from_string_invalid() {
    assert!(Rotor::get_rotor_type_from_string("blah").is_err());
}

#[test]
fn test_rotor_error_kinds() {
    assert!(matches!(Rotor::new(RotorType::I, 'A', 0), Err(Error::RotorError)));
    assert!(matches!(Rotor::new(RotorType::I, 'A', 27), Err(Error::RotorError)));
    assert!(matches!(Rotor::new(RotorType::I, 'a', 1), Err(Error::InputError)));
    assert!(matches!(Rotor::get_rotor_type_from_string("blah"), Err(Error::RotorError)));
}

#[test]
fn test_rotor_scramble_inverse_everywhere() {
    // The two directions undo each other for every input, at an arbitrary
    // position and ring setting.
    let mut rotor = Rotor::new(RotorType::IV, 'H', 19).unwrap();
    for _ in 0..7 {
        rotor.step();
    }
    for x in 0..26 {
        assert_eq!(x, rotor.scramble_right(rotor.scramble_left(x)));
        assert_eq!(x, rotor.scramble_left(rotor.scramble_right(x)));
    }
}

#[test]
fn test_rotor_step_carry_fixture() {
    // A keystroke with rotor III one short of its notch and rotor II one
    // short of its own: the carry reaches the leftmost rotor, so all three
    // advance on the same keystroke.
    let mut left = Rotor::new(RotorType::I, 'A', 1).unwrap();
    let mut middle = Rotor::new(RotorType::II, 'E', 1).unwrap();
    let mut right = Rotor::new(RotorType::III, 'V', 1).unwrap();

    // Step propagation, rightmost first, stopping at the first step that
    // does not carry.
    assert!(right.step()); // V -> W, the type-III notch: carry.
    assert!(middle.step()); // E -> F, the type-II notch: carry.
    assert!(!left.step()); // A -> B, no notch: stop.

    assert_eq!('B', left.get_key());
    assert_eq!('F', middle.get_key());
    assert_eq!('W', right.get_key());

    // The next keystroke moves the rightmost rotor alone: its step off the
    // notch does not carry, so the middle rotor stays put.
    assert!(!right.step()); // W -> X, no carry.

    assert_eq!('B', left.get_key());
    assert_eq!('F', middle.get_key());
    assert_eq!('X', right.get_key());
}
