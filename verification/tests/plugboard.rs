use enigma::Error;
use enigma::Plugboard;

#[test]
fn test_plugboard_scramble() {
    let plugs = vec![('A', 'G'), ('D', 'M'), ('Y', 'S')];
    let plugboard = Plugboard::new(&plugs).unwrap();

    // Connected.
    assert_eq!(0, plugboard.scramble(6)); // A -> G
    assert_eq!(6, plugboard.scramble(0)); // G -> A
    assert_eq!(3, plugboard.scramble(12)); // D -> M
    assert_eq!(12, plugboard.scramble(3)); // M -> D
    assert_eq!(24, plugboard.scramble(18)); // Y -> S
    assert_eq!(18, plugboard.scramble(24)); // S -> Y

    // Not connected.
    assert_eq!(4, plugboard.scramble(4)); // E -> E
    assert_eq!(5, plugboard.scramble(5)); // F -> F
    assert_eq!(25, plugboard.scramble(25)); // Z -> Z
    assert_eq!(17, plugboard.scramble(17)); // R -> R
    assert_eq!(25, plugboard.scramble(25)); // Z -> Z
}

#[test]
#[should_panic]
fn test_plugboard_duplicate_plugs() {
    let plugs = vec![('A', 'A')];
    let _ = Plugboard::new(&plugs).unwrap();
}

#[test]
#[should_panic]
fn test_plugboard_plug_in_use() {
    let plugs = vec![('A', 'B'), ('B', 'C')];
    let _ = Plugboard::new(&plugs).unwrap();
}

#[test]
fn test_plugboard_error_kinds() {
    assert!(matches!(Plugboard::new(&vec![('A', 'A')]), Err(Error::PlugboardError)));
    assert!(matches!(
        Plugboard::new(&vec![('A', 'B'), ('B', 'C')]),
        Err(Error::PlugboardError)
    ));
    assert!(matches!(Plugboard::new(&vec![('a', 'B')]), Err(Error::InputError)));
}

#[test]
fn test_plugboard_empty_is_identity() {
    let plugboard = Plugboard::new(&vec![]).unwrap();
    for x in 0..26 {
        assert_eq!(x, plugboard.scramble(x));
    }
}

#[test]
fn test_plugboard_involution_all_positions() {
    let plugs = vec![('A', 'G'), ('D', 'M'), ('Y', 'S'), ('Q', 'Z')];
    let plugboard = Plugboard::new(&plugs).unwrap();
    for x in 0..26 {
        assert_eq!(x, plugboard.scramble(plugboard.scramble(x)));
    }
}

#[test]
fn test_plugboard_full_thirteen_pairs() {
    let plugs = vec![
        ('A', 'B'),
        ('C', 'D'),
        ('E', 'F'),
        ('G', 'H'),
        ('I', 'J'),
        ('K', 'L'),
        ('M', 'N'),
        ('O', 'P'),
        ('Q', 'R'),
        ('S', 'T'),
        ('U', 'V'),
        ('W', 'X'),
        ('Y', 'Z'),
    ];
    let plugboard = Plugboard::new(&plugs).unwrap();
    assert_eq!(1, plugboard.scramble(0)); // A -> B
    assert_eq!(24, plugboard.scramble(25)); // Z -> Y
    for x in 0..26 {
        assert_ne!(x, plugboard.scramble(x));
    }
}
