use enigma::Enigma;
use enigma::Error;
use enigma::Plugboard;
use enigma::ReflectorType;
use enigma::Rotor;
use enigma::RotorType;

fn standard_rotors(ring_setting: usize) -> Vec<Rotor> {
    let mut rotors = Vec::new();
    rotors.push(Rotor::new(RotorType::I, 'A', ring_setting).unwrap());
    rotors.push(Rotor::new(RotorType::II, 'A', ring_setting).unwrap());
    rotors.push(Rotor::new(RotorType::III, 'A', ring_setting).unwrap());
    rotors
}

#[test]
fn test_enigma_encrypt() {
    let input = String::from("AAAAA");
    let expected = String::from("BDZGO");

    let mut rotors = Vec::new();

    rotors.push(Rotor::new(RotorType::I, 'A', 1).unwrap());
    rotors.push(Rotor::new(RotorType::II, 'A', 1).unwrap());
    rotors.push(Rotor::new(RotorType::III, 'A', 1).unwrap());

    let plugboard = Plugboard::new(&vec![]).unwrap();
    let mut enigma = Enigma::new(ReflectorType::B, rotors, plugboard);

    let output = enigma.encrypt(&input).expect("Failed to encrypt");

    assert_eq!(&expected, &output);
}

#[test]
fn test_enigma_encrypt_ring_setting() {
    let input = String::from("AAAAA");
    let expected = String::from("EWTYX");

    let mut rotors = Vec::new();

    rotors.push(Rotor::new(RotorType::I, 'A', 2).unwrap());
    rotors.push(Rotor::new(RotorType::II, 'A', 2).unwrap());
    rotors.push(Rotor::new(RotorType::III, 'A', 2).unwrap());

    let plugboard = Plugboard::new(&vec![]).unwrap();
    let mut enigma = Enigma::new(ReflectorType::B, rotors, plugboard);

    let output = enigma.encrypt(&input).expect("Failed to encrypt");

    assert_eq!(&expected, &output);
}

#[test]
fn test_enigma_encrypt_decrypt() {
    let input = String::from("AAAAA");
    let mut output;

    {
        let mut rotors = Vec::new();

        rotors.push(Rotor::new(RotorType::I, 'A', 1).unwrap());
        rotors.push(Rotor::new(RotorType::II, 'A', 1).unwrap());
        rotors.push(Rotor::new(RotorType::III, 'A', 1).unwrap());

        let plugboard = Plugboard::new(&vec![]).unwrap();
        let mut enigma = Enigma::new(ReflectorType::B, rotors, plugboard);

        output = enigma.encrypt(&input).expect("Failed to encrypt");
    }

    {
        let mut rotors = Vec::new();

        rotors.push(Rotor::new(RotorType::I, 'A', 1).unwrap());
        rotors.push(Rotor::new(RotorType::II, 'A', 1).unwrap());
        rotors.push(Rotor::new(RotorType::III, 'A', 1).unwrap());

        let plugboard = Plugboard::new(&vec![]).unwrap();
        let mut enigma = Enigma::new(ReflectorType::B, rotors, plugboard);

        output = enigma.encrypt(&output).expect("Failed to encrypt");
    }

    assert_eq!(&input, &output);
}

#[test]
fn test_enigma_encrypt_decrypt_with_plugboard() {
    let input = String::from("AAAAA");
    let mut output;

    let plugs = vec![
        ('A', 'Z'),
        ('B', 'Y'),
        ('C', 'X'),
        ('D', 'W'),
        ('E', 'V'),
        ('F', 'U'),
        ('G', 'T'),
        ('H', 'S'),
        ('I', 'R'),
        ('J', 'Q'),
    ];

    {
        let mut rotors = Vec::new();

        rotors.push(Rotor::new(RotorType::I, 'A', 1).unwrap());
        rotors.push(Rotor::new(RotorType::II, 'A', 1).unwrap());
        rotors.push(Rotor::new(RotorType::III, 'A', 1).unwrap());

        let plugboard = Plugboard::new(&plugs).unwrap();
        let mut enigma = Enigma::new(ReflectorType::B, rotors, plugboard);

        output = enigma.encrypt(&input).expect("Failed to encrypt");
    }

    {
        let mut rotors = Vec::new();

        rotors.push(Rotor::new(RotorType::I, 'A', 1).unwrap());
        rotors.push(Rotor::new(RotorType::II, 'A', 1).unwrap());
        rotors.push(Rotor::new(RotorType::III, 'A', 1).unwrap());

        let plugboard = Plugboard::new(&plugs).unwrap();
        let mut enigma = Enigma::new(ReflectorType::B, rotors, plugboard);

        output = enigma.encrypt(&output).expect("Failed to encrypt");
    }

    assert_eq!(&input, &output);
}

#[test]
fn test_enigma_whitespace_passes_through() {
    let plugboard = Plugboard::new(&vec![]).unwrap();
    let mut enigma = Enigma::new(ReflectorType::B, standard_rotors(1), plugboard);

    let output = enigma.encrypt("AA AAA").expect("Failed to encrypt");

    assert_eq!("BD ZGO", &output);
}

#[test]
fn test_enigma_rejects_non_ascii_whole_call() {
    let plugboard = Plugboard::new(&vec![]).unwrap();
    let mut enigma = Enigma::new(ReflectorType::B, standard_rotors(1), plugboard);

    assert!(matches!(enigma.encrypt("Ä"), Err(Error::InputError)));

    // The rejected call changed nothing: the machine still produces the
    // stream of its initial state.
    let output = enigma.encrypt("AAAAA").expect("Failed to encrypt");
    assert_eq!("BDZGO", &output);
}

#[test]
fn test_enigma_fails_on_ascii_non_letter_after_stepping() {
    let plugboard = Plugboard::new(&vec![]).unwrap();
    let mut enigma = Enigma::new(ReflectorType::B, standard_rotors(1), plugboard);

    // ASCII but no uppercase letter: the call fails, with the rotors
    // already stepped once for the offending character.
    assert!(matches!(enigma.encrypt("a"), Err(Error::InputError)));

    // The next four letters therefore produce keystrokes two to five of
    // the initial state's stream.
    let output = enigma.encrypt("AAAA").expect("Failed to encrypt");
    assert_eq!("DZGO", &output);
}

#[test]
fn test_enigma_empty_input() {
    let plugboard = Plugboard::new(&vec![]).unwrap();
    let mut enigma = Enigma::new(ReflectorType::B, standard_rotors(1), plugboard);

    let output = enigma.encrypt("").expect("Failed to encrypt");
    assert_eq!("", &output);
}

#[test]
fn test_enigma_round_trip_longer_text() {
    let input = String::from("THE QUICK BROWN FOX JUMPS OVER THE LAZY DOG");
    let plugs = vec![('Q', 'W'), ('E', 'R'), ('T', 'Z')];
    let output;
    let back;

    {
        let plugboard = Plugboard::new(&plugs).unwrap();
        let mut enigma = Enigma::new(ReflectorType::C, standard_rotors(3), plugboard);
        output = enigma.encrypt(&input).expect("Failed to encrypt");
    }

    {
        let plugboard = Plugboard::new(&plugs).unwrap();
        let mut enigma = Enigma::new(ReflectorType::C, standard_rotors(3), plugboard);
        back = enigma.encrypt(&output).expect("Failed to encrypt");
    }

    assert_ne!(&input, &output);
    assert_eq!(&input, &back);
}
