use gcd_service::jokenpo::Object;
use gcd_service::jokenpo::Player;
use gcd_service::jokenpo::jokenpo;

fn pedra() -> Player {
    Player { object: Object::Pedra, defeats: Object::Tesoura }
}

fn papel() -> Player {
    Player { object: Object::Papel, defeats: Object::Pedra }
}

fn tesoura() -> Player {
    Player { object: Object::Tesoura, defeats: Object::Papel }
}

#[test]
fn test_pedra() {
    assert_eq!(jokenpo(&pedra(), &papel()), &papel());
    assert_eq!(jokenpo(&pedra(), &tesoura()), &pedra());
    assert_eq!(jokenpo(&pedra(), &pedra()), &pedra());
}

#[test]
fn test_papel() {
    assert_eq!(jokenpo(&papel(), &tesoura()), &tesoura());
    assert_eq!(jokenpo(&papel(), &pedra()), &papel());
    assert_eq!(jokenpo(&papel(), &papel()), &papel());
}

#[test]
fn test_tesoura() {
    assert_eq!(jokenpo(&tesoura(), &pedra()), &pedra());
    assert_eq!(jokenpo(&tesoura(), &papel()), &tesoura());
    assert_eq!(jokenpo(&tesoura(), &tesoura()), &tesoura());
}
