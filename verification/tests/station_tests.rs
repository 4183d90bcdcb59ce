use esphub::aesccm::{SoftAes, AESCCM};
use esphub::enums::{Command, Component, PacketError};
use esphub::packet::AESCCMPacket;
use esphub::station::{led_action, LedAction};

#[test]
fn station_acts_on_its_own_led() {
    assert_eq!(led_action(Command::Toggle(Component::Led(0))), Some(LedAction::Toggle));
    assert_eq!(led_action(Command::On(Component::Led(0))), Some(LedAction::On));
    assert_eq!(led_action(Command::Off(Component::Led(0))), Some(LedAction::Off));
    assert_eq!(led_action(Command::Toggle(Component::Led(1))), None);
    assert_eq!(led_action(Command::On(Component::Led(7))), None);
}

#[test]
fn plaintext_toggle_is_not_an_authenticated_packet() {
    let mut rx = AESCCM::new(SoftAes, [3u8; 16]);
    let packet = AESCCMPacket::from_bytes(b"TOGGLE").unwrap();
    assert_eq!(rx.decrypt(&packet).err(), Some(PacketError::InvalidFormat));
}
