use mono_synth::envelope::{Adsr, Gate, Phase};
use mono_synth::register::Register;

#[test]
fn a_new_register_holds_no_note() {
    let register = Register::new();
    assert_eq!(register.mu_hertz, 0);
    assert_eq!(register.gate, Gate { trigger_start: None, trigger_end: None });
}

#[test]
fn note_on_sets_frequency_and_press() {
    let mut register = Register::new();
    register.note_on(440_000_000, 1_234);
    assert_eq!(register.mu_hertz, 440_000_000);
    assert_eq!(register.gate, Gate { trigger_start: Some(1_234), trigger_end: None });
}

#[test]
fn note_off_stamps_the_release_and_keeps_the_pitch() {
    let mut register = Register::new();
    register.note_on(440_000_000, 1_000);
    register.note_off(5_000);
    assert_eq!(register.mu_hertz, 440_000_000);
    assert_eq!(register.gate, Gate { trigger_start: Some(1_000), trigger_end: Some(5_000) });
}

#[test]
fn note_off_without_a_press_stamps_the_release_all_the_same() {
    let envelope = Adsr::new(200_000, 100_000, 10_000, 180_000, 200_000).unwrap();
    let mut register = Register::new();
    register.note_off(5_000);
    assert_eq!(register.mu_hertz, 0);
    assert_eq!(register.gate, Gate { trigger_start: None, trigger_end: Some(5_000) });
    assert_eq!(envelope.phase(&register.gate, 5_001), Phase::Silent);
    assert_eq!(envelope.amplitude(&register.gate, 5_001), 0);
    register.note_on(440_000_000, 6_000);
    assert_eq!(register.gate, Gate { trigger_start: Some(6_000), trigger_end: None });
}

#[test]
fn note_off_before_the_press_is_stamped_as_given() {
    let envelope = Adsr::new(200_000, 100_000, 10_000, 180_000, 200_000).unwrap();
    let mut register = Register::new();
    register.note_on(440_000_000, 1_000);
    register.note_off(999);
    assert_eq!(register.gate, Gate { trigger_start: Some(1_000), trigger_end: Some(999) });
    assert_eq!(envelope.amplitude(&register.gate, 1_000), 180_000);
    assert_eq!(envelope.amplitude(&register.gate, 100_999), 90_000);
}

#[test]
fn note_off_at_the_press_is_kept() {
    let mut register = Register::new();
    register.note_on(440_000_000, 1_000);
    register.note_off(1_000);
    assert_eq!(register.gate.trigger_end, Some(1_000));
}

#[test]
fn a_second_note_off_moves_the_release() {
    let mut register = Register::new();
    register.note_on(440_000_000, 1_000);
    register.note_off(2_000);
    register.note_off(3_000);
    assert_eq!(register.gate, Gate { trigger_start: Some(1_000), trigger_end: Some(3_000) });
}

#[test]
fn note_on_replaces_the_note_that_is_held() {
    let mut register = Register::new();
    register.note_on(440_000_000, 1_000);
    register.note_on(523_251_100, 2_000);
    assert_eq!(register.mu_hertz, 523_251_100);
    assert_eq!(register.gate, Gate { trigger_start: Some(2_000), trigger_end: None });
}

#[test]
fn note_on_accepts_frequency_zero() {
    let mut register = Register::new();
    register.note_on(0, 7);
    assert_eq!(register.mu_hertz, 0);
    assert_eq!(register.gate.trigger_start, Some(7));
}

#[test]
fn retrigger_in_mid_release_restarts_the_attack() {
    let envelope = Adsr::new(200_000, 100_000, 10_000, 180_000, 200_000).unwrap();
    let mut register = Register::new();
    register.note_on(440_000_000, 0);
    register.note_off(500_000);
    assert_eq!(envelope.phase(&register.gate, 600_000), Phase::Release);
    assert_eq!(envelope.amplitude(&register.gate, 600_000), 90_000);

    register.note_on(493_883_300, 600_000);
    assert_eq!(register.gate.trigger_end, None);
    assert_eq!(register.gate.trigger_start, Some(600_000));
    assert_eq!(envelope.phase(&register.gate, 600_000), Phase::Attack);
    assert_eq!(envelope.amplitude(&register.gate, 600_000), 0);

    let mut last = 0;
    let mut time: u64 = 600_000;
    while time <= 700_000 {
        let level = envelope.amplitude(&register.gate, time);
        assert!(level >= last);
        last = level;
        time += 500;
    }
    assert_eq!(last, 200_000);
    assert_eq!(envelope.amplitude(&register.gate, 650_000), 100_000);
}
