use switch_drivers::power::probe::{identify, identity};
use switch_drivers::power::telemetry::{
    byte, charge_state, external_online, gauge, input, word, ChargeState, PowerSupplyState,
    Registers, CHARGER_ADDRESS, GAUGE_ADDRESS,
};

#[derive(Clone, Copy)]
struct Bus {
    status: u16,
    charger: u8,
    fail: bool,
}

impl Registers for Bus {
    fn read(&self, address: u8, register: u8, bytes: &mut [u8]) -> Result<(), &'static str> {
        if self.fail {
            return Err("NACK");
        }
        match (address, register) {
            (GAUGE_ADDRESS, reg) => {
                let value: u16 = match reg {
                    0x00 => self.status,
                    0x06 => 50 * 256 + 128,
                    0x09 => 48000,
                    0x08 => (-2560i16) as u16,
                    0x0b => (-1600i16) as u16,
                    _ => panic!("unexpected gauge register"),
                };
                bytes.copy_from_slice(&value.to_le_bytes());
            }
            (CHARGER_ADDRESS, 0x08) => bytes[0] = self.charger,
            (CHARGER_ADDRESS, 0x00) => bytes[0] = 7,
            _ => panic!("unexpected register read"),
        }
        Ok(())
    }
}

#[test]
fn gauge_units_signed_current_and_supplement_mode() {
    let state = gauge(
        &Bus {
            status: 0,
            charger: 0xa4,
            fail: false,
        },
        10000,
        true,
    )
    .unwrap();
    assert_eq!(state.capacity_permille, Some(505));
    assert_eq!(state.voltage_uv, Some(3_750_000));
    assert_eq!(state.current_ua, Some(-250_000));
    assert_eq!(state.temperature_mc, Some(-10_000));
    assert_eq!(state.charge_state, Some(ChargeState::Discharging));
}

#[test]
fn reset_absence_and_read_failure_never_become_zero_percent() {
    let bus = Bus {
        status: 2,
        charger: 0,
        fail: false,
    };
    assert_eq!(gauge(&bus, 10000, false).unwrap().capacity_permille, None);
    let absent = Bus { status: 8, ..bus };
    assert_eq!(
        gauge(&absent, 10000, false).unwrap(),
        PowerSupplyState {
            present: Some(false),
            ..Default::default()
        }
    );
    assert!(
        gauge(
            &Bus {
                fail: true,
                ..absent
            },
            10000,
            true
        )
        .is_err()
    );
    assert!(gauge(&bus, 0, true).is_err());
}

#[test]
fn input_power_and_charging_are_independent_and_otg_is_not_input() {
    for (raw, online, state) in [
        (0, false, ChargeState::Discharging),
        (4, true, ChargeState::NotCharging),
        (0x54, true, ChargeState::Charging),
        (0xa4, true, ChargeState::Charging),
        (0xb4, true, ChargeState::Full),
        (0xc4, false, ChargeState::Discharging),
    ] {
        assert_eq!(external_online(raw), online);
        assert_eq!(charge_state(raw, 0), state);
    }
    let state = input(&Bus {
        status: 0,
        charger: 0x84,
        fail: false,
    })
    .unwrap();
    assert_eq!(state.online, Some(true));
    assert_eq!(state.current_ua, None);
    assert_eq!(state.input_current_limit_ua, Some(3_000_000));
}

struct Chips {
    gauge: u16,
    charger: Option<u8>,
}

impl Registers for Chips {
    fn read(&self, address: u8, register: u8, bytes: &mut [u8]) -> Result<(), &'static str> {
        match (address, register) {
            (GAUGE_ADDRESS, 0x21) => bytes.copy_from_slice(&self.gauge.to_le_bytes()),
            (CHARGER_ADDRESS, 0x0a) => bytes[0] = self.charger.ok_or("NACK")?,
            _ => panic!("unexpected register read"),
        }
        Ok(())
    }
}

#[test]
fn only_the_known_gauge_is_taken_and_a_silent_charger_is_not_there() {
    let found = |gauge, charger| identify(&Chips { gauge, charger });
    assert_eq!(found(0x00ac, Some(0x2f)), Ok(true));
    assert_eq!(found(0x00ac, Some(0x23)), Ok(false));
    assert_eq!(found(0x00ac, None), Ok(false));
    assert_eq!(found(0xac00, Some(0x2f)), Err("unsupported MAX17050 device ID"));
    assert_eq!(identity(0x00ac, Some(0x2f)), Ok(true));
    let chips = Chips {
        gauge: 0x1234,
        charger: Some(9),
    };
    assert_eq!(word(&chips, 0x21), Ok(0x1234));
    assert_eq!(byte(&chips, 0x0a), Ok(9));
}
