use cbus::config::BusConfig;
use cbus::error::BusError;

fn zero_messages_config() -> BusConfig {
    BusConfig::new(32, 0, 32)
}

#[test]
fn value_too_small_max_messages() {
    let result = zero_messages_config().into_valid();
    assert!(result.is_err());
    assert_eq!(
        result.err().unwrap(),
        BusError::ValueTooSmall {
            name: "max_messages",
            current: 0,
            min: 1024
        }
    );
}

#[test]
fn value_is_not_multiple_of_2_max_messages() {
    let result = BusConfig::new(32, 1025, 32).into_valid();
    assert!(result.is_err());
    assert_eq!(
        result.err().unwrap(),
        BusError::ValueIsNotMultipleOf2 {
            name: "max_messages"
        }
    );
}

#[test]
fn value_too_small_max_subscribers() {
    let result = BusConfig::new(0, 1024, 32).into_valid();
    assert!(result.is_err());
    assert_eq!(
        result.err().unwrap(),
        BusError::ValueTooSmall {
            name: "max_subscribers",
            current: 0,
            min: 2
        }
    );
}

#[test]
fn value_is_not_multiple_of_2_max_subscribers() {
    let result = BusConfig::new(1, 1024, 32).into_valid();
    assert!(result.is_err());
    assert_eq!(
        result.err().unwrap(),
        BusError::ValueIsNotMultipleOf2 {
            name: "max_subscribers"
        }
    );
}

#[test]
fn groups_is_not_power_of_two() {
    let result = BusConfig::new(32, 1024, 0).into_valid();
    assert!(result.is_err());
    assert_eq!(result.err().unwrap(), BusError::GroupsIsNotPowerOf2);
}

fn max_messages_value_too_big_generic(config: BusConfig) {
    let result = config.into_valid();
    assert!(result.is_err());
    assert_eq!(
        result.err().unwrap(),
        BusError::ValueTooBig {
            name: "max_messages"
        }
    );
}

#[test]
fn max_message_value_too_big() {
    max_messages_value_too_big_generic(BusConfig::new(32, usize::MAX / 2 + 1, 32));
    max_messages_value_too_big_generic(BusConfig::new(128, (usize::MAX / 2 + 1) / 32, 128));
    max_messages_value_too_big_generic(BusConfig::new(32, (usize::MAX / 2 + 1) / 32, 32));
}

#[test]
fn valid_config_is_accepted() {
    let valid = BusConfig::new(32, 1024, 32).into_valid().unwrap();
    assert_eq!(valid.max_subscribers().get(), 32);
    assert_eq!(valid.max_messages(), 1024);
    assert_eq!(valid.max_groups().get(), 32);
}

#[test]
fn groups_of_one_is_not_even() {
    let result = BusConfig::new(32, 1024, 1).into_valid();
    assert_eq!(
        result.err().unwrap(),
        BusError::ValueIsNotMultipleOf2 { name: "max_groups" }
    );
}

#[test]
fn groups_not_power_of_two_nonzero() {
    let result = BusConfig::new(32, 1024, 6).into_valid();
    assert_eq!(result.err().unwrap(), BusError::GroupsIsNotPowerOf2);
}
