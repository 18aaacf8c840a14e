use kay::id::{IntErrorKind, ParseRawIDError};
use kay::{MachineID, Message, RawID, ShortTypeId};

struct Ping(u8);

impl Message for Ping {
    fn encode(&self) -> Vec<u8> {
        vec![self.0]
    }
}

#[test]
fn message_trait_from_outside() {
    assert_eq!(Ping(3).encode(), vec![3]);
}

#[test]
fn raw_id_string_form() {
    let id = RawID::new(ShortTypeId::new(0x1A).unwrap(), 0xBEEF, MachineID(3), 7);
    assert_eq!(id.to_string(), "1A_BEEF.7@3");
    assert_eq!(RawID::from_str("1A_BEEF.7@3"), Ok(id));
    assert_eq!(RawID::from_str("1a_beef.7@3"), Ok(id));
    assert_eq!(RawID::from_str("+1A.BEEF_7@3@rest"), Ok(id));
}

#[test]
fn raw_id_parse_errors() {
    assert_eq!(RawID::from_str("1A_BEEF.7"), Err(ParseRawIDError::Format));
    assert_eq!(RawID::from_str("0_1.2@3"), Err(ParseRawIDError::InvalidTypeId));
    assert_eq!(
        RawID::from_str("_1.2@3"),
        Err(ParseRawIDError::ParseIntError(IntErrorKind::Empty))
    );
    assert_eq!(
        RawID::from_str("1_x.2@3"),
        Err(ParseRawIDError::ParseIntError(IntErrorKind::InvalidDigit))
    );
    assert_eq!(
        RawID::from_str("1_1.100@3"),
        Err(ParseRawIDError::ParseIntError(IntErrorKind::PosOverflow))
    );
}
