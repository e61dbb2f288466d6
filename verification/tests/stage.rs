use capybara::stage::MigrationStage;
use std::convert::TryFrom;

#[test]
fn stage_numbers() {
    assert_eq!(u8::from(MigrationStage::Rejected), 0);
    assert_eq!(u8::from(MigrationStage::NoStage), 1);
    assert_eq!(u8::from(MigrationStage::PrepareMigration), 2);
    assert_eq!(u8::from(MigrationStage::PrepareMigrationAck), 3);
    assert_eq!(u8::from(MigrationStage::ConnectionState), 4);
    assert_eq!(u8::from(MigrationStage::ConnectionStateAck), 5);
}

#[test]
fn stage_from_number_roundtrip() {
    for v in 0u8..=5 {
        let s = MigrationStage::try_from(v).unwrap();
        assert_eq!(u8::from(s), v);
    }
}

#[test]
fn stage_from_invalid_number() {
    assert_eq!(MigrationStage::try_from(6u8), Err(6));
    assert_eq!(MigrationStage::try_from(255u8), Err(255));
}
