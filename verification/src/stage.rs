//! The stages of the TCP migration protocol and their one-byte encoding.

use vstd::prelude::*;

verus! {

/// Stage of a TCP migration, as carried in the upper nibble of a TCPMig header's flags.
#[derive(Debug, Clone, Copy, PartialEq, Eq, Structural)]
pub enum MigrationStage {
    Rejected,
    NoStage,
    PrepareMigration,
    PrepareMigrationAck,
    ConnectionState,
    ConnectionStateAck,
}

/// The number of each stage, in declaration order from 0.
pub open spec fn stage_number(s: MigrationStage) -> u8 {
    match s {
        MigrationStage::Rejected => 0,
        MigrationStage::NoStage => 1,
        MigrationStage::PrepareMigration => 2,
        MigrationStage::PrepareMigrationAck => 3,
        MigrationStage::ConnectionState => 4,
        MigrationStage::ConnectionStateAck => 5,
    }
}

/// The stage with number `v`, or `v` itself as the error when there is none.
pub open spec fn stage_from_number(v: u8) -> Result<MigrationStage, u8> {
    if v == 0 {
        Ok(MigrationStage::Rejected)
    } else if v == 1 {
        Ok(MigrationStage::NoStage)
    } else if v == 2 {
        Ok(MigrationStage::PrepareMigration)
    } else if v == 3 {
        Ok(MigrationStage::PrepareMigrationAck)
    } else if v == 4 {
        Ok(MigrationStage::ConnectionState)
    } else if v == 5 {
        Ok(MigrationStage::ConnectionStateAck)
    } else {
        Err(v)
    }
}

impl From<MigrationStage> for u8 {
    fn from(value: MigrationStage) -> (r: u8) {
        match value {
            MigrationStage::Rejected => 0,
            MigrationStage::NoStage => 1,
            MigrationStage::PrepareMigration => 2,
            MigrationStage::PrepareMigrationAck => 3,
            MigrationStage::ConnectionState => 4,
            MigrationStage::ConnectionStateAck => 5,
        }
    }
}

impl vstd::std_specs::convert::FromSpecImpl<MigrationStage> for u8 {
    open spec fn obeys_from_spec() -> bool {
        true
    }

    open spec fn from_spec(v: MigrationStage) -> u8 {
        stage_number(v)
    }
}

impl TryFrom<u8> for MigrationStage {
    type Error = u8;

    fn try_from(value: u8) -> (r: Result<MigrationStage, u8>) {
        match value {
            0 => Ok(MigrationStage::Rejected),
            1 => Ok(MigrationStage::NoStage),
            2 => Ok(MigrationStage::PrepareMigration),
            3 => Ok(MigrationStage::PrepareMigrationAck),
            4 => Ok(MigrationStage::ConnectionState),
            5 => Ok(MigrationStage::ConnectionStateAck),
            e => Err(e),
        }
    }
}

impl vstd::std_specs::convert::TryFromSpecImpl<u8> for MigrationStage {
    open spec fn obeys_try_from_spec() -> bool {
        true
    }

    open spec fn try_from_spec(v: u8) -> Result<MigrationStage, u8> {
        stage_from_number(v)
    }
}

/// Decoding undoes encoding: every stage comes back from its number, and a number
/// decodes to a stage only if it is that stage's number.
pub proof fn lemma_stage_number_roundtrip(s: MigrationStage, v: u8)
    ensures
        stage_from_number(stage_number(s)) == Ok::<MigrationStage, u8>(s),
        stage_number(s) < 6,
        stage_from_number(v) is Ok <==> v < 6,
        stage_from_number(v) matches Ok(t) ==> stage_number(t) == v,
{
}

} // verus!
