//! Portable J1939 identifier decoding, address claim and PGN table.

use vstd::prelude::*;
use crate::model::CanId;

verus! {

/// J1939 parsing errors.
#[derive(Debug, Clone, PartialEq, Eq)]
pub enum J1939Error {
    /// Only 29-bit identifiers are valid J1939 identifiers.
    RequiresExtendedId,
}

/// J1939 parameter group number.
#[derive(Debug, Clone, Copy, PartialEq, Eq, Hash)]
pub struct Pgn(pub u32);

/// J1939 suspect parameter number.
#[derive(Debug, Clone, Copy, PartialEq, Eq, Hash)]
pub struct Spn(pub u32);

/// J1939 NAME value used during address claim.
#[derive(Debug, Clone, Copy, PartialEq, Eq, Hash, PartialOrd, Ord)]
pub struct Name(pub u64);

/// Decoded J1939 identifier.
#[derive(Debug, Clone, Copy, PartialEq, Eq)]
pub struct J1939Id {
    /// Message priority.
    pub priority: u8,
    /// PGN.
    pub pgn: Pgn,
    /// Source address.
    pub source_address: u8,
    /// Destination address when using PDU1.
    pub destination_address: Option<u8>,
}

/// The PDU format field (bits 16..24) of a 29-bit identifier.
pub open spec fn pdu_format(raw: u32) -> int {
    (raw / 0x1_0000) as int % 256
}

/// The J1939 fields carried by a 29-bit identifier: priority in bits 26..29,
/// PDU format in bits 16..24, PDU specific in bits 8..16, source address in
/// bits 0..8. PDU1 formats (below 240) carry a destination address in the
/// PDU-specific field and leave it out of the PGN.
pub open spec fn j1939_fields(raw: u32) -> J1939Id {
    let pf = pdu_format(raw);
    J1939Id {
        priority: ((raw / 0x400_0000) % 8) as u8,
        pgn: Pgn(if pf < 240 { ((raw / 0x1_0000) % 1024 * 256) as u32 } else { ((raw / 256) % 0x4_0000) as u32 }),
        source_address: (raw % 256) as u8,
        destination_address: if pf < 240 { Some(((raw / 256) % 256) as u8) } else { None },
    }
}

impl J1939Id {
    /// Decode a 29-bit J1939 identifier.
    pub fn from_can_id(id: CanId) -> (res: Result<J1939Id, J1939Error>)
        ensures
            !id.spec_extended() ==> res == Err::<J1939Id, J1939Error>(J1939Error::RequiresExtendedId),
            id.spec_extended() ==> res == Ok::<J1939Id, J1939Error>(j1939_fields(id.spec_raw())),
    {
        if !id.is_extended() {
            return Err(J1939Error::RequiresExtendedId);
        }
        let raw = id.raw();
        let priority = ((raw >> 26) & 0x07) as u8;
        let pf = ((raw >> 16) & 0xff) as u8;
        let ps = ((raw >> 8) & 0xff) as u8;
        let source_address = (raw & 0xff) as u8;
        assert(((raw >> 26) & 0x07) == (raw / 0x400_0000) % 8) by (bit_vector);
        assert(((raw >> 16) & 0xff) == (raw / 0x1_0000) % 256) by (bit_vector);
        assert(((raw >> 8) & 0xff) == (raw / 256) % 256) by (bit_vector);
        assert((raw & 0xff) == raw % 256) by (bit_vector);
        assert(((raw >> 8) & 0x03ff00) == (raw / 0x1_0000) % 1024 * 256) by (bit_vector);
        assert(((raw >> 8) & 0x03ffff) == (raw / 256) % 0x4_0000) by (bit_vector);
        let destination_address = if pf < 240 { Some(ps) } else { None };
        let pgn = if pf < 240 { (raw >> 8) & 0x03ff00 } else { (raw >> 8) & 0x03ffff };
        Ok(J1939Id { priority, pgn: Pgn(pgn), source_address, destination_address })
    }
}

/// The fields of a 29-bit identifier, by bit position: priority is bits
/// 26..29 and the source address bits 0..8. When the PDU format (bits
/// 16..24) is below 240 (PDU1), bits 8..16 are the destination address and
/// the PGN is bits 16..26 shifted up by 8; from 240 on (PDU2, broadcast)
/// there is no destination and the PGN is bits 8..26 whole.
pub proof fn lemma_j1939_bit_fields(raw: u32)
    requires
        raw <= 0x1fff_ffff,
    ensures
        j1939_fields(raw).priority as u32 == (raw >> 26) & 7,
        j1939_fields(raw).source_address as u32 == raw & 0xff,
        (raw >> 16) & 0xff < 240 ==> j1939_fields(raw).destination_address == Some(((raw >> 8) & 0xff) as u8),
        (raw >> 16) & 0xff < 240 ==> j1939_fields(raw).pgn.0 == (raw >> 8) & 0x3ff00,
        (raw >> 16) & 0xff >= 240 ==> j1939_fields(raw).destination_address is None,
        (raw >> 16) & 0xff >= 240 ==> j1939_fields(raw).pgn.0 == (raw >> 8) & 0x3ffff,
        j1939_fields(raw).pgn.0 < 0x4_0000,
{
    assert(((raw >> 26) & 0x07) == (raw / 0x400_0000) % 8) by (bit_vector);
    assert(((raw >> 16) & 0xff) == (raw / 0x1_0000) % 256) by (bit_vector);
    assert(((raw >> 8) & 0xff) == (raw / 256) % 256) by (bit_vector);
    assert((raw & 0xff) == raw % 256) by (bit_vector);
    assert(((raw >> 8) & 0x03ff00) == (raw / 0x1_0000) % 1024 * 256) by (bit_vector);
    assert(((raw >> 8) & 0x03ffff) == (raw / 256) % 0x4_0000) by (bit_vector);
}

/// Outcome of an address-claim comparison.
#[derive(Debug, Clone, Copy, PartialEq, Eq)]
pub enum AddressClaimOutcome {
    /// We keep the address.
    KeepAddress,
    /// We lost arbitration and must choose another address.
    LoseAddress,
}

/// The outcome for the local node when `challenger` claims the same address:
/// the lower NAME keeps the address, and a tie keeps it too.
pub open spec fn claim_outcome(local: u64, challenger: u64) -> AddressClaimOutcome {
    if local <= challenger { AddressClaimOutcome::KeepAddress } else { AddressClaimOutcome::LoseAddress }
}

/// Resolve an address-claim conflict by comparing NAME values.
pub fn resolve_address_claim(local: Name, challenger: Name) -> (r: AddressClaimOutcome)
    ensures
        r == claim_outcome(local.0, challenger.0),
{
    if local.0 <= challenger.0 {
        AddressClaimOutcome::KeepAddress
    } else {
        AddressClaimOutcome::LoseAddress
    }
}

/// Two contenders with different NAMEs never both keep nor both lose the
/// address: exactly one of them keeps it, the one with the lower NAME.
pub proof fn lemma_address_claim_has_one_winner(a: Name, b: Name)
    requires
        a.0 != b.0,
    ensures
        claim_outcome(a.0, b.0) != claim_outcome(b.0, a.0),
        claim_outcome(a.0, b.0) == AddressClaimOutcome::KeepAddress <==> a.0 < b.0,
{
}

/// Generated J1939 PGN metadata.
#[derive(Debug, Clone, Copy, PartialEq, Eq)]
pub struct GeneratedPgn {
    /// Parameter Group Number.
    pub pgn: u32,
    /// Human-readable PGN name.
    pub name: &'static str,
}

/// The name the generated table gives a PGN, if it lists it.
pub open spec fn generated_pgn_name(pgn: u32) -> Option<Seq<char>> {
    if pgn == 0x00F004 {
        Some("ElectronicEngineController1"@)
    } else if pgn == 0x00FEE9 {
        Some("VehicleDirectionSpeed"@)
    } else if pgn == 0x00FEEB {
        Some("ComponentIdentification"@)
    } else {
        None
    }
}

/// Look up a generated PGN definition by number.
pub fn generated_pgn(pgn: Pgn) -> (r: Option<&'static GeneratedPgn>)
    ensures
        match generated_pgn_name(pgn.0) {
            Some(name) => r matches Some(entry) && entry.pgn == pgn.0 && entry.name@ == name,
            None => r is None,
        },
{
    if pgn.0 == 0x00F004 {
        Some(&GeneratedPgn { pgn: 0x00F004, name: "ElectronicEngineController1" })
    } else if pgn.0 == 0x00FEE9 {
        Some(&GeneratedPgn { pgn: 0x00FEE9, name: "VehicleDirectionSpeed" })
    } else if pgn.0 == 0x00FEEB {
        Some(&GeneratedPgn { pgn: 0x00FEEB, name: "ComponentIdentification" })
    } else {
        None
    }
}

} // verus!
