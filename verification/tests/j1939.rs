use cantools::j1939::{generated_pgn, resolve_address_claim, AddressClaimOutcome, J1939Error, J1939Id, Name, Pgn};
use cantools::model::CanId;

#[test]
fn decodes_pdu2_identifier() {
    let id = CanId::extended(0x18fef100).expect("valid id");
    let decoded = J1939Id::from_can_id(id).expect("j1939");
    assert_eq!(decoded.priority, 6);
    assert_eq!(decoded.pgn, Pgn(0xfef1));
    assert_eq!(decoded.destination_address, None);
    assert_eq!(decoded.source_address, 0x00);
}

#[test]
fn lower_name_wins_address_claim() {
    assert_eq!(resolve_address_claim(Name(1), Name(2)), AddressClaimOutcome::KeepAddress);
    assert_eq!(resolve_address_claim(Name(3), Name(2)), AddressClaimOutcome::LoseAddress);
}

#[test]
fn decodes_pdu1_identifier_with_destination() {
    let id = CanId::extended(0x18ea_2a17).expect("valid id");
    let decoded = J1939Id::from_can_id(id).expect("j1939");
    assert_eq!(decoded.priority, 6);
    assert_eq!(decoded.pgn, Pgn(0xea00));
    assert_eq!(decoded.destination_address, Some(0x2a));
    assert_eq!(decoded.source_address, 0x17);
}

#[test]
fn standard_identifiers_are_not_j1939() {
    let id = CanId::standard(0x123).expect("valid id");
    assert_eq!(J1939Id::from_can_id(id), Err(J1939Error::RequiresExtendedId));
}

#[test]
fn equal_names_keep_the_address() {
    assert_eq!(resolve_address_claim(Name(5), Name(5)), AddressClaimOutcome::KeepAddress);
}

#[test]
fn unknown_pgns_have_no_table_entry() {
    assert!(generated_pgn(Pgn(0x12345)).is_none());
}

#[test]
fn known_pgns_have_table_entries() {
    let entry = generated_pgn(Pgn(0xF004)).expect("entry");
    assert_eq!(entry.pgn, 0xF004);
    assert_eq!(entry.name, "ElectronicEngineController1");
}
