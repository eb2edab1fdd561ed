use memors::module::{find_offset, position_by_name, Module};
use memors::pattern::{ida, Signature};

fn buffer_with_target() -> Vec<u8> {
    let mut data: Vec<u8> = (0..40u32).map(|i| (i * 7 + 1) as u8).collect();
    let target = [0xFF, 0x12, 0x0A, 0x34, 0xCC, 0xCC, 0xCC, 0x0A];
    data[16..24].copy_from_slice(&target);
    data
}

#[test]
fn end_to_end_match_at_sixteen() {
    let sig = ida("FF ?? 0A ?? CC CC CC 0A");
    let data = buffer_with_target();
    assert_eq!(find_offset(&data, &sig), Some(16));
}

#[test]
fn end_to_end_altered_exact_byte_removes_match() {
    let sig = ida("FF ?? 0A ?? CC CC CC 0A");
    let mut data = buffer_with_target();
    data[20] = 0xCB;
    assert_eq!(find_offset(&data, &sig), None);
}

#[test]
fn end_to_end_altered_wildcard_byte_keeps_match() {
    let sig = ida("FF ?? 0A ?? CC CC CC 0A");
    let mut data = buffer_with_target();
    data[17] = 0x00;
    data[19] = 0xFF;
    assert_eq!(find_offset(&data, &sig), Some(16));
}

#[test]
fn empty_signature_never_matches() {
    let sig = Signature { bytes: vec![], mask: vec![] };
    assert_eq!(find_offset(&[1, 2, 3], &sig), None);
    assert_eq!(find_offset(&[], &sig), None);
}

#[test]
fn signature_longer_than_range_never_matches() {
    let sig = ida("?? ?? ?? ??");
    assert_eq!(find_offset(&[1, 2, 3], &sig), None);
    assert_eq!(find_offset(&[1, 2, 3, 4], &sig), Some(0));
}

#[test]
fn lowest_offset_wins() {
    let sig = ida("AA BB");
    let data = [0, 0xAA, 0xBB, 0xAA, 0xBB];
    assert_eq!(find_offset(&data, &sig), Some(1));
}

#[test]
fn match_at_the_very_end() {
    let sig = ida("01 02");
    assert_eq!(find_offset(&[9, 9, 9, 1, 2], &sig), Some(3));
}

#[test]
fn wildcard_matches_zero_and_its_own_literal() {
    let sig = Signature { bytes: vec![0x55, 0x66], mask: vec![true, false] };
    assert_eq!(find_offset(&[0x55, 0x00], &sig), Some(0));
    assert_eq!(find_offset(&[0x55, 0x66], &sig), Some(0));
    assert_eq!(find_offset(&[0x54, 0x66], &sig), None);
}

#[test]
fn module_find_adds_the_base() {
    let m = Module::from_parts("a.dll".to_string(), 7, 0x1000, 40).unwrap();
    let sig = ida("FF ?? 0A ?? CC CC CC 0A");
    assert_eq!(m.find(&buffer_with_target(), &sig), Some(0x1010));
    assert_eq!(m.find(&vec![0u8; 40], &sig), None);
}

#[test]
fn module_past_end_of_address_space_is_refused() {
    assert!(Module::from_parts("a".to_string(), 0, usize::MAX, 2).is_none());
    let m = Module::from_parts("b".to_string(), 3, usize::MAX, 1).unwrap();
    assert_eq!((m.base, m.size, m.handle, m.name.as_str()), (usize::MAX, 1, 3, "b"));
}

#[test]
fn position_by_name_finds_first() {
    let mods = vec![
        Module::from_parts("x.dll".to_string(), 1, 0, 1).unwrap(),
        Module::from_parts("y.dll".to_string(), 2, 0, 1).unwrap(),
        Module::from_parts("y.dll".to_string(), 3, 0, 1).unwrap(),
    ];
    assert_eq!(position_by_name(&mods, "y.dll"), Some(1));
    assert_eq!(position_by_name(&mods, "z.dll"), None);
    assert_eq!(position_by_name(&mods, "y.dl"), None);
}
