use rebone::error::FormatError;
use rebone::rig::Borg;

fn put_u32(buffer: &mut Vec<u8>, at: usize, value: u32) {
    buffer[at..at + 4].copy_from_slice(&value.to_le_bytes());
}

/// A rig file with the given bone names: header at 0x10, bones at 0x20.
fn rig_bytes(names: &[&[u8]]) -> Vec<u8> {
    let mut buffer = vec![0u8; 0x20 + names.len() * 0x40];
    put_u32(&mut buffer, 0, 0x10);
    put_u32(&mut buffer, 0x10, names.len() as u32);
    put_u32(&mut buffer, 0x18, 0x20);
    for (i, name) in names.iter().enumerate() {
        let at = 0x20 + i * 0x40 + 0x1C;
        buffer[at..at + name.len()].copy_from_slice(name);
    }
    buffer
}

#[test]
fn rig_parse_scenario() {
    let buffer = rig_bytes(&[b"Root", b"Spine", b"Head"]);
    let borg = Borg::from_bytes(&buffer).unwrap();
    assert_eq!(borg.bones, vec!["Root".to_string(), "Spine".to_string(), "Head".to_string()]);
    assert_eq!(borg.index_of(&"Root".to_string()), Some(0));
    assert_eq!(borg.index_of(&"Spine".to_string()), Some(1));
    assert_eq!(borg.index_of(&"Head".to_string()), Some(2));
    assert_eq!(borg.index_of(&"Tail".to_string()), None);
}

#[test]
fn rig_name_filling_the_whole_field() {
    let long: &[u8] = b"abcdefghijklmnopqrstuvwxyz01234567";
    assert_eq!(long.len(), 0x22);
    let borg = Borg::from_bytes(&rig_bytes(&[long])).unwrap();
    assert_eq!(borg.bones, vec![String::from_utf8(long.to_vec()).unwrap()]);
}

#[test]
fn rig_name_keeps_leading_and_inner_zeros() {
    let borg = Borg::from_bytes(&rig_bytes(&[b"\0a\0b"])).unwrap();
    assert_eq!(borg.bones, vec!["\0a\0b".to_string()]);
}

#[test]
fn rig_without_bones() {
    let borg = Borg::from_bytes(&rig_bytes(&[])).unwrap();
    assert!(borg.bones.is_empty());
    assert!(Borg::new().bones.is_empty());
}

#[test]
fn rig_duplicate_names_look_up_the_last() {
    let borg = Borg::from_bytes(&rig_bytes(&[b"A", b"B", b"A"])).unwrap();
    assert_eq!(borg.bones.len(), 3);
    assert_eq!(borg.index_of(&"A".to_string()), Some(2));
    assert_eq!(borg.index_of(&"B".to_string()), Some(1));
}

#[test]
fn rig_unique_bones_in_order() {
    let a = Borg::from_bytes(&rig_bytes(&[b"Root", b"Tail", b"Head", b"Ear"])).unwrap();
    let b = Borg::from_bytes(&rig_bytes(&[b"Head", b"Root", b"Wing"])).unwrap();
    assert_eq!(a.unique_bones(&b), vec!["Tail".to_string(), "Ear".to_string()]);
    assert_eq!(b.unique_bones(&a), vec!["Wing".to_string()]);
    assert!(a.unique_bones(&a).is_empty());
}

#[test]
fn rig_truncated_files() {
    assert_eq!(Borg::from_bytes(&vec![0x10, 0, 0]).err(), Some(FormatError::OutOfBounds));
    let mut short_header = vec![0u8; 0x18];
    put_u32(&mut short_header, 0, 0x10);
    assert_eq!(Borg::from_bytes(&short_header).err(), Some(FormatError::OutOfBounds));
    let mut buffer = rig_bytes(&[b"Root", b"Spine"]);
    buffer.truncate(0x20 + 0x40 + 0x1C + 0x21);
    assert_eq!(Borg::from_bytes(&buffer).err(), Some(FormatError::OutOfBounds));
    buffer.push(0);
    assert!(Borg::from_bytes(&buffer).is_ok());
}

#[test]
fn rig_with_too_many_bones() {
    let names: Vec<Vec<u8>> = (0..257).map(|i| format!("b{}", i).into_bytes()).collect();
    let refs: Vec<&[u8]> = names.iter().map(|n| n.as_slice()).collect();
    assert_eq!(Borg::from_bytes(&rig_bytes(&refs)).err(), Some(FormatError::TooManyBones));
    let borg = Borg::from_bytes(&rig_bytes(&refs[..256])).unwrap();
    assert_eq!(borg.bones.len(), 256);
    assert_eq!(borg.index_of(&"b255".to_string()), Some(255));
}

#[test]
fn rig_with_invalid_utf8_name() {
    let buffer = rig_bytes(&[b"Root", &[0xC3, 0x28], b"Head", &[0xFF]]);
    assert_eq!(Borg::from_bytes(&buffer).err(), Some(FormatError::InvalidBoneName(1)));
}

#[test]
fn rig_reports_duplicate_names() {
    let dup = Borg::from_bytes(&rig_bytes(&[b"A", b"B", b"C", b"B"])).unwrap();
    assert!(dup.has_duplicate_names());
    let distinct = Borg::from_bytes(&rig_bytes(&[b"A", b"B", b"C"])).unwrap();
    assert!(!distinct.has_duplicate_names());
    assert!(!Borg::new().has_duplicate_names());
}
