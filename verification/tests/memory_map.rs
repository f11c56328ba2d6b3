use multiboot2::memory_map::{MEMORY_AREA_SIZE, MEMORY_MAP_FIXED_SIZE, MEMORY_MAP_TAG_TYPE};
use multiboot2::{load, MemoryArea, MemoryAreaType, MemoryMapTag, TagError};

fn map_push_u32(bytes: &mut Vec<u8>, value: u32) {
    bytes.extend_from_slice(&value.to_le_bytes());
}

fn map_push_u64(bytes: &mut Vec<u8>, value: u64) {
    bytes.extend_from_slice(&value.to_le_bytes());
}

fn map_blob(tags: &[(u32, Vec<u8>)]) -> Vec<u8> {
    let mut bytes = Vec::new();
    map_push_u32(&mut bytes, 0);
    map_push_u32(&mut bytes, 0);
    for (typ, payload) in tags {
        map_push_u32(&mut bytes, *typ);
        map_push_u32(&mut bytes, 8 + payload.len() as u32);
        bytes.extend_from_slice(payload);
        while bytes.len() % 8 != 0 {
            bytes.push(0);
        }
    }
    map_push_u32(&mut bytes, 0);
    map_push_u32(&mut bytes, 8);
    let total = bytes.len() as u32;
    bytes[0..4].copy_from_slice(&total.to_le_bytes());
    bytes
}

fn map_payload(entry_size: u32, version: u32, areas: &[(u64, u64, u32)]) -> Vec<u8> {
    let mut payload = Vec::new();
    map_push_u32(&mut payload, entry_size);
    map_push_u32(&mut payload, version);
    for (base, length, typ) in areas {
        let start = payload.len();
        map_push_u64(&mut payload, *base);
        map_push_u64(&mut payload, *length);
        map_push_u32(&mut payload, *typ);
        map_push_u32(&mut payload, 0);
        while payload.len() < start + entry_size as usize {
            payload.push(0xee);
        }
    }
    payload
}

fn map_collect(tag: &MemoryMapTag) -> Vec<MemoryArea> {
    let mut cursor = tag.memory_areas().unwrap();
    let mut areas = Vec::new();
    while let Some(area) = cursor.next() {
        areas.push(area);
    }
    assert_eq!(cursor.next(), None);
    areas
}

#[test]
fn constants_of_the_memory_map() {
    assert_eq!(MEMORY_MAP_TAG_TYPE, 6);
    assert_eq!(MEMORY_MAP_FIXED_SIZE, 8);
    assert_eq!(MEMORY_AREA_SIZE, 24);
}

#[test]
fn memory_map_reads_back_what_was_written() {
    let payload = map_payload(24, 0, &[(0x0, 0x9FC00, 1), (0x100000, 0xEFF00000, 2)]);
    let blob = map_blob(&[(6, payload)]);
    let info = load(0x1000, &blob).unwrap();
    let tag = info.memory_map_tag().unwrap().unwrap();
    assert_eq!(tag.entry_size(), 24);
    assert_eq!(tag.entry_version(), 0);
    let areas = map_collect(&tag);
    assert_eq!(
        areas,
        vec![
            MemoryArea { base_addr: 0x0, length: 0x9FC00, typ: 1 },
            MemoryArea { base_addr: 0x100000, length: 0xEFF00000, typ: 2 },
        ]
    );
    assert_eq!(areas[0].area_type(), MemoryAreaType::Available);
    assert_eq!(areas[1].area_type(), MemoryAreaType::Reserved);
    assert_eq!(areas[0].start_address(), 0);
    assert_eq!(areas[0].size(), 0x9FC00);
    assert_eq!(areas[0].end_address(), Some(0x9FC00));
    assert_eq!(areas[1].end_address(), Some(0xF0000000));
}

#[test]
fn memory_map_steps_by_the_declared_entry_size() {
    let payload = map_payload(40, 1, &[(0x1000, 0x2000, 1), (0x8000_0000_0000, 0x10, 3), (7, 8, 5)]);
    assert_eq!(payload.len(), 8 + 3 * 40);
    let blob = map_blob(&[(2, b"grub".to_vec()), (6, payload)]);
    let info = load(0x1000, &blob).unwrap();
    let tag = info.memory_map_tag().unwrap().unwrap();
    assert_eq!(tag.entry_size(), 40);
    assert_eq!(tag.entry_version(), 1);
    let mut cursor = tag.memory_areas().unwrap();
    assert_eq!(cursor.remaining(), 3);
    assert_eq!(cursor.next(), Some(MemoryArea { base_addr: 0x1000, length: 0x2000, typ: 1 }));
    assert_eq!(cursor.remaining(), 2);
    assert_eq!(
        cursor.next(),
        Some(MemoryArea { base_addr: 0x8000_0000_0000, length: 0x10, typ: 3 })
    );
    assert_eq!(cursor.next(), Some(MemoryArea { base_addr: 7, length: 8, typ: 5 }));
    assert_eq!(cursor.remaining(), 0);
    assert_eq!(cursor.next(), None);
    assert_eq!(cursor.next(), None);
}

#[test]
fn memory_map_reads_numbers_little_endian() {
    let mut payload = Vec::new();
    map_push_u32(&mut payload, 24);
    map_push_u32(&mut payload, 0);
    payload.extend_from_slice(&[0x01, 0x02, 0x03, 0x04, 0x05, 0x06, 0x07, 0x08]);
    payload.extend_from_slice(&[0x11, 0x12, 0x13, 0x14, 0x15, 0x16, 0x17, 0x18]);
    payload.extend_from_slice(&[0x21, 0x22, 0x23, 0x24]);
    payload.extend_from_slice(&[0xff, 0xff, 0xff, 0xff]);
    let blob = map_blob(&[(6, payload)]);
    let info = load(0x1000, &blob).unwrap();
    let tag = info.memory_map_tag().unwrap().unwrap();
    assert_eq!(
        map_collect(&tag),
        vec![MemoryArea {
            base_addr: 0x0807_0605_0403_0201,
            length: 0x1817_1615_1413_1211,
            typ: 0x2423_2221,
        }]
    );
}

#[test]
fn memory_map_leaves_out_an_entry_that_is_cut_short() {
    let mut payload = map_payload(24, 0, &[(1, 2, 1), (3, 4, 1)]);
    payload.extend_from_slice(&[0; 23]);
    let blob = map_blob(&[(6, payload)]);
    let info = load(0x1000, &blob).unwrap();
    let tag = info.memory_map_tag().unwrap().unwrap();
    assert_eq!(map_collect(&tag).len(), 2);
}

#[test]
fn memory_map_without_entries() {
    let blob = map_blob(&[(6, map_payload(24, 0, &[]))]);
    let info = load(0x1000, &blob).unwrap();
    let tag = info.memory_map_tag().unwrap().unwrap();
    assert_eq!(map_collect(&tag), vec![]);
    assert_eq!(tag.tag().size(), 16);
}

#[test]
fn memory_map_hands_unknown_types_on() {
    let payload = map_payload(
        24,
        0,
        &[(0, 1, 0), (0, 1, 1), (0, 1, 2), (0, 1, 3), (0, 1, 4), (0, 1, 5), (0, 1, 6), (0, 1, 0xffff_ffff)],
    );
    let blob = map_blob(&[(6, payload)]);
    let info = load(0x1000, &blob).unwrap();
    let tag = info.memory_map_tag().unwrap().unwrap();
    let types: Vec<MemoryAreaType> = map_collect(&tag).iter().map(|a| a.area_type()).collect();
    assert_eq!(
        types,
        vec![
            MemoryAreaType::Unknown(0),
            MemoryAreaType::Available,
            MemoryAreaType::Reserved,
            MemoryAreaType::AcpiAvailable,
            MemoryAreaType::ReservedHibernate,
            MemoryAreaType::Defective,
            MemoryAreaType::Unknown(6),
            MemoryAreaType::Unknown(0xffff_ffff),
        ]
    );
}

#[test]
fn memory_area_end_address_beyond_the_last_address() {
    let area = MemoryArea { base_addr: u64::MAX, length: 1, typ: 1 };
    assert_eq!(area.end_address(), None);
    let area = MemoryArea { base_addr: u64::MAX - 1, length: 1, typ: 1 };
    assert_eq!(area.end_address(), Some(u64::MAX));
}

#[test]
fn memory_map_refuses_an_entry_size_below_one_entry() {
    for entry_size in [0u32, 1, 8, 23] {
        let mut payload = Vec::new();
        map_push_u32(&mut payload, entry_size);
        map_push_u32(&mut payload, 0);
        payload.extend_from_slice(&[0; 48]);
        let blob = map_blob(&[(6, payload)]);
        let info = load(0x1000, &blob).unwrap();
        let tag = info.memory_map_tag().unwrap().unwrap();
        assert_eq!(tag.entry_size(), entry_size);
        assert_eq!(tag.memory_areas().err(), Some(TagError::BadEntrySize));
    }
}

#[test]
fn memory_map_without_room_for_its_fixed_fields_is_an_error() {
    let blob = map_blob(&[(6, vec![24, 0, 0, 0, 0, 0, 0])]);
    let info = load(0x1000, &blob).unwrap();
    assert_eq!(info.memory_map_tag(), Err(TagError::TooShort));
    let tag = info.get_tag(6).unwrap().unwrap();
    assert_eq!(MemoryMapTag::new(tag), Err(TagError::TooShort));
}

#[test]
fn memory_map_may_be_absent() {
    let blob = map_blob(&[(2, b"grub".to_vec())]);
    let info = load(0x1000, &blob).unwrap();
    assert_eq!(info.memory_map_tag(), Ok(None));
}

#[test]
fn memory_map_behind_a_broken_tag_is_an_error() {
    let mut blob = map_blob(&[(2, b"grub".to_vec()), (6, map_payload(24, 0, &[(1, 2, 1)]))]);
    blob[12..16].copy_from_slice(&0u32.to_le_bytes());
    let info = load(0x1000, &blob).unwrap();
    assert_eq!(info.memory_map_tag(), Err(TagError::SizeTooSmall));
}
