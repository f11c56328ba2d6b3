use multiboot2::load;

fn repeat_push_u32(bytes: &mut Vec<u8>, value: u32) {
    bytes.extend_from_slice(&value.to_le_bytes());
}

fn repeat_blob(tags: &[(u32, Vec<u8>)]) -> Vec<u8> {
    let mut bytes = Vec::new();
    repeat_push_u32(&mut bytes, 0);
    repeat_push_u32(&mut bytes, 0);
    for (typ, payload) in tags {
        repeat_push_u32(&mut bytes, *typ);
        repeat_push_u32(&mut bytes, 8 + payload.len() as u32);
        bytes.extend_from_slice(payload);
        while bytes.len() % 8 != 0 {
            bytes.push(0);
        }
    }
    repeat_push_u32(&mut bytes, 0);
    repeat_push_u32(&mut bytes, 8);
    let total = bytes.len() as u32;
    bytes[0..4].copy_from_slice(&total.to_le_bytes());
    bytes
}

fn repeat_sample() -> Vec<u8> {
    let mut map = Vec::new();
    repeat_push_u32(&mut map, 24);
    repeat_push_u32(&mut map, 0);
    map.extend_from_slice(&0x1000u64.to_le_bytes());
    map.extend_from_slice(&0x2000u64.to_le_bytes());
    repeat_push_u32(&mut map, 1);
    repeat_push_u32(&mut map, 0);
    let mut module = Vec::new();
    repeat_push_u32(&mut module, 0x10_0000);
    repeat_push_u32(&mut module, 0x20_0000);
    module.extend_from_slice(b"initrd");
    let mut sections = Vec::new();
    repeat_push_u32(&mut sections, 1);
    repeat_push_u32(&mut sections, 64);
    repeat_push_u32(&mut sections, 0);
    sections.extend_from_slice(&[3; 64]);
    repeat_blob(&[(2, b"grub 2".to_vec()), (3, module), (6, map), (9, sections)])
}

#[test]
fn accessors_give_the_same_twice() {
    let blob = repeat_sample();
    let before = blob.clone();
    let info = load(0x1000, &blob).unwrap();

    assert_eq!(info.total_size(), info.total_size());
    assert_eq!(info.start_address(), info.start_address());
    assert_eq!(info.end_address(), info.end_address());
    assert_eq!(info.boot_loader_name_tag(), info.boot_loader_name_tag());
    assert_eq!(info.memory_map_tag(), info.memory_map_tag());
    assert_eq!(info.elf_sections_tag(), info.elf_sections_tag());
    for typ in 0..12 {
        assert_eq!(info.get_tag(typ), info.get_tag(typ));
    }

    let name = info.boot_loader_name_tag().unwrap().unwrap();
    assert_eq!(name.name(), Some("grub 2"));
    assert_eq!(name.name(), name.name());

    let map = info.memory_map_tag().unwrap().unwrap();
    let mut first = map.memory_areas().unwrap();
    let mut second = map.memory_areas().unwrap();
    let a = first.next();
    assert!(a.is_some());
    assert_eq!(a, second.next());
    assert_eq!(first.next(), None);
    assert_eq!(second.next(), None);

    let sections = info.elf_sections_tag().unwrap().unwrap();
    let mut first = sections.sections().unwrap();
    let mut second = sections.sections().unwrap();
    let a = first.next();
    assert!(a.is_some());
    assert_eq!(a, second.next());
    assert_eq!(sections.string_table_section(), sections.string_table_section());

    let mut first = info.module_tags();
    let mut second = info.module_tags();
    let a = first.next();
    assert_eq!(a.unwrap().unwrap().name(), Some("initrd"));
    assert_eq!(a, second.next());
    assert_eq!(first.next(), Ok(None));
    assert_eq!(second.next(), Ok(None));

    assert_eq!(blob, before);
}

#[test]
fn two_views_of_one_blob_agree() {
    let blob = repeat_sample();
    let one = load(0x1000, &blob).unwrap();
    let two = load(0x1000, &blob).unwrap();
    let copy = one;
    assert_eq!(one.boot_loader_name_tag(), two.boot_loader_name_tag());
    assert_eq!(one.memory_map_tag(), copy.memory_map_tag());
    let mut a = one.tags();
    let mut b = two.tags();
    loop {
        let x = a.next();
        assert_eq!(x, b.next());
        if x == Ok(None) {
            break;
        }
    }
}

#[test]
fn cursors_over_one_blob_do_not_disturb_each_other() {
    let blob = repeat_sample();
    let info = load(0x1000, &blob).unwrap();
    let mut slow = info.tags();
    let mut fast = info.tags();
    assert_eq!(fast.next().unwrap().unwrap().typ(), 2);
    assert_eq!(fast.next().unwrap().unwrap().typ(), 3);
    assert_eq!(slow.next().unwrap().unwrap().typ(), 2);
    assert_eq!(fast.next().unwrap().unwrap().typ(), 6);
    let mut copy = slow;
    assert_eq!(slow.next().unwrap().unwrap().typ(), 3);
    assert_eq!(copy.next().unwrap().unwrap().typ(), 3);
    assert_eq!(fast.next().unwrap().unwrap().typ(), 9);
    assert_eq!(fast.next(), Ok(None));
    assert_eq!(slow.next().unwrap().unwrap().typ(), 6);
}
