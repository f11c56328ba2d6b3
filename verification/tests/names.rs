use multiboot2::boot_loader_name::BOOT_LOADER_NAME_TAG_TYPE;
use multiboot2::module::{MODULE_FIXED_SIZE, MODULE_TAG_TYPE};
use multiboot2::text::read_str;
use multiboot2::{load, BootLoaderNameTag, ModuleTag, TagError};

fn names_push_u32(bytes: &mut Vec<u8>, value: u32) {
    bytes.extend_from_slice(&value.to_le_bytes());
}

fn names_push_tag(bytes: &mut Vec<u8>, typ: u32, payload: &[u8]) {
    names_push_u32(bytes, typ);
    names_push_u32(bytes, 8 + payload.len() as u32);
    bytes.extend_from_slice(payload);
    while bytes.len() % 8 != 0 {
        bytes.push(0);
    }
}

fn names_blob(tags: &[(u32, Vec<u8>)]) -> Vec<u8> {
    let mut bytes = Vec::new();
    names_push_u32(&mut bytes, 0);
    names_push_u32(&mut bytes, 0);
    for (typ, payload) in tags {
        names_push_tag(&mut bytes, *typ, payload);
    }
    names_push_u32(&mut bytes, 0);
    names_push_u32(&mut bytes, 8);
    let total = bytes.len() as u32;
    bytes[0..4].copy_from_slice(&total.to_le_bytes());
    bytes
}

fn names_module(start: u32, end: u32, name: &[u8]) -> (u32, Vec<u8>) {
    let mut payload = Vec::new();
    names_push_u32(&mut payload, start);
    names_push_u32(&mut payload, end);
    payload.extend_from_slice(name);
    (3, payload)
}

#[test]
fn constants_of_the_name_and_module_tags() {
    assert_eq!(BOOT_LOADER_NAME_TAG_TYPE, 2);
    assert_eq!(MODULE_TAG_TYPE, 3);
    assert_eq!(MODULE_FIXED_SIZE, 8);
}

#[test]
fn boot_loader_name_is_as_long_as_the_tag_declares() {
    let blob = names_blob(&[(2, b"abcde".to_vec())]);
    let info = load(0x1000, &blob).unwrap();
    let tag = info.boot_loader_name_tag().unwrap().unwrap();
    assert_eq!(tag.tag().size(), 8 + 5);
    assert_eq!(tag.name(), Some("abcde"));
    assert_eq!(tag.name_bytes(), b"abcde");
}

#[test]
fn boot_loader_name_follows_the_declared_size_not_the_bytes() {
    let mut blob = names_blob(&[(2, b"abcde".to_vec())]);
    // The same bytes, with the declared size one less.
    blob[12..16].copy_from_slice(&(8u32 + 4).to_le_bytes());
    let info = load(0x1000, &blob).unwrap();
    let tag = info.boot_loader_name_tag().unwrap().unwrap();
    assert_eq!(tag.name(), Some("abcd"));
    assert_eq!(tag.name_bytes().len(), 4);
}

#[test]
fn boot_loader_name_keeps_a_zero_byte() {
    let blob = names_blob(&[(2, b"grub\0".to_vec())]);
    let info = load(0x1000, &blob).unwrap();
    let tag = info.boot_loader_name_tag().unwrap().unwrap();
    assert_eq!(tag.name(), Some("grub\0"));
    assert_eq!(tag.name().unwrap().len(), 5);
}

#[test]
fn boot_loader_name_may_be_empty() {
    let blob = names_blob(&[(2, vec![])]);
    let info = load(0x1000, &blob).unwrap();
    let tag = info.boot_loader_name_tag().unwrap().unwrap();
    assert_eq!(tag.name(), Some(""));
}

#[test]
fn boot_loader_name_reads_utf8() {
    let blob = names_blob(&[(2, "Grüß 起動".as_bytes().to_vec())]);
    let info = load(0x1000, &blob).unwrap();
    let tag = info.boot_loader_name_tag().unwrap().unwrap();
    assert_eq!(tag.name(), Some("Grüß 起動"));
}

#[test]
fn boot_loader_name_that_is_not_utf8_is_none() {
    let blob = names_blob(&[(2, vec![b'a', 0xff, b'b'])]);
    let info = load(0x1000, &blob).unwrap();
    let tag = info.boot_loader_name_tag().unwrap().unwrap();
    assert_eq!(tag.name(), None);
    assert_eq!(tag.name_bytes(), &[b'a', 0xff, b'b']);
    // A sequence cut short by the declared size is not valid either.
    let blob = names_blob(&[(2, "é".as_bytes()[..1].to_vec())]);
    let info = load(0x1000, &blob).unwrap();
    assert_eq!(info.boot_loader_name_tag().unwrap().unwrap().name(), None);
}

#[test]
fn boot_loader_name_may_be_absent() {
    let blob = names_blob(&[(3, vec![0; 8]), (6, vec![0; 8])]);
    let info = load(0x1000, &blob).unwrap();
    assert_eq!(info.boot_loader_name_tag(), Ok(None));
}

#[test]
fn boot_loader_name_is_the_first_of_its_type() {
    let blob = names_blob(&[(9, vec![0; 12]), (2, b"one".to_vec()), (2, b"two".to_vec())]);
    let info = load(0x1000, &blob).unwrap();
    assert_eq!(info.boot_loader_name_tag().unwrap().unwrap().name(), Some("one"));
}

#[test]
fn boot_loader_name_behind_a_broken_tag_is_an_error() {
    let mut blob = names_blob(&[(9, vec![0; 12]), (2, b"one".to_vec())]);
    blob[12..16].copy_from_slice(&3u32.to_le_bytes());
    let info = load(0x1000, &blob).unwrap();
    assert_eq!(info.boot_loader_name_tag(), Err(TagError::SizeTooSmall));
}

#[test]
fn any_tag_can_be_read_as_a_name() {
    let blob = names_blob(&[(77, b"odd".to_vec())]);
    let info = load(0x1000, &blob).unwrap();
    let tag = info.get_tag(77).unwrap().unwrap();
    let name = BootLoaderNameTag::new(tag);
    assert_eq!(name.name(), Some("odd"));
    assert_eq!(name.tag(), tag);
}

#[test]
fn read_str_takes_all_the_bytes() {
    assert_eq!(read_str(b"abc\0def"), Some("abc\0def"));
    assert_eq!(read_str(b""), Some(""));
    assert_eq!(read_str(&[0xc3]), None);
    assert_eq!(read_str(&[0xc3, 0xa9]), Some("é"));
}

#[test]
fn modules_of_a_blob_without_modules() {
    let blob = names_blob(&[(2, b"grub".to_vec()), (6, vec![0; 8])]);
    let info = load(0x1000, &blob).unwrap();
    let mut modules = info.module_tags();
    assert_eq!(modules.next(), Ok(None));
    assert_eq!(modules.next(), Ok(None));
    let empty = names_blob(&[]);
    let info = load(0x1000, &empty).unwrap();
    assert_eq!(info.module_tags().next(), Ok(None));
}

#[test]
fn modules_among_other_tags() {
    let blob = names_blob(&[
        (2, b"grub".to_vec()),
        names_module(0x10_0000, 0x10_4000, b"initrd"),
        (6, vec![0; 8]),
        (1234, vec![7; 3]),
        names_module(0x20_0000, 0x20_0001, b"a b c\0"),
        names_module(0xffff_fff0, 0xffff_ffff, b""),
        (9, vec![0; 12]),
    ]);
    let info = load(0x1000, &blob).unwrap();
    let mut modules = info.module_tags();

    let first = modules.next().unwrap().unwrap();
    assert_eq!(first.start_address(), 0x10_0000);
    assert_eq!(first.end_address(), 0x10_4000);
    assert_eq!(first.name(), Some("initrd"));
    assert_eq!(first.tag().typ(), 3);

    let second = modules.next().unwrap().unwrap();
    assert_eq!(second.start_address(), 0x20_0000);
    assert_eq!(second.end_address(), 0x20_0001);
    assert_eq!(second.name(), Some("a b c\0"));
    assert_eq!(second.name_bytes(), b"a b c\0");

    let third = modules.next().unwrap().unwrap();
    assert_eq!(third.start_address(), 0xffff_fff0);
    assert_eq!(third.end_address(), 0xffff_ffff);
    assert_eq!(third.name(), Some(""));

    assert_eq!(modules.next(), Ok(None));
    assert_eq!(modules.next(), Ok(None));
}

#[test]
fn modules_side_by_side() {
    let blob = names_blob(&[
        names_module(1, 2, b"one"),
        names_module(3, 4, b"two"),
        names_module(5, 6, b"three"),
    ]);
    let info = load(0x1000, &blob).unwrap();
    let mut modules = info.module_tags();
    let mut seen = Vec::new();
    while let Some(module) = modules.next().unwrap() {
        seen.push((module.start_address(), module.end_address(), module.name().unwrap().to_string()));
    }
    assert_eq!(
        seen,
        vec![
            (1, 2, "one".to_string()),
            (3, 4, "two".to_string()),
            (5, 6, "three".to_string()),
        ]
    );
}

#[test]
fn module_name_follows_the_declared_size() {
    let mut blob = names_blob(&[names_module(1, 2, b"kernel.mod")]);
    blob[12..16].copy_from_slice(&(16u32 + 6).to_le_bytes());
    let info = load(0x1000, &blob).unwrap();
    let module = info.module_tags().next().unwrap().unwrap();
    assert_eq!(module.name(), Some("kernel"));
}

#[test]
fn module_name_that_is_not_utf8_is_none() {
    let blob = names_blob(&[names_module(1, 2, &[0x80, 0x80])]);
    let info = load(0x1000, &blob).unwrap();
    let module = info.module_tags().next().unwrap().unwrap();
    assert_eq!(module.name(), None);
    assert_eq!(module.name_bytes(), &[0x80, 0x80]);
}

#[test]
fn module_without_room_for_its_addresses_is_an_error() {
    let blob = names_blob(&[
        names_module(1, 2, b"good"),
        (3, vec![0; 7]),
        names_module(3, 4, b"behind"),
    ]);
    let info = load(0x1000, &blob).unwrap();
    let mut modules = info.module_tags();
    assert_eq!(modules.next().unwrap().unwrap().name(), Some("good"));
    assert_eq!(modules.next(), Err(TagError::TooShort));
    // The cursor has moved behind the short tag.
    assert_eq!(modules.next().unwrap().unwrap().name(), Some("behind"));
    assert_eq!(modules.next(), Ok(None));

    let tag = info.tags().find(3).unwrap().unwrap();
    assert!(ModuleTag::new(tag).is_ok());
    let blob = names_blob(&[(3, vec![])]);
    let info = load(0x1000, &blob).unwrap();
    let tag = info.get_tag(3).unwrap().unwrap();
    assert_eq!(ModuleTag::new(tag), Err(TagError::TooShort));
}

#[test]
fn modules_behind_a_broken_tag_are_an_error() {
    let mut blob = names_blob(&[names_module(1, 2, b"good"), (5, vec![]), names_module(3, 4, b"lost")]);
    // The tag of type 5 starts at 8 + 24.
    blob[36..40].copy_from_slice(&0x4000u32.to_le_bytes());
    let info = load(0x1000, &blob).unwrap();
    let mut modules = info.module_tags();
    assert_eq!(modules.next().unwrap().unwrap().name(), Some("good"));
    assert_eq!(modules.next(), Err(TagError::SizeTooLarge));
    assert_eq!(modules.next(), Err(TagError::SizeTooLarge));
}
