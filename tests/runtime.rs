use copypatch::runtime::{patch_holes, private_stack_len, PatchError};

#[test]
fn patch_one_hole() {
    let template: Vec<u8> = vec![0xAA; 16];
    let holes: Vec<usize> = vec![4];
    let bytes: Vec<u8> = vec![1, 2, 3, 4, 5, 6, 7, 8];
    let out = patch_holes(&template, &holes, &bytes).unwrap();
    assert_eq!(out, vec![0xAA, 0xAA, 0xAA, 0xAA, 1, 2, 3, 4, 5, 6, 7, 8, 0xAA, 0xAA, 0xAA, 0xAA]);
}

#[test]
fn patch_two_holes_in_order() {
    let template: Vec<u8> = vec![0; 12];
    let holes: Vec<usize> = vec![0, 4];
    let bytes: Vec<u8> = (1..=16).collect();
    let out = patch_holes(&template, &holes, &bytes).unwrap();
    assert_eq!(out, vec![1, 2, 3, 4, 9, 10, 11, 12, 13, 14, 15, 16]);
}

#[test]
fn patch_address_bytes() {
    let template: Vec<u8> = vec![0x48, 0xB8, 0, 0, 0, 0, 0, 0, 0, 0, 0xFF, 0xE0];
    let addr: u64 = 0x0000_7F12_3456_7000;
    let out = patch_holes(&template, &vec![2], &addr.to_ne_bytes().to_vec()).unwrap();
    assert_eq!(&out[2..10], &addr.to_ne_bytes());
    assert_eq!(out[0], 0x48);
    assert_eq!(out[11], 0xE0);
}

#[test]
fn patch_without_holes_copies() {
    let template: Vec<u8> = vec![9, 8, 7];
    let out = patch_holes(&template, &vec![], &vec![]).unwrap();
    assert_eq!(out, template);
}

#[test]
fn patch_wrong_value_count() {
    let r = patch_holes(&vec![0; 16], &vec![0], &vec![1, 2, 3]);
    assert_eq!(r, Err(PatchError::ValueCount(3)));
}

#[test]
fn patch_hole_past_end() {
    let r = patch_holes(&vec![0; 16], &vec![0, 9], &vec![0; 16]);
    assert_eq!(r, Err(PatchError::HoleOutOfRange(1)));
}

#[test]
fn stack_len_covers_frame_args_and_return_slot() {
    assert_eq!(private_stack_len(0, 0), Some(8));
    assert_eq!(private_stack_len(24, 1), Some(24));
    assert_eq!(private_stack_len(8, 3), Some(24));
    assert_eq!(private_stack_len(usize::MAX, 0), Some((usize::MAX / 8) * 8));
    assert_eq!(private_stack_len(0, usize::MAX), None);
}
