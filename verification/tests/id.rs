use perfect_hasher::{Id, Width};

#[test]
fn identifiers_are_equal_iff_their_raw_integers_are() {
    assert_eq!(Id::new(7u8), Id::new(7u8));
    assert_ne!(Id::new(7u8), Id::new(8u8));
    assert!(Id::new(7u32) < Id::new(8u32));
    let id = Id::new(5usize);
    let copy = id;
    assert_eq!(id, copy);
}

#[test]
fn identifiers_convert_to_their_raw_integers() {
    assert_eq!(7u8, Id::new(7u8).raw());
    let a: u8 = Id::new(7u8).into();
    let b: u16 = Id::new(700u16).into();
    let c: u32 = Id::new(70_000u32).into();
    let d: u64 = Id::new(u64::MAX).into();
    let e: usize = Id::new(usize::MAX).into();
    assert_eq!((7, 700, 70_000, u64::MAX, usize::MAX), (a, b, c, d, e));
    let a: u8 = (&Id::new(7u8)).into();
    let b: u16 = (&Id::new(700u16)).into();
    let c: u32 = (&Id::new(70_000u32)).into();
    let d: u64 = (&Id::new(u64::MAX)).into();
    let e: usize = (&Id::new(usize::MAX)).into();
    assert_eq!((7, 700, 70_000, u64::MAX, usize::MAX), (a, b, c, d, e));
}

#[test]
fn digests_are_truncated_to_the_width() {
    assert_eq!(0x34u8, u8::truncated(0x1234));
    assert_eq!(0x1234u16, u16::truncated(0xabcd_1234));
    assert_eq!(0x89ab_cdefu32, u32::truncated(0x0123_4567_89ab_cdef));
    assert_eq!(0x0123_4567_89ab_cdefu64, u64::truncated(0x0123_4567_89ab_cdef));
    assert_eq!(0x0123_4567_89ab_cdefu64 as usize, usize::truncated(0x0123_4567_89ab_cdef));
    assert_eq!(0u8, u8::truncated(0x100));
    assert_eq!(255u8, u8::truncated(u64::MAX));
}

#[test]
fn steps_wrap_at_both_ends() {
    assert_eq!(1u8, 0u8.step_up());
    assert_eq!(0u8, u8::MAX.step_up());
    assert_eq!(u8::MAX, 0u8.step_down());
    assert_eq!(254u8, u8::MAX.step_down());
    assert_eq!(0u16, u16::MAX.step_up());
    assert_eq!(u16::MAX, 0u16.step_down());
    assert_eq!(0u32, u32::MAX.step_up());
    assert_eq!(u32::MAX, 0u32.step_down());
    assert_eq!(0u64, u64::MAX.step_up());
    assert_eq!(u64::MAX, 0u64.step_down());
    assert_eq!(0usize, usize::MAX.step_up());
    assert_eq!(usize::MAX, 0usize.step_down());
    assert_eq!(8usize, 7usize.step_up());
    assert_eq!(6usize, 7usize.step_down());
}

#[test]
fn keys_are_the_slots_themselves() {
    assert_eq!(200u64, 200u8.key());
    assert_eq!(60_000u64, 60_000u16.key());
    assert_eq!(u64::from(u32::MAX), u32::MAX.key());
    assert_eq!(u64::MAX, u64::MAX.key());
    assert_eq!(usize::MAX as u64, usize::MAX.key());
}
