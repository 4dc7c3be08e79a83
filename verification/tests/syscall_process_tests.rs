use os_sync::syscall::process::{
    mmap_args_valid, mmap_permission, page_aligned, sys_mmap, sys_munmap, sys_sbrk, vpn_range, TimeVal, MICROS_PER_SEC, PAGE_SIZE,
};

#[test]
fn time_val_from_us() {
    let t = TimeVal::from_us(3_000_005);
    assert_eq!(t.sec, 3);
    assert_eq!(t.usec, 5);
    let z = TimeVal::from_us(999_999);
    assert_eq!((z.sec, z.usec), (0, 999_999));
    let u = TimeVal::from_us(123_456_789);
    assert_eq!(u.sec * MICROS_PER_SEC + u.usec, 123_456_789);
}

#[test]
fn vpn_range_values() {
    assert_eq!(PAGE_SIZE, 4096);
    assert_eq!(vpn_range(0, 0), (0, 0));
    assert_eq!(vpn_range(0x1000, 0x1000), (1, 2));
    assert_eq!(vpn_range(0x1000, 0x1001), (1, 3));
    assert_eq!(vpn_range(0x1000, 1), (1, 2));
    assert_eq!(vpn_range(0x1000, 0), (1, 1));
    assert_eq!(vpn_range(usize::MAX, 0), (usize::MAX / 4096, usize::MAX / 4096 + 1));
}

#[test]
fn mmap_refuses_misaligned_start() {
    assert_eq!(sys_mmap(0x1001, 0x1000, 3, &vec![]), -1);
}

#[test]
fn mmap_refuses_bad_port() {
    assert_eq!(sys_mmap(0x1000, 0x1000, 0, &vec![None]), -1);
    assert_eq!(sys_mmap(0x1000, 0x1000, 8, &vec![None]), -1);
    assert_eq!(sys_mmap(0x1000, 0x1000, 0xf, &vec![None]), -1);
}

#[test]
fn mmap_refuses_mapped_page() {
    assert_eq!(sys_mmap(0x1000, 0x2000, 3, &vec![None, Some(true)]), -1);
}

#[test]
fn mmap_accepts_free_range() {
    assert_eq!(sys_mmap(0x1000, 0x2000, 3, &vec![None, Some(false)]), 0);
    assert_eq!(sys_mmap(0x1000, 0, 7, &vec![]), 0);
}

#[test]
fn mmap_permission_bits() {
    assert_eq!(mmap_permission(1), 0b10010);
    assert_eq!(mmap_permission(3), 22);
    assert_eq!(mmap_permission(7), 0b11110);
}

#[test]
fn munmap_cases() {
    assert_eq!(sys_munmap(0x1001, 0x1000, &vec![]), -1);
    assert_eq!(sys_munmap(0x1000, 0x2000, &vec![Some(true), Some(true)]), 0);
    assert_eq!(sys_munmap(0x1000, 0x2000, &vec![Some(true), None]), -1);
    assert_eq!(sys_munmap(0x1000, 0x2000, &vec![Some(false), Some(true)]), -1);
}

#[test]
fn sbrk_result() {
    assert_eq!(sys_sbrk(Some(0x1000)), 0x1000);
    assert_eq!(sys_sbrk(None), -1);
}

#[test]
fn argument_checks() {
    assert!(page_aligned(0));
    assert!(page_aligned(0x3000));
    assert!(!page_aligned(0x3001));
    assert!(mmap_args_valid(0x2000, 1));
    assert!(!mmap_args_valid(0x2000, 0));
    assert!(!mmap_args_valid(0x2000, 9));
    assert!(!mmap_args_valid(0x2010, 3));
}
