use kernel_rs::strbuf;
use kernel_rs::usermem::{
    user_range_ok, AddressSpace, UserTables, USER_PERM_READ, USER_PERM_WRITE, USER_VA_LIMIT,
};

// Page tables at 0x1000 (PML4), 0x2000 (PDPT), 0x3000 (PD), 0x4000 (PT) map:
//   0x400000 -> frame 0x0000, user read/write
//   0x401000 -> frame 0x1000, user read-only
//   0x402000 -> frame 0x2000, kernel only
//   0x403000 -> frame 0x3000, user read/write
fn space() -> AddressSpace {
    let mut tables = vec![0u64; 0x5000 / 8];
    tables[0x1000 / 8] = 0x2000 | 7;
    tables[0x2000 / 8] = 0x3000 | 7;
    tables[0x3000 / 8 + 2] = 0x4000 | 7;
    tables[0x4000 / 8] = 0x0000 | 7;
    tables[0x4000 / 8 + 1] = 0x1000 | 5;
    tables[0x4000 / 8 + 2] = 0x2000 | 3;
    tables[0x4000 / 8 + 3] = 0x3000 | 7;
    AddressSpace { root: 0x1000, tables, frames: vec![0u8; 0x5000] }
}

#[test]
fn range_ok_empty_and_limits() {
    assert!(user_range_ok(0, 0));
    assert!(user_range_ok(u64::MAX, 0));
    assert!(user_range_ok(USER_VA_LIMIT - 1, 1));
    assert!(!user_range_ok(USER_VA_LIMIT, 1));
    assert!(user_range_ok(0x7FFF_FFFF_F000, 0x1000));
    assert!(!user_range_ok(0x7FFF_FFFF_F001, 0x1000));
    assert!(!user_range_ok(u64::MAX, 2));
}

#[test]
fn page_perms_follow_entry_bits() {
    let s = space();
    assert!(s.check_page_user_perms(0x400000, USER_PERM_WRITE));
    assert!(s.check_page_user_perms(0x401000, USER_PERM_READ));
    assert!(!s.check_page_user_perms(0x401000, USER_PERM_WRITE));
    assert!(!s.check_page_user_perms(0x402000, USER_PERM_READ));
    assert!(!s.check_page_user_perms(0x404000, USER_PERM_READ));
    assert!(!s.check_page_user_perms(0x8000_0000, USER_PERM_READ));
}

#[test]
fn pages_ok_checks_every_covering_page() {
    let s = space();
    assert!(s.user_pages_ok(0x400ff0, 0x20, USER_PERM_READ));
    assert!(!s.user_pages_ok(0x400ff0, 0x20, USER_PERM_WRITE));
    assert!(s.user_pages_ok(0x400000, 0x1000, USER_PERM_WRITE));
    assert!(!s.user_pages_ok(0x401fff, 2, USER_PERM_READ));
    assert!(!s.user_pages_ok(0x400000, 0x4000, USER_PERM_READ));
    assert!(s.user_pages_ok(0x402000, 0, USER_PERM_READ));
    assert!(!s.user_pages_ok(0xDEAD0000, 16, USER_PERM_READ));
}

#[test]
fn huge_page_covers_whole_superpage() {
    let mut s = space();
    // PD[3] maps 0x600000..0x7FFFFF as one 2 MiB user page at phys 0.
    s.tables[0x3000 / 8 + 3] = 0x0 | 0x80 | 7;
    assert!(s.user_pages_ok(0x600000, 0x200000, USER_PERM_WRITE));
    assert_eq!(s.translate(0x600123, false), Some(0x123));
    s.tables[0x3000 / 8 + 3] = 0x0 | 0x80 | 5;
    assert!(!s.user_pages_ok(0x7FF000, 1, USER_PERM_WRITE));
}

#[test]
fn copyin_reads_through_mapping() {
    let mut s = space();
    s.frames[0x3010] = 0x11;
    s.frames[0x3011] = 0x22;
    let mut dst = [9u8; 4];
    assert_eq!(s.copyin_user(&mut dst, 0x403010, 2), Ok(()));
    assert_eq!(dst, [0x11, 0x22, 9, 9]);
    assert_eq!(s.copyin_user(&mut dst, 0x403010, 5), Err(()));
    assert_eq!(s.copyin_user(&mut dst, 0x402000, 1), Err(()));
    assert_eq!(dst, [0x11, 0x22, 9, 9]);
}

#[test]
fn copyout_needs_writable_pages() {
    let mut s = space();
    assert_eq!(s.copyout_user(0x400020, &[1, 2, 3], 3), Ok(()));
    assert_eq!(&s.frames[0x20..0x23], &[1, 2, 3]);
    assert_eq!(s.copyout_user(0x401000, &[4], 1), Err(()));
    assert_eq!(s.frames[0x1000], 0);
    assert_eq!(s.copyout_user(0x400000, &[4], 2), Err(()));
}

#[test]
fn copyinstr_stops_at_nul() {
    let mut s = space();
    s.frames[0x3000..0x3004].copy_from_slice(b"abc\0");
    let v = s.copyinstr_user(0x403000, 16).unwrap();
    assert_eq!(v.as_slice(), b"abc\0");
    s.frames[0x3003] = b'd';
    assert!(s.copyinstr_user(0x403000, 4).is_err());
    assert!(s.copyinstr_user(0x402000, 4).is_err());
}

#[test]
fn strbuf_is_bounded() {
    let mut v = strbuf::Vec::<u8>::new();
    assert_eq!(v.as_slice(), b"");
    for i in 0..256 {
        assert_eq!(v.push(i as u8), Ok(()));
    }
    assert_eq!(v.push(0), Err(()));
    assert_eq!(v.as_slice().len(), 256);
    assert_eq!(v.as_slice()[255], 255);
}

#[test]
fn build_user_space_maps_code_and_stacks() {
    let mut tables = vec![0u64; 0x7000 / 8];
    tables[0x1000 / 8 + 256] = 0xABC007;
    tables[0x1000 / 8] = 0x5555_0007;
    let mut s = AddressSpace { root: 0x1000, tables, frames: vec![] };
    let t = UserTables { pml4: 0x2000, pdpt: 0x3000, pd: 0x4000, pt_code: 0x5000, pt_stack: 0x6000 };
    s.build_user_space(&t, &[0x10000, 0x11000], &[0x20000, 0x21000]);
    assert_eq!(s.root, 0x2000);
    assert_eq!(s.translate(0x400000, false), Some(0x10000));
    assert_eq!(s.translate(0x401010, false), Some(0x11010));
    assert_eq!(s.translate(0x400000, true), None);
    assert_eq!(s.translate(0x402000, false), None);
    assert_eq!(s.translate(0x7FF008, true), Some(0x20008));
    assert_eq!(s.translate(0x7FE000, true), Some(0x21000));
    assert_eq!(s.translate(0x7FD000, true), None);
    assert_eq!(s.tables[0x2000 / 8 + 256], 0xABC007);
    assert_eq!(s.tables[0x2000 / 8], 0x3007);
}
