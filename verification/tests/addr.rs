use r9::addr::{
    round_down2_u64, round_up2_u64, PhysAddr, PhysRange, RegBlock, VirtRange, PAGE_SIZE_2M,
    PAGE_SIZE_4K,
};

#[test]
fn addr_physaddr_step() {
    let range = PhysRange::new(PhysAddr::new(4096), PhysAddr::new(4096 * 3));
    let pas: Vec<PhysAddr> = range.step_by_rounded(PAGE_SIZE_4K);
    assert_eq!(pas, vec![PhysAddr::new(4096), PhysAddr::new(4096 * 2)]);
}

#[test]
fn addr_physaddr_step_rounds_up_and_down() {
    let range = PhysRange::new(PhysAddr::new(9000), PhysAddr::new(5000 * 3));
    let pas: Vec<PhysAddr> = range.step_by_rounded(PAGE_SIZE_4K);
    assert_eq!(pas, vec![PhysAddr::new(4096 * 2), PhysAddr::new(4096 * 3)]);
}

#[test]
fn addr_physaddr_step_2m() {
    let range =
        PhysRange::new(PhysAddr::new(0x3f000000), PhysAddr::new(0x3f000000 + 4 * 1024 * 1024));
    let pas: Vec<PhysAddr> = range.step_by_rounded(PAGE_SIZE_2M);
    assert_eq!(pas, vec![PhysAddr::new(0x3f000000), PhysAddr::new(0x3f000000 + 2 * 1024 * 1024)]);
}

#[test]
fn round_up2() {
    assert_eq!(round_up2_u64(0, 4096), 0);
    assert_eq!(round_up2_u64(6, 4096), 4096);
    assert_eq!(round_up2_u64(4096, 4096), 4096);
    assert_eq!(round_up2_u64(4097, 4096), 8192);
}

#[test]
fn round_down2() {
    assert_eq!(round_down2_u64(0, 4096), 0);
    assert_eq!(round_down2_u64(6, 4096), 0);
    assert_eq!(round_down2_u64(4096, 4096), 4096);
    assert_eq!(round_down2_u64(4097, 4096), 4096);
}

#[test]
fn rounding_brackets_and_is_idempotent() {
    for n in [0u64, 1, 4095, 4096, 4097, 123_456_789] {
        let d = round_down2_u64(n, 4096);
        let u = round_up2_u64(n, 4096);
        assert!(d <= n && n < d + 4096 && d % 4096 == 0);
        assert!(n <= u && u < n + 4096 && u % 4096 == 0);
        assert_eq!(round_down2_u64(d, 4096), d);
        assert_eq!(round_up2_u64(u, 4096), u);
    }
}

#[test]
fn virt_range_queries() {
    let r = VirtRange::with_len(0x1000, 0x100);
    assert_eq!(r, VirtRange::new(0x1000, 0x1100));
    assert_eq!(r.size(), 0x100);
    assert!(r.contains(0x1000));
    assert!(!r.contains(0x1100));
    assert_eq!(r.offset_addr(0x10), Some(0x1010));
    assert_eq!(r.offset_addr(0x100), None);
    let pr = PhysRange::with_end(0x2000, 0x3000);
    assert_eq!(VirtRange::from_physrange(&pr, 0x10), VirtRange::new(0x2010, 0x3010));
    assert_eq!(
        VirtRange::from_reg(&RegBlock { addr: 0x40, len: None }),
        VirtRange::new(0x40, 0x40)
    );
}

#[test]
fn phys_range_queries() {
    let r = PhysRange::with_len(0x1000, 0x2000);
    assert_eq!(r.end.addr(), 0x3000);
    assert_eq!(r.size(), 0x2000);
    assert_eq!(r.offset_addr(0x10), Some(PhysAddr::new(0x1010)));
    assert_eq!(r.offset_addr(0x2000), None);
    assert_eq!(PhysRange::with_pa_len(PhysAddr::new(8), 8).end, PhysAddr::new(16));
    let hull = r.add(&PhysRange::with_end(0x500, 0x1800));
    assert_eq!(hull, PhysRange::with_end(0x500, 0x3000));
    let rounded = PhysRange::with_end(0x1001, 0x2001).round(4096);
    assert_eq!(rounded, PhysRange::with_end(0x1000, 0x3000));
    assert!(PhysAddr::new(0x2000).is_multiple_of(0x1000));
    assert!(!PhysAddr::new(0x2001).is_multiple_of(0x1000));
    assert_eq!(PhysAddr::new(5).round_up2(4).addr(), 8);
    assert_eq!(PhysAddr::new(5).round_down2(4).addr(), 4);
}

#[test]
fn phys_range_from_regblock() {
    assert_eq!(PhysRange::from_regblock(&RegBlock { addr: 0x100, len: None }), None);
    assert_eq!(
        PhysRange::from_regblock(&RegBlock { addr: 0x100, len: Some(0x20) }),
        Some(PhysRange::with_end(0x100, 0x120))
    );
    assert_eq!(
        PhysRange::from_reg(&RegBlock { addr: 0x100, len: None }),
        PhysRange::with_end(0x100, 0x100)
    );
}

#[test]
fn physaddr_steps() {
    let a = PhysAddr::new(10);
    let b = PhysAddr::new(30);
    assert_eq!(PhysAddr::steps_between(&a, &b), (20, Some(20)));
    assert_eq!(PhysAddr::steps_between(&b, &a), (0, None));
    assert_eq!(PhysAddr::forward_checked(a, 5), Some(PhysAddr::new(15)));
    assert_eq!(PhysAddr::forward_checked(PhysAddr::new(u64::MAX), 1), None);
    assert_eq!(PhysAddr::backward_checked(a, 11), None);
    assert_eq!(PhysAddr::backward_checked(a, 10), Some(PhysAddr::new(0)));
    assert_eq!(PhysAddr::forward_overflowing(PhysAddr::new(u64::MAX), 2), (PhysAddr::new(1), true));
    assert_eq!(PhysAddr::backward_overflowing(PhysAddr::new(1), 2), (PhysAddr::new(u64::MAX), true));
    assert_eq!(PhysAddr::backward_overflowing(a, 2), (PhysAddr::new(8), false));
}
