use redbpf::flags::{PerfMapFlags, CURRENT_CPU};

#[test]
fn default_flags_select_current_cpu() {
    let f = PerfMapFlags::new();
    assert_eq!(f.index, None);
    assert_eq!(f.xdp_size, 0);
    assert_eq!(u64::from(f), CURRENT_CPU as u64);
    assert_eq!(PerfMapFlags::default(), f);
}

#[test]
fn flags_pack_size_and_index() {
    let mut f = PerfMapFlags::with_xdp_size(64);
    assert_eq!(u64::from(f), (64u64 << 32) | 0xffff_ffff);
    f.index(3);
    assert_eq!(u64::from(f), (64u64 << 32) | 3);
    let mut g = PerfMapFlags::new();
    g.index(1).xdp_size(2);
    assert_eq!(u64::from(g), (2u64 << 32) | 1);
}
