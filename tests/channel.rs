use redbpf::channel::{Channel, ChannelError, Teardown, ENODEV};
use redbpf::ring::RingError;

#[test]
fn offline_cpu_is_refused_before_anything_is_acquired() {
    let online = [0, 1, 2, 3];
    assert_eq!(Channel::new(4, &online, 4096, 8), Err(ChannelError::Os(ENODEV)));
    assert_eq!(Channel::new(-1, &online, 4096, 8), Err(ChannelError::Os(19)));
}

#[test]
fn bad_geometry_is_refused() {
    assert_eq!(
        Channel::new(0, &[0], 4096, 6),
        Err(ChannelError::Geometry(RingError::BadGeometry))
    );
}

#[test]
fn setup_then_teardown_in_reverse_order() {
    let mut c = Channel::new(2, &[0, 2], 4096, 8).unwrap();
    assert_eq!(c.mmap_size, 4096 * 9);
    assert_eq!(c.ring_size, 4096 * 8);
    assert!(!c.is_ready());
    c.opened(7);
    c.mapped();
    c.enabled();
    assert!(!c.is_ready());
    c.registered();
    assert!(c.is_ready());
    let t = c.teardown();
    assert_eq!(t, Teardown { disable: Some(7), unmap: true, close: Some(7) });
    assert!(c.closed);
    assert_eq!(c.fd, None);
}

#[test]
fn teardown_twice_does_nothing_the_second_time() {
    let mut c = Channel::new(0, &[0], 4096, 1).unwrap();
    c.opened(3);
    c.mapped();
    c.enabled();
    c.registered();
    let first = c.teardown();
    let after = c;
    let second = c.teardown();
    assert_eq!(first, Teardown { disable: Some(3), unmap: true, close: Some(3) });
    assert_eq!(second, Teardown { disable: None, unmap: false, close: None });
    assert_eq!(c, after);
}

#[test]
fn teardown_after_partial_setup_releases_only_what_is_held() {
    let mut c = Channel::new(0, &[0], 4096, 1).unwrap();
    c.opened(5);
    assert_eq!(c.teardown(), Teardown { disable: None, unmap: false, close: Some(5) });
    let mut d = Channel::new(0, &[0], 4096, 1).unwrap();
    d.opened(6);
    d.mapped();
    assert_eq!(d.teardown(), Teardown { disable: None, unmap: true, close: Some(6) });
    let mut e = Channel::new(0, &[0], 4096, 1).unwrap();
    assert_eq!(e.teardown(), Teardown { disable: None, unmap: false, close: None });
}
