use rustnet::buffer::{DEFAULT_BUF_SIZE, MAX_BUF_SIZE};
use rustnet::Server;
use std::time::Duration;

#[derive(Clone, Copy, PartialEq, Debug)]
struct Handler(u8);

#[test]
fn server_defaults() {
    let s = Server::new_with_nossl("0.0.0.0:30020", Handler(1));
    assert_eq!("0.0.0.0:30020", s.addr());
    assert_eq!(u32::MAX as usize, s.max_package_size());
    assert_eq!(Handler(1), s.eventhandler());
    assert_eq!(Duration::from_secs(60), s.readtimeout());
    assert_eq!(Duration::from_secs(60), s.writetimeout());
}

#[test]
fn server_builders_and_prepare() {
    let mut s = Server::new("a:1", Handler(2))
        .with_writetimeout(Duration::from_secs(10))
        .with_readtimeout(Duration::from_secs(3))
        .with_max_package_size(100)
        .with_max_buf_num(2)
        .with_max_buf_size(16)
        .with_default_buf_size(64);
    assert_eq!(Duration::from_secs(10), s.writetimeout());
    assert_eq!(Duration::from_secs(3), s.readtimeout());
    assert_eq!(100, s.max_package_size());
    let mut pool = s.prepare();
    let b = pool.get();
    let _ = (MAX_BUF_SIZE, DEFAULT_BUF_SIZE);
    assert_eq!(0, b.len());
    let mut c = b;
    c.write(&[0; 16]);
    assert_eq!(16, c.len());
}
