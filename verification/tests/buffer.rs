use rustnet::buffer::{MsgBuffer, MsgBufferPool, MsgBufferStatic, DEFAULT_BUF_SIZE, MAX_BUF_SIZE};

#[test]
fn msgbuffer() {
    let mut msg = MsgBuffer::test_new();

    let b = msg.make(1);
    assert_eq!(1, b.len());
    let b = msg.make(8);
    b[7] = 0;
    assert_eq!(8, b.len());
    assert_eq!(9, msg.len());
    msg.shift(1);
    assert_eq!(1, msg.pos());
    assert_eq!(8, msg.len());
    msg.shift(7);
    msg.write(&[1, 2, 3]);
    assert_eq!(8, msg.pos());
    assert_eq!(&[0, 1, 2, 3], msg.bytes());
    msg.shift(5);
    assert_eq!(0, msg.pos());
    assert_eq!(msg.bytes(), &[]);
    msg.write(&[
        1, 2, 3, 4, 5, 6, 7, 8, 9, 10, 11, 12, 13, 14, 15, 16, 17, 18, 19, 20, 21, 22, 23, 24,
        25, 26, 27, 28, 29, 30, 31,
    ]);
    msg.shift(30);
    assert_eq!(0, msg.pos());
    assert_eq!(&[31], msg.bytes());
    msg.write(&[
        1, 2, 3, 4, 5, 6, 7, 8, 9, 10, 11, 12, 13, 14, 15, 16, 17, 18, 19, 20, 21, 22, 23, 24,
        25, 26, 27, 28, 29, 30, 31,
    ]);
    msg.truncate(2);
    println!("{:?}", msg.bytes());
    msg.write_byte(1);
    msg.write_byte(2);
    assert_eq!(&[31, 1, 1, 2], msg.as_mut_slice());
    msg.truncate(4);
    assert_eq!(&[31, 1, 1, 2], msg.as_slice());
    msg.write_string("123");
    assert_eq!(&[31, 1, 1, 2, 49, 50, 51], msg.as_slice());
}

#[test]
fn new_buffers_are_empty() {
    let a = MsgBuffer::new();
    assert_eq!(0, a.len());
    assert_eq!(0, a.pos());
    let b = MsgBuffer::new_with_param(4, 100);
    assert_eq!(0, b.len());
    let c = MsgBuffer::default();
    assert_eq!(0, c.len());
    let d = MsgBufferStatic::new();
    assert_eq!(0, d.len());
    assert_eq!(MAX_BUF_SIZE, 65536);
    assert_eq!(DEFAULT_BUF_SIZE, 8192);
}

#[test]
fn write_then_shift_gives_written_bytes() {
    let mut m = MsgBuffer::test_new();
    m.write(&[9, 8, 7]);
    let before = m.len();
    m.write(&[1, 2, 3, 4, 5]);
    m.shift(before);
    assert_eq!(&[1, 2, 3, 4, 5], m.bytes());
}

#[test]
fn write_then_truncate_restores() {
    let mut m = MsgBuffer::new();
    m.write(&[5, 6]);
    m.write(&[7, 8, 9]);
    m.truncate(2);
    assert_eq!(&[5, 6], m.bytes());
}

#[test]
fn shift_past_end_empties() {
    let mut m = MsgBuffer::test_new();
    m.write(&[1, 2, 3]);
    m.shift(10);
    assert_eq!(0, m.len());
    assert_eq!(0, m.pos());
    m.write(&[4]);
    m.shift(0);
    assert_eq!(&[4], m.bytes());
}

#[test]
fn growth_keeps_bytes() {
    let mut m = MsgBuffer::new_with_param(2, 2);
    for i in 0..50u8 {
        m.write_byte(i);
    }
    let expected: Vec<u8> = (0..50u8).collect();
    assert_eq!(expected.as_slice(), m.as_slice());
    m.shift(45);
    assert_eq!(&[45, 46, 47, 48, 49], m.bytes());
}

#[test]
fn compaction_moves_live_bytes_to_front() {
    let mut m = MsgBuffer::test_new();
    m.write(&[0; 20]);
    m.write(&[1, 2]);
    m.shift(20);
    assert_eq!(0, m.pos());
    assert_eq!(&[1, 2], m.bytes());
}

#[test]
fn make_hands_out_new_tail() {
    let mut m = MsgBuffer::new();
    m.write(&[1]);
    let r = m.make(3);
    r[0] = 2;
    r[1] = 3;
    r[2] = 4;
    assert_eq!(&[1, 2, 3, 4], m.bytes());
}

#[test]
fn spare_leaves_live_bytes() {
    let mut m = MsgBuffer::test_new();
    m.write(&[1, 2]);
    let r = m.spare(20);
    assert!(r.len() >= 20);
    r[0] = 9;
    assert_eq!(&[1, 2], m.bytes());
    m.truncate(3);
    assert_eq!(&[1, 2, 9], m.bytes());
}

#[test]
fn as_mut_slice_writes_through() {
    let mut m = MsgBuffer::new();
    m.write(&[1, 2, 3]);
    m.as_mut_slice()[1] = 7;
    assert_eq!(&[1, 7, 3], m.as_slice());
}

#[test]
fn next_and_nth_consume() {
    let mut m = MsgBuffer::new();
    m.write(&[10, 20, 30, 40]);
    assert_eq!(Some(10), m.next());
    assert_eq!(Some(30), m.nth(1));
    assert_eq!(&[40], m.bytes());
    assert_eq!(Some(40), m.next());
    assert_eq!(None, m.next());
    m.write(&[1]);
    assert_eq!(None, m.nth(5));
    assert_eq!(0, m.len());
}

#[test]
fn string_decodes_utf8() {
    let mut m = MsgBuffer::new();
    m.write_string("héllo");
    assert_eq!("héllo", m.string());
    m.shift(1);
    assert_eq!("éllo", m.string());
}

#[test]
fn from_vec_holds_its_bytes() {
    let mut m = MsgBuffer::from(vec![3u8, 4, 5]);
    assert_eq!(&[3, 4, 5], m.bytes());
    m.write(&[6]);
    assert_eq!(&[3, 4, 5, 6], m.bytes());
}

#[test]
fn static_buffer_delegates() {
    let mut s = MsgBufferStatic::new();
    let r = s.spare(4);
    r[0] = 1;
    r[1] = 2;
    s.truncate(2);
    assert_eq!(&[1, 2], s.as_slice());
    s.shift(1);
    assert_eq!(&[2], s.as_slice());
    assert_eq!(Some(2), s.next());
    s.reset();
    assert_eq!(0, s.len());
    assert_eq!(None, s.nth(3));
}

#[test]
fn buffer_pool_reuses() {
    let mut pool = MsgBufferPool::new().with_max_buf_num(1).with_default_buf_size(4).with_max_buf_size(8);
    let mut a = pool.get();
    assert_eq!(0, a.len());
    a.write(&[1, 2]);
    pool.put(a);
    let b = MsgBuffer::new();
    pool.put(b);
    let c = pool.get();
    assert_eq!(&[1, 2], c.bytes());
    let d = pool.get();
    assert_eq!(0, d.len());
}

#[test]
fn static_buffer_text() {
    let mut s = MsgBufferStatic::new();
    assert_eq!(" 0 - 0", s.to_string());
    let r = s.spare(20);
    r[0] = 1;
    s.truncate(15);
    s.shift(12);
    assert_eq!(" 12 - 15", s.to_string());
}

#[test]
fn nth_at_length_gives_none() {
    let mut m = MsgBuffer::from(vec![7u8, 8]);
    assert_eq!(None, m.nth(2));
    assert_eq!(0, m.len());
    let mut m = MsgBuffer::from(vec![7u8, 8]);
    assert_eq!(Some(8), m.nth(1));
    assert_eq!(0, m.len());
    let mut m = MsgBuffer::from(vec![7u8, 8]);
    assert_eq!(Some(7), m.nth(0));
    assert_eq!(&[8], m.bytes());
}

#[test]
fn pool_get_fits() {
    let pool = MsgBufferPool::new();
    assert!(pool.get_fits());
    let mut big = MsgBufferPool::new().with_default_buf_size(usize::MAX);
    assert!(!big.get_fits());
    big.put(MsgBuffer::new());
    assert!(big.get_fits());
}
