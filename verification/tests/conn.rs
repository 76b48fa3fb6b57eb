use rustnet::buffer::MsgBufferStatic;
use rustnet::conn::{
    after_read, react_again, react_step, shift_step, write_reply, ReactOperation, ReactOperationChannel,
    ReactOperationResult, ReactStep, WriteData, READ_CHUNK,
};
use rustnet::err::NetError;

#[test]
fn read_of_nothing_means_disconnected() {
    let mut b = MsgBufferStatic::new();
    let r = after_read(&mut b, 0, 100);
    assert!(matches!(r, Err(NetError::TcpDisconnected)));
    assert_eq!(0, b.len());
}

#[test]
fn read_is_appended() {
    let mut b = MsgBufferStatic::new();
    let room = b.spare(READ_CHUNK);
    assert!(room.len() >= READ_CHUNK);
    room[0] = 7;
    room[1] = 8;
    let r = after_read(&mut b, 2, 100);
    assert!(r.is_ok());
    assert_eq!(&[7, 8], b.as_slice());
}

#[test]
fn too_large_package_is_refused() {
    let mut b = MsgBufferStatic::new();
    let room = b.spare(READ_CHUNK);
    room[0] = 1;
    let r = after_read(&mut b, 5, 4);
    assert!(matches!(r, Err(NetError::LargePackage)));
    assert_eq!(0, b.len());
}

#[test]
fn shift_step_counts_what_is_missing() {
    let mut b = MsgBufferStatic::new();
    let room = b.spare(8);
    room[..3].copy_from_slice(&[1, 2, 3]);
    after_read(&mut b, 3, 100).unwrap();
    assert_eq!(0, shift_step(&mut b, 2));
    assert_eq!(&[3], b.as_slice());
    assert_eq!(4, shift_step(&mut b, 5));
    assert_eq!(0, b.len());
}

#[test]
fn react_steps() {
    match react_step(None) {
        ReactStep::Stop { reason: Some(s), shutdown: None } => assert_eq!("channel none exit", s),
        _ => panic!("wrong step"),
    }
    let m = ReactOperationChannel { op: ReactOperation::Exit(Some("bye".to_string())), res: None };
    match react_step(Some(m)) {
        ReactStep::Stop { reason: Some(s), shutdown: None } => assert_eq!("bye", s),
        _ => panic!("wrong step"),
    }
    let m = ReactOperationChannel { op: ReactOperation::ExitServer(None), res: None };
    match react_step(Some(m)) {
        ReactStep::Stop { reason: None, shutdown: Some(NetError::ShutdownServer(s)) } => {
            assert_eq!("", s)
        }
        _ => panic!("wrong step"),
    }
    let m = ReactOperationChannel { op: ReactOperation::ExitServer(Some("x".to_string())), res: None };
    match react_step(Some(m)) {
        ReactStep::Stop { reason: Some(r), shutdown: Some(NetError::ShutdownServer(s)) } => {
            assert_eq!("x", r);
            assert_eq!("x", s);
        }
        _ => panic!("wrong step"),
    }
    let m = ReactOperationChannel { op: ReactOperation::Afterfn(9), res: None };
    assert!(matches!(react_step(Some(m)), ReactStep::RunTask(9)));
    let (tx, _rx) = tokio::sync::mpsc::channel::<ReactOperationResult>(1);
    let m = ReactOperationChannel {
        op: ReactOperation::Write(WriteData { data: vec![1, 2], time_out: None }),
        res: Some(tx),
    };
    match react_step(Some(m)) {
        ReactStep::Write { data, deadline: None, reply: Some(_) } => assert_eq!(vec![1, 2], data),
        _ => panic!("wrong step"),
    }
}

#[test]
fn write_replies() {
    assert!(matches!(write_reply(true), ReactOperationResult::WriteTimeOut));
    assert!(matches!(write_reply(false), ReactOperationResult::WriteOk));
}

#[test]
fn react_again_decides() {
    assert!(react_again(3, None));
    assert!(react_again(3, Some(true)));
    assert!(!react_again(3, Some(false)));
    assert!(!react_again(0, None));
    assert!(!react_again(0, Some(true)));
}

#[test]
fn consume_across_reads() {
    let mut b = MsgBufferStatic::new();
    let room = b.spare(READ_CHUNK);
    room[..2].copy_from_slice(&[1, 2]);
    after_read(&mut b, 2, 100).unwrap();
    let rest = shift_step(&mut b, 3);
    assert_eq!(1, rest);
    let room = b.spare(READ_CHUNK);
    room[..3].copy_from_slice(&[3, 4, 5]);
    after_read(&mut b, 3, 100).unwrap();
    assert_eq!(0, shift_step(&mut b, rest));
    assert_eq!(&[4, 5], b.as_slice());
}

#[test]
fn consume_across_several_reads() {
    let mut b = MsgBufferStatic::new();
    let mut rest = shift_step(&mut b, 7);
    assert_eq!(7, rest);
    for chunk in [&[1u8, 2][..], &[3, 4, 5][..], &[6, 7, 8, 9][..]] {
        let room = b.spare(READ_CHUNK);
        room[..chunk.len()].copy_from_slice(chunk);
        after_read(&mut b, chunk.len(), 100).unwrap();
        rest = shift_step(&mut b, rest);
    }
    assert_eq!(0, rest);
    assert_eq!(&[8, 9], b.as_slice());
}
