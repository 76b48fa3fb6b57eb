use rustnet::err::NetError;

#[test]
fn error_texts() {
    assert_eq!("IoError: broken", NetError::IoError("broken".to_string()).to_string());
    assert_eq!("abc", NetError::new_with_string("abc".to_string()).to_string());
    assert_eq!("tcp read timeout", NetError::TcpReadTimeout.to_string());
    assert_eq!("tcp write timeout", NetError::TcpWriteTimeout.to_string());
    assert_eq!("tcp disconnected", NetError::TcpDisconnected.to_string());
    assert_eq!("UknowError", NetError::UknowError.to_string());
    assert_eq!("h:1 Address error", NetError::AddressError("h:1".to_string()).to_string());
    assert_eq!("package is too large", NetError::LargePackage.to_string());
    assert_eq!("ShutdownServer,reason: done", NetError::ShutdownServer("done".to_string()).to_string());
    assert_eq!("no error", NetError::NoError.to_string());
    assert_eq!("close no error", NetError::Close.to_string());
    assert_eq!("channel closed", NetError::Channel("closed".to_string()).to_string());
    assert_eq!("bad", NetError::FormatErr("bad".to_string()).to_string());
    assert_eq!("No server", NetError::NoStartServer.to_string());
}

#[test]
fn new_with_string_is_custom() {
    assert!(matches!(NetError::new_with_string("q".to_string()), NetError::Custom(s) if s == "q"));
}
