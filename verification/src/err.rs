//! The errors of the library and the text that describes each.
use vstd::prelude::*;
use vstd::string::StringExecFns;

verus! {

/// Everything that can go wrong on a connection or a server.
#[derive(Debug, Clone)]
pub enum NetError {
    IoError(String),
    Custom(String),
    TcpReadTimeout,
    TcpWriteTimeout,
    TcpDisconnected,
    UknowError,
    AddressError(String),
    LargePackage,
    ShutdownServer(String),
    NoError,
    Close,
    Channel(String),
    FormatErr(String),
    /// The server was not started.
    NoStartServer,
}

impl NetError {
    /// The text that describes the error.
    pub open spec fn message(&self) -> Seq<char> {
        match self {
            NetError::IoError(s) => "IoError: "@ + s@,
            NetError::Custom(s) => s@,
            NetError::TcpReadTimeout => "tcp read timeout"@,
            NetError::TcpWriteTimeout => "tcp write timeout"@,
            NetError::TcpDisconnected => "tcp disconnected"@,
            NetError::UknowError => "UknowError"@,
            NetError::AddressError(s) => s@ + " Address error"@,
            NetError::LargePackage => "package is too large"@,
            NetError::ShutdownServer(s) => "ShutdownServer,reason: "@ + s@,
            NetError::NoError => "no error"@,
            NetError::Close => "close no error"@,
            NetError::Channel(s) => "channel "@ + s@,
            NetError::FormatErr(s) => s@,
            NetError::NoStartServer => "No server"@,
        }
    }

    /// A `Custom` error carrying `s`.
    pub fn new_with_string(s: String) -> (r: NetError)
        ensures
            r == NetError::Custom(s),
    {
        NetError::Custom(s)
    }

    /// The text that describes the error.
    pub fn to_string(&self) -> (r: String)
        ensures
            r@ == self.message(),
    {
        match self {
            NetError::IoError(s) => "IoError: ".to_owned().concat(s.as_str()),
            NetError::Custom(s) => s.clone(),
            NetError::TcpReadTimeout => "tcp read timeout".to_owned(),
            NetError::TcpWriteTimeout => "tcp write timeout".to_owned(),
            NetError::TcpDisconnected => "tcp disconnected".to_owned(),
            NetError::UknowError => "UknowError".to_owned(),
            NetError::AddressError(s) => s.clone().concat(" Address error"),
            NetError::LargePackage => "package is too large".to_owned(),
            NetError::ShutdownServer(s) => "ShutdownServer,reason: ".to_owned().concat(s.as_str()),
            NetError::NoError => "no error".to_owned(),
            NetError::Close => "close no error".to_owned(),
            NetError::Channel(s) => "channel ".to_owned().concat(s.as_str()),
            NetError::FormatErr(s) => s.clone(),
            NetError::NoStartServer => "No server".to_owned(),
        }
    }
}

} // verus!
