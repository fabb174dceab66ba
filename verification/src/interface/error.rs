//! Errors of the interface layer.

use vstd::prelude::*;

verus! {

#[derive(Debug, PartialEq, Eq, Clone)]
pub enum InterfaceError {
    Io(String),
    Serial(String),
    ConnectionLost,
    DecodeError(String),
    Timeout,
    AlreadyOnline,
    NotOnline,
    Config(String),
}

impl InterfaceError {
    /// The text of the error.
    pub open spec fn message(&self) -> Seq<char> {
        match *self {
            InterfaceError::Io(m) => "I/O error: "@ + m@,
            InterfaceError::Serial(m) => "serial port error: "@ + m@,
            InterfaceError::ConnectionLost => "connection lost"@,
            InterfaceError::DecodeError(m) => "decode error: "@ + m@,
            InterfaceError::Timeout => "operation timed out"@,
            InterfaceError::AlreadyOnline => "interface already online"@,
            InterfaceError::NotOnline => "interface not online"@,
            InterfaceError::Config(m) => "invalid configuration: "@ + m@,
        }
    }

    /// The message that describes the error.
    pub fn to_string(&self) -> (text: String)
        ensures
            text@ == self.message(),
    {
        match self {
            InterfaceError::Io(m) => InterfaceError::labelled("I/O error: ", m),
            InterfaceError::Serial(m) => InterfaceError::labelled("serial port error: ", m),
            InterfaceError::ConnectionLost => "connection lost".to_owned(),
            InterfaceError::DecodeError(m) => InterfaceError::labelled("decode error: ", m),
            InterfaceError::Timeout => "operation timed out".to_owned(),
            InterfaceError::AlreadyOnline => "interface already online".to_owned(),
            InterfaceError::NotOnline => "interface not online".to_owned(),
            InterfaceError::Config(m) => InterfaceError::labelled("invalid configuration: ", m),
        }
    }

    fn labelled(label: &str, detail: &String) -> (text: String)
        ensures
            text@ == label@ + detail@,
    {
        let mut text: String = label.to_owned();
        text.append(detail.as_str());
        text
    }
}

} // verus!
