//! The protocol's identifiers and codes ([MS-SMB2] section 2.2).

use vstd::prelude::*;

verus! {

/// A server-side handle: the half that survives a disconnect, and the half that does not.
#[derive(Debug, Clone, Copy, PartialEq, Eq, Structural)]
pub struct FileId {
    pub persistent: u64,
    pub volatile: u64,
}

/// A connection to one share.
#[derive(Debug, Clone, Copy, PartialEq, Eq, Structural)]
pub struct TreeId(pub u32);

/// The number that pairs a response with its request.
#[derive(Debug, Clone, Copy, PartialEq, Eq, Structural)]
pub struct MessageId(pub u64);

/// An authenticated session.
#[derive(Debug, Clone, Copy, PartialEq, Eq, Structural)]
pub struct SessionId(pub u64);

/// Sixteen bytes nobody else chose, in wire order.
#[derive(Debug, Clone, Copy, PartialEq, Eq)]
pub struct Guid {
    pub bytes: [u8; 16],
}

/// The status a response carries.
#[derive(Debug, Clone, Copy, PartialEq, Eq, Structural)]
pub struct NtStatus(pub u32);

/// The request was carried out.
pub const STATUS_SUCCESS: u32 = 0x0000_0000;

/// The request is being worked on; the answer follows.
pub const STATUS_PENDING: u32 = 0x0000_0103;

/// There is no file, or no open, of that name.
pub const STATUS_OBJECT_NAME_NOT_FOUND: u32 = 0xC000_0034;

/// The session has to be established again.
pub const STATUS_NETWORK_SESSION_EXPIRED: u32 = 0xC000_035C;

/// The protocol revisions, oldest first.
#[derive(Debug, Clone, Copy, PartialEq, Eq, Structural)]
pub enum Dialect {
    Smb2_0_2,
    Smb2_1,
    Smb3_0,
    Smb3_0_2,
    Smb3_1_1,
}

impl Dialect {
    /// Whether this is SMB 3.0 or later.
    pub open spec fn is_smb3(self) -> bool {
        self is Smb3_0 || self is Smb3_0_2 || self is Smb3_1_1
    }

    /// Whether this is SMB 3.0 or later.
    pub fn at_least_smb3(self) -> (yes: bool)
        ensures
            yes == self.is_smb3(),
    {
        match self {
            Dialect::Smb2_0_2 | Dialect::Smb2_1 => false,
            Dialect::Smb3_0 | Dialect::Smb3_0_2 | Dialect::Smb3_1_1 => true,
        }
    }
}

/// How much caching an open asks for or is granted.
#[derive(Debug, Clone, Copy, PartialEq, Eq, Structural)]
pub enum OplockLevel {
    NoOplock,
    LevelII,
    Exclusive,
    Batch,
    Lease,
}

/// The requests of the protocol.
#[derive(Debug, Clone, Copy, PartialEq, Eq, Structural)]
pub enum Command {
    Negotiate,
    SessionSetup,
    Logoff,
    TreeConnect,
    TreeDisconnect,
    Create,
    Close,
    Flush,
    Read,
    Write,
    Lock,
    Ioctl,
    Cancel,
    Echo,
    QueryDirectory,
    ChangeNotify,
    QueryInfo,
    SetInfo,
    OplockBreak,
}

impl Command {
    /// The command's number on the wire.
    pub open spec fn spec_code(self) -> u16 {
        match self {
            Command::Negotiate => 0x00,
            Command::SessionSetup => 0x01,
            Command::Logoff => 0x02,
            Command::TreeConnect => 0x03,
            Command::TreeDisconnect => 0x04,
            Command::Create => 0x05,
            Command::Close => 0x06,
            Command::Flush => 0x07,
            Command::Read => 0x08,
            Command::Write => 0x09,
            Command::Lock => 0x0A,
            Command::Ioctl => 0x0B,
            Command::Cancel => 0x0C,
            Command::Echo => 0x0D,
            Command::QueryDirectory => 0x0E,
            Command::ChangeNotify => 0x0F,
            Command::QueryInfo => 0x10,
            Command::SetInfo => 0x11,
            Command::OplockBreak => 0x12,
        }
    }

    /// The command's number on the wire.
    pub fn code(self) -> (n: u16)
        ensures
            n == self.spec_code(),
            n <= 0x12,
    {
        match self {
            Command::Negotiate => 0x00,
            Command::SessionSetup => 0x01,
            Command::Logoff => 0x02,
            Command::TreeConnect => 0x03,
            Command::TreeDisconnect => 0x04,
            Command::Create => 0x05,
            Command::Close => 0x06,
            Command::Flush => 0x07,
            Command::Read => 0x08,
            Command::Write => 0x09,
            Command::Lock => 0x0A,
            Command::Ioctl => 0x0B,
            Command::Cancel => 0x0C,
            Command::Echo => 0x0D,
            Command::QueryDirectory => 0x0E,
            Command::ChangeNotify => 0x0F,
            Command::QueryInfo => 0x10,
            Command::SetInfo => 0x11,
            Command::OplockBreak => 0x12,
        }
    }

    /// The command with this number, if there is one.
    pub open spec fn spec_from_code(n: int) -> Option<Command> {
        if n == 0x00 {
            Some(Command::Negotiate)
        } else if n == 0x01 {
            Some(Command::SessionSetup)
        } else if n == 0x02 {
            Some(Command::Logoff)
        } else if n == 0x03 {
            Some(Command::TreeConnect)
        } else if n == 0x04 {
            Some(Command::TreeDisconnect)
        } else if n == 0x05 {
            Some(Command::Create)
        } else if n == 0x06 {
            Some(Command::Close)
        } else if n == 0x07 {
            Some(Command::Flush)
        } else if n == 0x08 {
            Some(Command::Read)
        } else if n == 0x09 {
            Some(Command::Write)
        } else if n == 0x0A {
            Some(Command::Lock)
        } else if n == 0x0B {
            Some(Command::Ioctl)
        } else if n == 0x0C {
            Some(Command::Cancel)
        } else if n == 0x0D {
            Some(Command::Echo)
        } else if n == 0x0E {
            Some(Command::QueryDirectory)
        } else if n == 0x0F {
            Some(Command::ChangeNotify)
        } else if n == 0x10 {
            Some(Command::QueryInfo)
        } else if n == 0x11 {
            Some(Command::SetInfo)
        } else if n == 0x12 {
            Some(Command::OplockBreak)
        } else {
            None
        }
    }

    /// The command with this number, if there is one.
    pub fn from_code(n: u16) -> (command: Option<Command>)
        ensures
            command == Command::spec_from_code(n as int),
    {
        match n {
            0x00 => Some(Command::Negotiate),
            0x01 => Some(Command::SessionSetup),
            0x02 => Some(Command::Logoff),
            0x03 => Some(Command::TreeConnect),
            0x04 => Some(Command::TreeDisconnect),
            0x05 => Some(Command::Create),
            0x06 => Some(Command::Close),
            0x07 => Some(Command::Flush),
            0x08 => Some(Command::Read),
            0x09 => Some(Command::Write),
            0x0A => Some(Command::Lock),
            0x0B => Some(Command::Ioctl),
            0x0C => Some(Command::Cancel),
            0x0D => Some(Command::Echo),
            0x0E => Some(Command::QueryDirectory),
            0x0F => Some(Command::ChangeNotify),
            0x10 => Some(Command::QueryInfo),
            0x11 => Some(Command::SetInfo),
            0x12 => Some(Command::OplockBreak),
            _ => None,
        }
    }
}

/// A command's number stands for that command and no other.
pub proof fn law_command_codes(command: Command)
    ensures
        Command::spec_from_code(command.spec_code() as int) == Some(command),
{
}

/// The numbers of the commands ([MS-SMB2] section 2.2.1.2).
pub proof fn law_command_numbers(command: Command)
    ensures
        command.spec_code() == (match command {
            Command::Negotiate => 0int,
            Command::SessionSetup => 1,
            Command::Logoff => 2,
            Command::TreeConnect => 3,
            Command::TreeDisconnect => 4,
            Command::Create => 5,
            Command::Close => 6,
            Command::Flush => 7,
            Command::Read => 8,
            Command::Write => 9,
            Command::Lock => 10,
            Command::Ioctl => 11,
            Command::Cancel => 12,
            Command::Echo => 13,
            Command::QueryDirectory => 14,
            Command::ChangeNotify => 15,
            Command::QueryInfo => 16,
            Command::SetInfo => 17,
            Command::OplockBreak => 18,
        }),
{
}

/// A number stands for at most one command, and the numbers in use have no gap.
pub proof fn law_numbers_of_commands(n: int)
    ensures
        Command::spec_from_code(n) is Some <==> 0 <= n < 19,
        Command::spec_from_code(n) matches Some(command) ==> command.spec_code() == n,
{
}

/// SMB 3.0, 3.0.2 and 3.1.1 are SMB 3; SMB 2.0.2 and 2.1 are not.
pub proof fn law_which_dialects_are_smb3(dialect: Dialect)
    ensures
        !dialect.is_smb3() <==> dialect is Smb2_0_2 || dialect is Smb2_1,
{
}

} // verus!
