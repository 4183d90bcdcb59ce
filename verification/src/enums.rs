use vstd::prelude::*;

verus! {

/// Why sealing or opening a packet failed.
#[derive(Debug, Clone, Copy, PartialEq, Eq, Structural)]
pub enum PacketError {
    /// The packet does not carry the expected associated header.
    Authentication,
    /// The packet is too short, or its plaintext is not a valid payload.
    InvalidFormat,
    /// The serialized payload does not fit in one packet.
    BufferOverflow,
    /// A message or block counter would run past its range.
    AESCounterOverflow,
    /// The packet's counter is not newer than the last accepted one.
    Duplicate,
    /// The authentication tag does not match the packet's contents.
    Corrupted,
}

/// A device on a station that a command addresses.
#[derive(Debug, Clone, Copy, PartialEq, Eq, Structural)]
pub enum Component {
    Led(u8),
}

/// What a station is asked to do with a component.
#[derive(Debug, Clone, Copy, PartialEq, Eq, Structural)]
pub enum Command {
    Toggle(Component),
    On(Component),
    Off(Component),
}

/// The message carried inside a sealed packet.
#[derive(Debug, Clone, Copy, PartialEq, Eq, Structural)]
pub struct EspPayload {
    cmd: Command,
}

impl EspPayload {
    pub fn new(cmd: Command) -> (r: Self)
        ensures
            r.command() == cmd,
    {
        Self { cmd }
    }

    pub closed spec fn command(self) -> Command {
        self.cmd
    }

    /// The command this payload carries.
    pub fn cmd(&self) -> (r: Command)
        ensures
            r == self.command(),
    {
        self.cmd
    }
}

} // verus!
