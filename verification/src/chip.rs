//! A chip: where its tiles are, and the operations that it is asked to perform.

use vstd::prelude::*;

use crate::kernel;

verus! {

/// The generation of a chip.
#[derive(Clone, Copy, Debug, PartialEq, Eq, Structural)]
pub enum Arch {
    Grayskull,
    Wormhole,
    Blackhole,
    /// A generation that this library does not know, by its device id.
    Unknown(u16),
}

impl Arch {
    /// The name of a known generation.
    pub open spec fn name_spec(self) -> Seq<char> {
        match self {
            Arch::Grayskull => "Grayskull"@,
            Arch::Wormhole => "Wormhole"@,
            _ => "Blackhole"@,
        }
    }

    /// The name of a known generation.
    pub fn name(self) -> (name: String)
        requires
            !(self is Unknown),
        ensures
            name@ == self.name_spec(),
    {
        let text = match self {
            Arch::Grayskull => "Grayskull",
            Arch::Wormhole => "Wormhole",
            _ => "Blackhole",
        };
        text.to_string()
    }

    pub fn is_grayskull(&self) -> (yes: bool)
        ensures
            yes == (self is Grayskull),
    {
        matches!(self, Arch::Grayskull)
    }
}

/// One of the two networks on a chip.
#[derive(Clone, Copy, Debug, PartialEq, Eq, Structural)]
pub enum NocId {
    Noc0,
    Noc1,
}

/// Where something stands on each of the two networks.
#[derive(Clone, Copy, Debug, PartialEq, Eq)]
pub struct NocAddress {
    pub n0: (u8, u8),
    pub n1: (u8, u8),
}

impl NocAddress {
    /// The coordinates on one network.
    pub fn get(&self, noc_id: NocId) -> (coordinates: (u8, u8))
        ensures
            coordinates == match noc_id {
                NocId::Noc0 => self.n0,
                NocId::Noc1 => self.n1,
            },
    {
        match noc_id {
            NocId::Noc0 => self.n0,
            NocId::Noc1 => self.n1,
        }
    }
}

/// A tile of a chip.
#[derive(Clone, Copy, Debug, PartialEq, Eq)]
pub struct Tile {
    pub addr: NocAddress,
}

/// An operation that a chip is asked to perform.
#[derive(Debug, PartialEq, Eq)]
pub enum ChipCommand {
    /// Lower the clocks.
    GoIdle,
    /// Raise the clocks.
    GoBusy,
    DeassertRiscvReset,
    /// Write 32 bits at one address of every Tensix.
    Broadcast32 { noc_id: NocId, addr: u64, value: u32 },
    /// Write bytes at one address of every Tensix.
    Broadcast { noc_id: NocId, addr: u64, data: Vec<u8> },
    Write32 { noc_id: NocId, core: NocAddress, addr: u64, value: u32 },
    Write { noc_id: NocId, core: NocAddress, addr: u64, data: Vec<u8> },
    /// Read 32 bits, which are to be `value`.
    Expect32 { noc_id: NocId, core: NocAddress, addr: u64, value: u32 },
}

/// An operation as a value.
pub enum CommandView {
    GoIdle,
    GoBusy,
    DeassertRiscvReset,
    Broadcast32 { noc_id: NocId, addr: u64, value: u32 },
    Broadcast { noc_id: NocId, addr: u64, data: Seq<u8> },
    Write32 { noc_id: NocId, core: NocAddress, addr: u64, value: u32 },
    Write { noc_id: NocId, core: NocAddress, addr: u64, data: Seq<u8> },
    Expect32 { noc_id: NocId, core: NocAddress, addr: u64, value: u32 },
}

impl View for ChipCommand {
    type V = CommandView;

    open spec fn view(&self) -> CommandView {
        match *self {
            ChipCommand::GoIdle => CommandView::GoIdle,
            ChipCommand::GoBusy => CommandView::GoBusy,
            ChipCommand::DeassertRiscvReset => CommandView::DeassertRiscvReset,
            ChipCommand::Broadcast32 { noc_id, addr, value } => CommandView::Broadcast32 {
                noc_id,
                addr,
                value,
            },
            ChipCommand::Broadcast { noc_id, addr, data } => CommandView::Broadcast {
                noc_id,
                addr,
                data: data@,
            },
            ChipCommand::Write32 { noc_id, core, addr, value } => CommandView::Write32 {
                noc_id,
                core,
                addr,
                value,
            },
            ChipCommand::Write { noc_id, core, addr, data } => CommandView::Write {
                noc_id,
                core,
                addr,
                data: data@,
            },
            ChipCommand::Expect32 { noc_id, core, addr, value } => CommandView::Expect32 {
                noc_id,
                core,
                addr,
                value,
            },
        }
    }
}

/// The operations that a chip is asked to perform, in order. Whoever holds the connection to the
/// chip takes them and performs them.
pub struct Chip {
    commands: Vec<ChipCommand>,
}

pub open spec fn commands_view(commands: Seq<ChipCommand>) -> Seq<CommandView> {
    Seq::new(commands.len(), |i: int| commands[i]@)
}

impl View for Chip {
    type V = Seq<CommandView>;

    closed spec fn view(&self) -> Seq<CommandView> {
        commands_view(self.commands@)
    }
}

impl Chip {
    pub fn new() -> (chip: Self)
        ensures
            chip@ == Seq::<CommandView>::empty(),
    {
        let chip = Chip { commands: Vec::new() };
        assert(chip@ =~= Seq::<CommandView>::empty());
        chip
    }

    /// Hands out the operations that were asked for.
    pub fn take_commands(&mut self) -> (commands: Vec<ChipCommand>)
        ensures
            commands_view(commands@) == old(self)@,
            final(self)@ == Seq::<CommandView>::empty(),
    {
        let mut commands: Vec<ChipCommand> = Vec::new();
        std::mem::swap(&mut commands, &mut self.commands);
        assert(self@ =~= Seq::<CommandView>::empty());
        commands
    }

    fn ask(&mut self, command: ChipCommand)
        ensures
            final(self)@ == old(self)@.push(command@),
    {
        self.commands.push(command);
        assert(self@ =~= old(self)@.push(command@));
    }

    pub fn go_idle(&mut self)
        ensures
            final(self)@ == old(self)@.push(CommandView::GoIdle),
    {
        self.ask(ChipCommand::GoIdle)
    }

    pub fn go_busy(&mut self)
        ensures
            final(self)@ == old(self)@.push(CommandView::GoBusy),
    {
        self.ask(ChipCommand::GoBusy)
    }

    pub fn deassert_riscv_reset(&mut self)
        ensures
            final(self)@ == old(self)@.push(CommandView::DeassertRiscvReset),
    {
        self.ask(ChipCommand::DeassertRiscvReset)
    }

    pub fn noc_broadcast32(&mut self, noc_id: NocId, addr: u64, value: u32)
        ensures
            final(self)@ == old(self)@.push(CommandView::Broadcast32 { noc_id, addr, value }),
    {
        self.ask(ChipCommand::Broadcast32 { noc_id, addr, value })
    }

    pub fn noc_broadcast(&mut self, noc_id: NocId, addr: u64, data: &[u8])
        ensures
            final(self)@ == old(self)@.push(
                CommandView::Broadcast { noc_id, addr, data: data@ },
            ),
    {
        self.ask(ChipCommand::Broadcast { noc_id, addr, data: kernel::copy_bytes(data) })
    }

    pub fn noc_write32(&mut self, noc_id: NocId, core: NocAddress, addr: u64, value: u32)
        ensures
            final(self)@ == old(self)@.push(CommandView::Write32 { noc_id, core, addr, value }),
    {
        self.ask(ChipCommand::Write32 { noc_id, core, addr, value })
    }

    pub fn noc_write(&mut self, noc_id: NocId, core: NocAddress, addr: u64, data: &[u8])
        ensures
            final(self)@ == old(self)@.push(
                CommandView::Write { noc_id, core, addr, data: data@ },
            ),
    {
        self.ask(ChipCommand::Write { noc_id, core, addr, data: kernel::copy_bytes(data) })
    }

    /// Asks that 32 bits be read, which are to be `value`.
    pub fn noc_expect32(&mut self, noc_id: NocId, core: NocAddress, addr: u64, value: u32)
        ensures
            final(self)@ == old(self)@.push(CommandView::Expect32 { noc_id, core, addr, value }),
    {
        self.ask(ChipCommand::Expect32 { noc_id, core, addr, value })
    }
}

} // verus!
