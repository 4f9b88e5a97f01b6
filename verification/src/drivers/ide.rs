//! The vocabulary of the IDE/ATA controller: registers, commands, status
//! and error bits, and what the driver decides from them before and after
//! it talks to the hardware.

use crate::drivers::block::BlockError;
use crate::fat32::layout::{le16, le32, read_le16, read_le32};
use vstd::prelude::*;

verus! {

/// The bits of the status register.
#[derive(Clone, Copy, Debug, PartialEq, Eq, Structural)]
pub enum ATAStatus {
    Busy,
    DriveReady,
    DriveWriteFault,
    DriveSeekComplete,
    DataRequestReady,
    CorrectedData,
    Index,
    Error,
}

impl ATAStatus {
    /// The number that stands for this value on the hardware.
    pub open spec fn bits(self) -> u8 {
        match self {
            ATAStatus::Busy => 0x80,
            ATAStatus::DriveReady => 0x40,
            ATAStatus::DriveWriteFault => 0x20,
            ATAStatus::DriveSeekComplete => 0x10,
            ATAStatus::DataRequestReady => 0x08,
            ATAStatus::CorrectedData => 0x04,
            ATAStatus::Index => 0x02,
            ATAStatus::Error => 0x01,
        }
    }

    /// The number that stands for this value on the hardware.
    pub fn code(&self) -> (code: u8)
        ensures
            code == self.bits(),
    {
        match self {
            ATAStatus::Busy => 0x80,
            ATAStatus::DriveReady => 0x40,
            ATAStatus::DriveWriteFault => 0x20,
            ATAStatus::DriveSeekComplete => 0x10,
            ATAStatus::DataRequestReady => 0x08,
            ATAStatus::CorrectedData => 0x04,
            ATAStatus::Index => 0x02,
            ATAStatus::Error => 0x01,
        }
    }

    /// Whether this bit is set in the register value `state`.
    pub fn presence(&self, state: u8) -> (set: bool)
        ensures
            set == (state & self.bits() != 0),
    {
        state & self.code() != 0x00
    }
}

/// The bits of the error register.
#[derive(Clone, Copy, Debug, PartialEq, Eq, Structural)]
pub enum ATAError {
    BadBlock,
    UncorrectableData,
    MediaChanged,
    IDMarkNotFound,
    MediaChangeRequest,
    CommandAborted,
    TrackZeroNotFound,
    NoAddressMark,
}

impl ATAError {
    /// The number that stands for this value on the hardware.
    pub open spec fn bits(self) -> u8 {
        match self {
            ATAError::BadBlock => 0x80,
            ATAError::UncorrectableData => 0x40,
            ATAError::MediaChanged => 0x20,
            ATAError::IDMarkNotFound => 0x10,
            ATAError::MediaChangeRequest => 0x08,
            ATAError::CommandAborted => 0x04,
            ATAError::TrackZeroNotFound => 0x02,
            ATAError::NoAddressMark => 0x01,
        }
    }

    /// The number that stands for this value on the hardware.
    pub fn code(&self) -> (code: u8)
        ensures
            code == self.bits(),
    {
        match self {
            ATAError::BadBlock => 0x80,
            ATAError::UncorrectableData => 0x40,
            ATAError::MediaChanged => 0x20,
            ATAError::IDMarkNotFound => 0x10,
            ATAError::MediaChangeRequest => 0x08,
            ATAError::CommandAborted => 0x04,
            ATAError::TrackZeroNotFound => 0x02,
            ATAError::NoAddressMark => 0x01,
        }
    }

    /// Whether this bit is set in the register value `state`.
    pub fn presence(&self, state: u8) -> (set: bool)
        ensures
            set == (state & self.bits() != 0),
    {
        state & self.code() != 0x00
    }
}

/// The commands that the driver sends.
#[derive(Clone, Copy, Debug, PartialEq, Eq, Structural)]
pub enum ATACommand {
    ReadPIO,
    ReadPIOExt,
    ReadDMA,
    ReadDMAExt,
    WritePIO,
    WritePIOExt,
    WriteDMA,
    WriteDMAExt,
    CacheFlush,
    CacheFlushExt,
    Packet,
    IdentityPacket,
    Identity,
    Nothing,
}

impl ATACommand {
    /// The number that stands for this value on the hardware.
    pub open spec fn bits(self) -> u8 {
        match self {
            ATACommand::ReadPIO => 0x20,
            ATACommand::ReadPIOExt => 0x24,
            ATACommand::ReadDMA => 0xC8,
            ATACommand::ReadDMAExt => 0x25,
            ATACommand::WritePIO => 0x30,
            ATACommand::WritePIOExt => 0x34,
            ATACommand::WriteDMA => 0xCA,
            ATACommand::WriteDMAExt => 0x35,
            ATACommand::CacheFlush => 0xE7,
            ATACommand::CacheFlushExt => 0xEA,
            ATACommand::Packet => 0xA0,
            ATACommand::IdentityPacket => 0xA1,
            ATACommand::Identity => 0xEC,
            ATACommand::Nothing => 0xFF,
        }
    }

    /// The number that stands for this value on the hardware.
    pub fn code(&self) -> (code: u8)
        ensures
            code == self.bits(),
    {
        match self {
            ATACommand::ReadPIO => 0x20,
            ATACommand::ReadPIOExt => 0x24,
            ATACommand::ReadDMA => 0xC8,
            ATACommand::ReadDMAExt => 0x25,
            ATACommand::WritePIO => 0x30,
            ATACommand::WritePIOExt => 0x34,
            ATACommand::WriteDMA => 0xCA,
            ATACommand::WriteDMAExt => 0x35,
            ATACommand::CacheFlush => 0xE7,
            ATACommand::CacheFlushExt => 0xEA,
            ATACommand::Packet => 0xA0,
            ATACommand::IdentityPacket => 0xA1,
            ATACommand::Identity => 0xEC,
            ATACommand::Nothing => 0xFF,
        }
    }
}

/// The packet commands.
#[derive(Clone, Copy, Debug, PartialEq, Eq, Structural)]
pub enum ATAPICommand {
    CommandRead,
    CommandEject,
}

impl ATAPICommand {
    /// The number that stands for this value on the hardware.
    pub open spec fn bits(self) -> u8 {
        match self {
            ATAPICommand::CommandRead => 0xA8,
            ATAPICommand::CommandEject => 0x1B,
        }
    }

    /// The number that stands for this value on the hardware.
    pub fn code(&self) -> (code: u8)
        ensures
            code == self.bits(),
    {
        match self {
            ATAPICommand::CommandRead => 0xA8,
            ATAPICommand::CommandEject => 0x1B,
        }
    }
}

/// Offsets into the identification space of a device.
#[derive(Clone, Copy, Debug, PartialEq, Eq, Structural)]
pub enum ATAIdentitySpace {
    DeviceType,
    Cylinders,
    Heads,
    Sectors,
    Serial,
    Model,
    Capabilities,
    FieldValid,
    MaxLBA,
    CommandSets,
    MaxLBAExt,
}

impl ATAIdentitySpace {
    /// The number that stands for this value on the hardware.
    pub open spec fn bits(self) -> u8 {
        match self {
            ATAIdentitySpace::DeviceType => 0x00,
            ATAIdentitySpace::Cylinders => 0x02,
            ATAIdentitySpace::Heads => 0x06,
            ATAIdentitySpace::Sectors => 0x0C,
            ATAIdentitySpace::Serial => 0x14,
            ATAIdentitySpace::Model => 0x36,
            ATAIdentitySpace::Capabilities => 0x62,
            ATAIdentitySpace::FieldValid => 0x6A,
            ATAIdentitySpace::MaxLBA => 0x78,
            ATAIdentitySpace::CommandSets => 0xA4,
            ATAIdentitySpace::MaxLBAExt => 0xC8,
        }
    }

    /// The number that stands for this value on the hardware.
    pub fn code(&self) -> (code: u8)
        ensures
            code == self.bits(),
    {
        match self {
            ATAIdentitySpace::DeviceType => 0x00,
            ATAIdentitySpace::Cylinders => 0x02,
            ATAIdentitySpace::Heads => 0x06,
            ATAIdentitySpace::Sectors => 0x0C,
            ATAIdentitySpace::Serial => 0x14,
            ATAIdentitySpace::Model => 0x36,
            ATAIdentitySpace::Capabilities => 0x62,
            ATAIdentitySpace::FieldValid => 0x6A,
            ATAIdentitySpace::MaxLBA => 0x78,
            ATAIdentitySpace::CommandSets => 0xA4,
            ATAIdentitySpace::MaxLBAExt => 0xC8,
        }
    }
}

/// The registers of a channel, by number.
#[derive(Clone, Copy, Debug, PartialEq, Eq, Structural)]
pub enum ATARegister {
    Data,
    ErrorORFeatures,
    Seccount0,
    LBA0,
    LBA1,
    LBA2,
    HDDEvsel,
    CommandORStatus,
    Seccount1,
    LBA3,
    LBA4,
    LBA5,
    ControlORAltStatus,
    DEVAddress,
}

impl ATARegister {
    /// The number that stands for this value on the hardware.
    pub open spec fn bits(self) -> u8 {
        match self {
            ATARegister::Data => 0x00,
            ATARegister::ErrorORFeatures => 0x01,
            ATARegister::Seccount0 => 0x02,
            ATARegister::LBA0 => 0x03,
            ATARegister::LBA1 => 0x04,
            ATARegister::LBA2 => 0x05,
            ATARegister::HDDEvsel => 0x06,
            ATARegister::CommandORStatus => 0x07,
            ATARegister::Seccount1 => 0x08,
            ATARegister::LBA3 => 0x09,
            ATARegister::LBA4 => 0x0A,
            ATARegister::LBA5 => 0x0B,
            ATARegister::ControlORAltStatus => 0x0C,
            ATARegister::DEVAddress => 0x0D,
        }
    }

    /// The number that stands for this value on the hardware.
    pub fn code(&self) -> (code: u8)
        ensures
            code == self.bits(),
    {
        match self {
            ATARegister::Data => 0x00,
            ATARegister::ErrorORFeatures => 0x01,
            ATARegister::Seccount0 => 0x02,
            ATARegister::LBA0 => 0x03,
            ATARegister::LBA1 => 0x04,
            ATARegister::LBA2 => 0x05,
            ATARegister::HDDEvsel => 0x06,
            ATARegister::CommandORStatus => 0x07,
            ATARegister::Seccount1 => 0x08,
            ATARegister::LBA3 => 0x09,
            ATARegister::LBA4 => 0x0A,
            ATARegister::LBA5 => 0x0B,
            ATARegister::ControlORAltStatus => 0x0C,
            ATARegister::DEVAddress => 0x0D,
        }
    }
}

/// The two channels of the controller.
#[derive(Clone, Copy, Debug, PartialEq, Eq, Structural)]
pub enum ATAChannel {
    Primary,
    Secondary,
}

impl ATAChannel {
    /// The number that stands for this value on the hardware.
    pub open spec fn bits(self) -> u8 {
        match self {
            ATAChannel::Primary => 0x00,
            ATAChannel::Secondary => 0x01,
        }
    }

    /// The number that stands for this value on the hardware.
    pub fn code(&self) -> (code: u8)
        ensures
            code == self.bits(),
    {
        match self {
            ATAChannel::Primary => 0x00,
            ATAChannel::Secondary => 0x01,
        }
    }

    /// The value that `value` stands for: 0 or 1, nothing else.
    pub fn from_code(value: u8) -> (result: Option<Self>)
        ensures
            value <= 1 ==> result is Some && result->Some_0.bits() == value,
            value > 1 ==> result is None,
    {
        match value {
            0x00 => Some(ATAChannel::Primary),
            0x01 => Some(ATAChannel::Secondary),
            _ => None,
        }
    }
}

/// The two drives of a channel.
#[derive(Clone, Copy, Debug, PartialEq, Eq, Structural)]
pub enum ATADrive {
    Master,
    Slave,
}

impl ATADrive {
    /// The number that stands for this value on the hardware.
    pub open spec fn bits(self) -> u8 {
        match self {
            ATADrive::Master => 0x00,
            ATADrive::Slave => 0x01,
        }
    }

    /// The number that stands for this value on the hardware.
    pub fn code(&self) -> (code: u8)
        ensures
            code == self.bits(),
    {
        match self {
            ATADrive::Master => 0x00,
            ATADrive::Slave => 0x01,
        }
    }

    /// The value that `value` stands for: 0 or 1, nothing else.
    pub fn from_code(value: u8) -> (result: Option<Self>)
        ensures
            value <= 1 ==> result is Some && result->Some_0.bits() == value,
            value > 1 ==> result is None,
    {
        match value {
            0x00 => Some(ATADrive::Master),
            0x01 => Some(ATADrive::Slave),
            _ => None,
        }
    }
}

/// The two kinds of drive.
#[derive(Clone, Copy, Debug, PartialEq, Eq, Structural)]
pub enum ATADriveType {
    ATA,
    ATAPI,
}

impl ATADriveType {
    /// The number that stands for this value on the hardware.
    pub open spec fn bits(self) -> u8 {
        match self {
            ATADriveType::ATA => 0x00,
            ATADriveType::ATAPI => 0x01,
        }
    }

    /// The number that stands for this value on the hardware.
    pub fn code(&self) -> (code: u8)
        ensures
            code == self.bits(),
    {
        match self {
            ATADriveType::ATA => 0x00,
            ATADriveType::ATAPI => 0x01,
        }
    }

    /// The value that `value` stands for: 0 or 1, nothing else.
    pub fn from_code(value: u8) -> (result: Option<Self>)
        ensures
            value <= 1 ==> result is Some && result->Some_0.bits() == value,
            value > 1 ==> result is None,
    {
        match value {
            0x00 => Some(ATADriveType::ATA),
            0x01 => Some(ATADriveType::ATAPI),
            _ => None,
        }
    }
}

/// Direction of a transfer between a drive and memory.
#[derive(Clone, Copy, Debug, PartialEq, Eq, Structural)]
pub enum ATADirection {
    Read,
    Write,
}

impl ATADirection {
    /// The number that stands for this value on the hardware.
    pub open spec fn bits(self) -> u8 {
        match self {
            ATADirection::Read => 0x00,
            ATADirection::Write => 0x01,
        }
    }

    /// The number that stands for this value on the hardware.
    pub fn code(&self) -> (code: u8)
        ensures
            code == self.bits(),
    {
        match self {
            ATADirection::Read => 0x00,
            ATADirection::Write => 0x01,
        }
    }
}

/// The ports of one channel.
#[derive(Clone, Copy, Debug)]
pub struct IDEChannel {
    pub base_io: u16,
    pub control_base: u16,
    pub bus_master_ide: u16,
    pub no_interrupt: bool,
}

/// The port behind register number `register` of a channel, as a number
/// that may exceed 16 bits: registers 0 to 7 lie at the base port, 8 to 11
/// at the base port again from its register 2 on, 12 and 13 at the control
/// port from its register 2 on, 14 to 21 at the bus master port. Other
/// numbers name no port.
pub open spec fn register_port(channel: IDEChannel, register: u8) -> Option<int> {
    if register < 0x08 {
        Some(channel.base_io + register)
    } else if register < 0x0C {
        Some(channel.base_io + register - 0x06)
    } else if register < 0x0E {
        Some(channel.control_base + register - 0x0A)
    } else if register < 0x16 {
        Some(channel.bus_master_ide + register - 0x0E)
    } else {
        None
    }
}

impl IDEChannel {
    /// The port behind `register`, or `None` where the register names no
    /// port or the port's number does not fit into 16 bits.
    pub fn port(&self, register: ATARegister) -> (port: Option<u16>)
        ensures
            port == match register_port(*self, register.bits()) {
                Some(p) => if p <= u16::MAX {
                    Some(p as u16)
                } else {
                    None
                },
                None => None,
            },
    {
        let number: u8 = register.code();
        let wide: u32 = if number < 0x08 {
            self.base_io as u32 + number as u32
        } else if number < 0x0C {
            self.base_io as u32 + number as u32 - 0x06
        } else if number < 0x0E {
            self.control_base as u32 + number as u32 - 0x0A
        } else {
            self.bus_master_ide as u32 + number as u32 - 0x0E
        };
        if wide <= 0xFFFF {
            Some(wide as u16)
        } else {
            None
        }
    }

    /// Whether access to `register` first has to switch the channel to its
    /// second set of registers: true for registers 8 to 11.
    pub fn needs_high_order(register: ATARegister) -> (needed: bool)
        ensures
            needed == (0x07 < register.bits() < 0x0C),
    {
        let number: u8 = register.code();
        number > 0x07 && number < 0x0C
    }
}

/// What a drive tells of itself when it is asked to identify.
pub struct DriveIdentity {
    pub signature: u16,
    pub capabilities: u16,
    pub command_sets: u32,
    /// Size in sectors.
    pub size: u32,
    /// The 40 characters of the model's name.
    pub model: Vec<u8>,
}

/// The name of the model as the identification space holds it: 40
/// characters, of which each two neighbours stand in each other's place.
pub open spec fn model_text(space: Seq<u8>) -> Seq<u8> {
    Seq::new(
        40,
        |k: int|
            if k % 2 == 0 {
                space[0x36 + k + 1]
            } else {
                space[0x36 + k - 1]
            },
    )
}

/// Reads the identification space of a drive: its signature, its
/// capabilities and command sets, its size, which stands at the place for
/// 48-bit addresses where bit 26 of the command sets says that the drive
/// has them and at the place for 28-bit addresses where not, and the name of
/// its model.
pub fn parse_identity(space: &[u8]) -> (identity: DriveIdentity)
    requires
        space@.len() >= 204,
    ensures
        identity.signature == le16(space@, 0x00),
        identity.capabilities == le16(space@, 0x62),
        identity.command_sets == le32(space@, 0xA4),
        identity.size == if le32(space@, 0xA4) / 0x400_0000 % 2 == 1 {
            le32(space@, 0xC8)
        } else {
            le32(space@, 0x78)
        },
        identity.model@ == model_text(space@),
{
    let command_sets: u32 = read_le32(space, ATAIdentitySpace::CommandSets.code() as usize);
    let size: u32 = if command_sets / 0x400_0000 % 2 == 1 {
        read_le32(space, ATAIdentitySpace::MaxLBAExt.code() as usize)
    } else {
        read_le32(space, ATAIdentitySpace::MaxLBA.code() as usize)
    };
    let mut model: Vec<u8> = Vec::new();
    let start: usize = ATAIdentitySpace::Model.code() as usize;
    let mut k: usize = 0;
    while k < 40
        invariant
            k <= 40,
            k % 2 == 0,
            start == 0x36,
            space@.len() >= 204,
            model@.len() == k,
            forall|j: int| 0 <= j < k ==> model@[j] == model_text(space@)[j],
        decreases 40 - k,
    {
        model.push(space[start + k + 1]);
        model.push(space[start + k]);
        k += 2;
    }
    assert(model@ =~= model_text(space@));
    DriveIdentity {
        signature: read_le16(space, ATAIdentitySpace::DeviceType.code() as usize),
        capabilities: read_le16(space, ATAIdentitySpace::Capabilities.code() as usize),
        command_sets,
        size,
        model,
    }
}

/// The low 16 bits of a base address register without its low two bits.
pub open spec fn bar_port(bar: u32) -> u16 {
    ((bar - bar % 4) % 0x1_0000) as u16
}

/// Whether the bus master's ports that a base address register names leave
/// room for the second channel, eight ports behind the first.
pub fn bar_port_fits(bar: u32) -> (fits: bool)
    ensures
        fits == (bar_port(bar) + 8 <= u16::MAX),
{
    (bar - bar % 4) % 0x1_0000 <= 0xFFF7
}

/// The ports of the two channels of a controller with the programming
/// interface `progif`. In native mode (bit 0 set) they stand in the base
/// address registers: the first channel's in the first two, the second
/// channel's in the next two, the bus master's in the fifth, where the
/// second channel comes eight ports behind the first. In compatibility
/// mode they are the ports that every PC has. No channel interrupts.
pub fn channel_ports(progif: u8, bar0: u32, bar1: u32, bar2: u32, bar3: u32, bar4: u32) -> (channels: [IDEChannel; 2])
    requires
        progif % 2 == 1 ==> bar_port(bar4) + 8 <= u16::MAX,
    ensures
        channels@[0] == if progif % 2 == 1 {
            IDEChannel {
                base_io: bar_port(bar0),
                control_base: bar_port(bar1),
                bus_master_ide: bar_port(bar4),
                no_interrupt: true,
            }
        } else {
            IDEChannel { base_io: 0x1F0, control_base: 0x3F6, bus_master_ide: 0x00, no_interrupt: true }
        },
        channels@[1] == if progif % 2 == 1 {
            IDEChannel {
                base_io: bar_port(bar2),
                control_base: bar_port(bar3),
                bus_master_ide: (bar_port(bar4) + 8) as u16,
                no_interrupt: true,
            }
        } else {
            IDEChannel { base_io: 0x170, control_base: 0x376, bus_master_ide: 0x08, no_interrupt: true }
        },
{
    if progif % 2 == 1 {
        [
            IDEChannel {
                base_io: ((bar0 - bar0 % 4) % 0x1_0000) as u16,
                control_base: ((bar1 - bar1 % 4) % 0x1_0000) as u16,
                bus_master_ide: ((bar4 - bar4 % 4) % 0x1_0000) as u16,
                no_interrupt: true,
            },
            IDEChannel {
                base_io: ((bar2 - bar2 % 4) % 0x1_0000) as u16,
                control_base: ((bar3 - bar3 % 4) % 0x1_0000) as u16,
                bus_master_ide: ((bar4 - bar4 % 4) % 0x1_0000) as u16 + 0x08,
                no_interrupt: true,
            },
        ]
    } else {
        [
            IDEChannel { base_io: 0x1F0, control_base: 0x3F6, bus_master_ide: 0x00, no_interrupt: true },
            IDEChannel { base_io: 0x170, control_base: 0x376, bus_master_ide: 0x08, no_interrupt: true },
        ]
    }
}

/// The lowest bit of the error register `state` for which there is a
/// message, or `None` where none of its bits is set.
pub fn first_error(state: u8) -> (error: Option<ATAError>)
    ensures
        error == if state & 0x01 != 0 {
            Some(ATAError::NoAddressMark)
        } else if state & 0x02 != 0 {
            Some(ATAError::TrackZeroNotFound)
        } else if state & 0x04 != 0 {
            Some(ATAError::CommandAborted)
        } else if state & 0x08 != 0 {
            Some(ATAError::MediaChangeRequest)
        } else if state & 0x10 != 0 {
            Some(ATAError::IDMarkNotFound)
        } else if state & 0x20 != 0 {
            Some(ATAError::MediaChanged)
        } else if state & 0x40 != 0 {
            Some(ATAError::UncorrectableData)
        } else if state & 0x80 != 0 {
            Some(ATAError::BadBlock)
        } else {
            None
        },
{
    if ATAError::NoAddressMark.presence(state) {
        Some(ATAError::NoAddressMark)
    } else if ATAError::TrackZeroNotFound.presence(state) {
        Some(ATAError::TrackZeroNotFound)
    } else if ATAError::CommandAborted.presence(state) {
        Some(ATAError::CommandAborted)
    } else if ATAError::MediaChangeRequest.presence(state) {
        Some(ATAError::MediaChangeRequest)
    } else if ATAError::IDMarkNotFound.presence(state) {
        Some(ATAError::IDMarkNotFound)
    } else if ATAError::MediaChanged.presence(state) {
        Some(ATAError::MediaChanged)
    } else if ATAError::UncorrectableData.presence(state) {
        Some(ATAError::UncorrectableData)
    } else if ATAError::BadBlock.presence(state) {
        Some(ATAError::BadBlock)
    } else {
        None
    }
}

/// How a sector address is put to the drive.
#[derive(Clone, Copy, Debug, PartialEq, Eq, Structural)]
pub enum AddressingMode {
    /// Cylinder, head and sector.
    Chs,
    /// A 28-bit sector number.
    Lba28,
    /// A 48-bit sector number.
    Lba48,
}

/// What is written to the drive's registers for one transfer.
#[derive(Clone, Copy, Debug)]
pub struct AccessPlan {
    pub mode: AddressingMode,
    pub address: [u8; 6],
    pub head: u8,
    pub select: u8,
    pub command: ATACommand,
}

/// The addressing mode for sector `address` on a drive with the given
/// capabilities: 48 bits for addresses of 2^28 and more, else 28 bits where
/// the drive can do it (bit 9 of its capabilities), else cylinder, head and
/// sector.
pub open spec fn addressing_mode(capabilities: u16, address: u64) -> AddressingMode {
    if address >= 0x1000_0000 {
        AddressingMode::Lba48
    } else if capabilities / 0x200 % 2 == 1 {
        AddressingMode::Lba28
    } else {
        AddressingMode::Chs
    }
}

/// The six address bytes that go to the drive's registers.
pub open spec fn address_bytes(mode: AddressingMode, address: u64) -> Seq<u8> {
    match mode {
        AddressingMode::Lba48 => seq![
            (address % 256) as u8,
            (address / 0x100 % 256) as u8,
            (address / 0x1_0000 % 256) as u8,
            (address / 0x100_0000 % 256) as u8,
            (address / 0x1_0000_0000 % 256) as u8,
            (address / 0x100_0000_0000 % 256) as u8,
        ],
        AddressingMode::Lba28 => seq![
            (address % 256) as u8,
            (address / 0x100 % 256) as u8,
            (address / 0x1_0000 % 256) as u8,
            0u8,
            0u8,
            0u8,
        ],
        AddressingMode::Chs => seq![
            (address % 63 + 1) as u8,
            (address / 63 / 16 % 256) as u8,
            (address / 63 / 16 / 256 % 256) as u8,
            0u8,
            0u8,
            0u8,
        ],
    }
}

/// The head bits of the drive select register.
pub open spec fn head_bits(mode: AddressingMode, address: u64) -> u8 {
    match mode {
        AddressingMode::Lba48 => 0,
        AddressingMode::Lba28 => (address / 0x100_0000 % 16) as u8,
        AddressingMode::Chs => (address / 63 % 16) as u8,
    }
}

/// The command that starts the transfer.
pub open spec fn transfer_command(mode: AddressingMode, direction: ATADirection) -> ATACommand {
    match (mode, direction) {
        (AddressingMode::Lba48, ATADirection::Read) => ATACommand::ReadPIOExt,
        (AddressingMode::Lba48, ATADirection::Write) => ATACommand::WritePIOExt,
        (_, ATADirection::Read) => ATACommand::ReadPIO,
        (_, ATADirection::Write) => ATACommand::WritePIO,
    }
}

/// Plans one transfer in programmed I/O: the addressing mode, the address
/// bytes, the head bits, the value of the drive select register and the
/// command.
pub fn plan_access(direction: ATADirection, drive: ATADrive, capabilities: u16, address: u64) -> (plan:
    AccessPlan)
    ensures
        plan.mode == addressing_mode(capabilities, address),
        plan.address@ == address_bytes(plan.mode, address),
        plan.head == head_bits(plan.mode, address),
        plan.select == (if plan.mode == AddressingMode::Chs {
            0xA0int
        } else {
            0xE0int
        }) + 16 * drive.bits() + plan.head,
        plan.command == transfer_command(plan.mode, direction),
{
    let mode = if address >= 0x1000_0000 {
        AddressingMode::Lba48
    } else if capabilities / 0x200 % 2 == 1 {
        AddressingMode::Lba28
    } else {
        AddressingMode::Chs
    };
    let mut bytes: [u8; 6] = [0u8; 6];
    let head: u8;
    match mode {
        AddressingMode::Lba48 => {
            bytes[0] = (address % 256) as u8;
            bytes[1] = (address / 0x100 % 256) as u8;
            bytes[2] = (address / 0x1_0000 % 256) as u8;
            bytes[3] = (address / 0x100_0000 % 256) as u8;
            bytes[4] = (address / 0x1_0000_0000 % 256) as u8;
            bytes[5] = (address / 0x100_0000_0000 % 256) as u8;
            head = 0;
        },
        AddressingMode::Lba28 => {
            bytes[0] = (address % 256) as u8;
            bytes[1] = (address / 0x100 % 256) as u8;
            bytes[2] = (address / 0x1_0000 % 256) as u8;
            head = (address / 0x100_0000 % 16) as u8;
        },
        AddressingMode::Chs => {
            let sector: u8 = (address % 63 + 1) as u8;
            let cylinder: u64 = (address + 1 - sector as u64) / (16 * 63);
            bytes[0] = sector;
            bytes[1] = (cylinder % 256) as u8;
            bytes[2] = (cylinder / 256 % 256) as u8;
            head = ((address + 1 - sector as u64) % (16 * 63) / 63) as u8;
        },
    }
    assert(bytes@ =~= address_bytes(mode, address));
    let base: u8 = match mode {
        AddressingMode::Chs => 0xA0,
        _ => 0xE0,
    };
    let command = match (mode, direction) {
        (AddressingMode::Lba48, ATADirection::Read) => ATACommand::ReadPIOExt,
        (AddressingMode::Lba48, ATADirection::Write) => ATACommand::WritePIOExt,
        (_, ATADirection::Read) => ATACommand::ReadPIO,
        (_, ATADirection::Write) => ATACommand::WritePIO,
    };
    AccessPlan { mode, address: bytes, head, select: base + 16 * drive.code() + head, command }
}

/// What the status register says once the drive is no longer busy: a fault
/// where the error bit or the write fault bit is set or the drive asks for
/// no data, else readiness.
pub fn poll_status(state: u8) -> (result: Result<(), BlockError>)
    ensures
        result is Ok <==> (state & ATAStatus::Error.bits() == 0 && state
            & ATAStatus::DriveWriteFault.bits() == 0 && state & ATAStatus::DataRequestReady.bits()
            != 0),
        result is Err ==> result == Err::<(), BlockError>(BlockError::Fault),
{
    if ATAStatus::Error.presence(state) {
        return Err(BlockError::Fault);
    }
    if ATAStatus::DriveWriteFault.presence(state) {
        return Err(BlockError::Fault);
    }
    if !ATAStatus::DataRequestReady.presence(state) {
        return Err(BlockError::Fault);
    }
    Ok(())
}

} // verus!
