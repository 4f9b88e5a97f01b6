//! PCI configuration space: the device headers, the address that selects a
//! register, and the fields cut out of what was read.

use crate::drivers::port::PortWrite;
use vstd::prelude::*;

verus! {

/// The header that every PCI device starts with.
#[derive(Debug, Copy, Clone)]
pub struct PCIDeviceCommonHeader {
    pub vendor_id: u16,
    pub device_id: u16,
    pub command: u16,
    pub status: u16,
    pub revision_id: u8,
    pub prog_if: u8,
    pub subclass: u8,
    pub class_code: u8,
    pub cache_line_size: u8,
    pub latency_timer: u8,
    pub header_type: u8,
    pub bist: u8,
}

/// The header of a device of header type 0x00; it follows the common header.
#[derive(Debug, Copy, Clone)]
pub struct PCIDeviceHeader0x00 {
    pub bar0: u32,
    pub bar1: u32,
    pub bar2: u32,
    pub bar3: u32,
    pub bar4: u32,
    pub bar5: u32,
    pub cardbus_cis_pointer: u32,
    pub subsystem_vendor_id: u16,
    pub subsystem_id: u16,
    pub expansion_rom_bar: u32,
    pub capabilities_pointer: u8,
    pub reserved0: u8,
    pub reserved1: u16,
    pub reserved2: u32,
    pub interrupt_line: u8,
    pub interrupt_pin: u8,
    pub min_grant: u8,
    pub max_latency: u8,
}

/// The header of a device of header type 0x01; it follows the common header.
#[derive(Debug, Copy, Clone)]
pub struct PCIDeviceHeader0x01 {
    pub bar0: u32,
    pub bar1: u32,
    pub primary_bus_number: u8,
    pub secondary_bus_number: u8,
    pub subordinate_bus_number: u8,
    pub secondary_latency_timer: u8,
    pub io_base: u8,
    pub io_limit: u8,
    pub secondary_status: u16,
    pub memory_base: u16,
    pub memory_limit: u16,
    pub prefetchable_memory_base: u16,
    pub prefetchable_memory_limit: u16,
    pub prefetchable_base_upper_32: u32,
    pub prefetchable_limit_upper_32: u32,
    pub io_base_upper_16: u16,
    pub io_limit_upper_16: u16,
    pub capability_pointer: u8,
    pub reserved0: u8,
    pub reserved1: u16,
    pub expansion_rom_bar: u32,
    pub interrupt_line: u8,
    pub interrupt_pin: u8,
    pub bridge_control: u16,
}

/// The header of a device of header type 0x02; it follows the common header.
#[derive(Debug, Copy, Clone)]
pub struct PCIDeviceHeader0x02 {
    pub cardbus_socket_bar: u32,
    pub offset_capability_list: u8,
    pub reserved0: u8,
    pub secondary_status: u16,
    pub pci_bus_number: u8,
    pub cardbus_bus_number: u8,
    pub subordinate_bus_number: u8,
    pub cardbus_latency_timer: u8,
    pub mem_bar0: u32,
    pub mem_limit0: u32,
    pub mem_bar1: u32,
    pub mem_limit1: u32,
    pub io_bar0: u32,
    pub io_limit0: u32,
    pub io_bar1: u32,
    pub io_limit1: u32,
    pub interrupt_line: u8,
    pub interrupt_pin: u8,
    pub bridge_control: u16,
    pub subsystem_device_id: u16,
    pub subsystem_vendor_id: u16,
    pub pc_card_legacy_mode_bar: u32,
}

/// The low word and the high word of a double word.
pub fn words_of(raw: u32) -> (words: (u16, u16))
    ensures
        words.0 == raw % 0x1_0000,
        words.1 == raw / 0x1_0000,
{
    ((raw % 0x1_0000) as u16, (raw / 0x1_0000) as u16)
}

/// The four bytes of a double word, the lowest first.
pub fn bytes_of(raw: u32) -> (bytes: (u8, u8, u8, u8))
    ensures
        bytes.0 == raw % 0x100,
        bytes.1 == raw / 0x100 % 0x100,
        bytes.2 == raw / 0x1_0000 % 0x100,
        bytes.3 == raw / 0x100_0000,
{
    (
        (raw % 0x100) as u8,
        (raw / 0x100 % 0x100) as u8,
        (raw / 0x1_0000 % 0x100) as u8,
        (raw / 0x100_0000) as u8,
    )
}

impl PCIDeviceCommonHeader {
    /// The header that the first four double words of the configuration
    /// space hold.
    pub fn from_dwords(d: &[u32; 4]) -> (header: Self)
        ensures
            header.vendor_id == d@[0] % 0x1_0000,
            header.device_id == d@[0] / 0x1_0000,
            header.command == d@[1] % 0x1_0000,
            header.status == d@[1] / 0x1_0000,
            header.revision_id == d@[2] % 0x100,
            header.prog_if == d@[2] / 0x100 % 0x100,
            header.subclass == d@[2] / 0x1_0000 % 0x100,
            header.class_code == d@[2] / 0x100_0000,
            header.cache_line_size == d@[3] % 0x100,
            header.latency_timer == d@[3] / 0x100 % 0x100,
            header.header_type == d@[3] / 0x1_0000 % 0x100,
            header.bist == d@[3] / 0x100_0000,
    {
        let ids = words_of(d[0]);
        let state = words_of(d[1]);
        let kind = bytes_of(d[2]);
        let misc = bytes_of(d[3]);
        PCIDeviceCommonHeader {
            vendor_id: ids.0,
            device_id: ids.1,
            command: state.0,
            status: state.1,
            revision_id: kind.0,
            prog_if: kind.1,
            subclass: kind.2,
            class_code: kind.3,
            cache_line_size: misc.0,
            latency_timer: misc.1,
            header_type: misc.2,
            bist: misc.3,
        }
    }
}

impl PCIDeviceHeader0x00 {
    /// The header that the twelve double words from offset 0x10 on hold.
    pub fn from_dwords(d: &[u32; 12]) -> (header: Self)
        ensures
            header.bar0 == d@[0],
            header.bar1 == d@[1],
            header.bar2 == d@[2],
            header.bar3 == d@[3],
            header.bar4 == d@[4],
            header.bar5 == d@[5],
            header.cardbus_cis_pointer == d@[6],
            header.subsystem_vendor_id == d@[7] % 0x1_0000,
            header.subsystem_id == d@[7] / 0x1_0000,
            header.expansion_rom_bar == d@[8],
            header.capabilities_pointer == d@[9] % 0x100,
            header.reserved0 == d@[9] / 0x100 % 0x100,
            header.reserved1 == d@[9] / 0x1_0000,
            header.reserved2 == d@[10],
            header.interrupt_line == d@[11] % 0x100,
            header.interrupt_pin == d@[11] / 0x100 % 0x100,
            header.min_grant == d@[11] / 0x1_0000 % 0x100,
            header.max_latency == d@[11] / 0x100_0000,
    {
        let subsystem = words_of(d[7]);
        let capabilities = bytes_of(d[9]);
        let interrupt = bytes_of(d[11]);
        PCIDeviceHeader0x00 {
            bar0: d[0],
            bar1: d[1],
            bar2: d[2],
            bar3: d[3],
            bar4: d[4],
            bar5: d[5],
            cardbus_cis_pointer: d[6],
            subsystem_vendor_id: subsystem.0,
            subsystem_id: subsystem.1,
            expansion_rom_bar: d[8],
            capabilities_pointer: capabilities.0,
            reserved0: capabilities.1,
            reserved1: words_of(d[9]).1,
            reserved2: d[10],
            interrupt_line: interrupt.0,
            interrupt_pin: interrupt.1,
            min_grant: interrupt.2,
            max_latency: interrupt.3,
        }
    }
}

impl PCIDeviceHeader0x01 {
    /// The header that the twelve double words from offset 0x10 on hold.
    pub fn from_dwords(d: &[u32; 12]) -> (header: Self)
        ensures
            header.bar0 == d@[0],
            header.bar1 == d@[1],
            header.primary_bus_number == d@[2] % 0x100,
            header.secondary_bus_number == d@[2] / 0x100 % 0x100,
            header.subordinate_bus_number == d@[2] / 0x1_0000 % 0x100,
            header.secondary_latency_timer == d@[2] / 0x100_0000,
            header.io_base == d@[3] % 0x100,
            header.io_limit == d@[3] / 0x100 % 0x100,
            header.secondary_status == d@[3] / 0x1_0000,
            header.memory_base == d@[4] % 0x1_0000,
            header.memory_limit == d@[4] / 0x1_0000,
            header.prefetchable_memory_base == d@[5] % 0x1_0000,
            header.prefetchable_memory_limit == d@[5] / 0x1_0000,
            header.prefetchable_base_upper_32 == d@[6],
            header.prefetchable_limit_upper_32 == d@[7],
            header.io_base_upper_16 == d@[8] % 0x1_0000,
            header.io_limit_upper_16 == d@[8] / 0x1_0000,
            header.capability_pointer == d@[9] % 0x100,
            header.reserved0 == d@[9] / 0x100 % 0x100,
            header.reserved1 == d@[9] / 0x1_0000,
            header.expansion_rom_bar == d@[10],
            header.interrupt_line == d@[11] % 0x100,
            header.interrupt_pin == d@[11] / 0x100 % 0x100,
            header.bridge_control == d@[11] / 0x1_0000,
    {
        let buses = bytes_of(d[2]);
        let io = bytes_of(d[3]);
        let memory = words_of(d[4]);
        let prefetchable = words_of(d[5]);
        let io_upper = words_of(d[8]);
        let capability = bytes_of(d[9]);
        let interrupt = bytes_of(d[11]);
        PCIDeviceHeader0x01 {
            bar0: d[0],
            bar1: d[1],
            primary_bus_number: buses.0,
            secondary_bus_number: buses.1,
            subordinate_bus_number: buses.2,
            secondary_latency_timer: buses.3,
            io_base: io.0,
            io_limit: io.1,
            secondary_status: words_of(d[3]).1,
            memory_base: memory.0,
            memory_limit: memory.1,
            prefetchable_memory_base: prefetchable.0,
            prefetchable_memory_limit: prefetchable.1,
            prefetchable_base_upper_32: d[6],
            prefetchable_limit_upper_32: d[7],
            io_base_upper_16: io_upper.0,
            io_limit_upper_16: io_upper.1,
            capability_pointer: capability.0,
            reserved0: capability.1,
            reserved1: words_of(d[9]).1,
            expansion_rom_bar: d[10],
            interrupt_line: interrupt.0,
            interrupt_pin: interrupt.1,
            bridge_control: words_of(d[11]).1,
        }
    }
}

impl PCIDeviceHeader0x02 {
    /// The header that the fourteen double words from offset 0x10 on hold.
    pub fn from_dwords(d: &[u32; 14]) -> (header: Self)
        ensures
            header.cardbus_socket_bar == d@[0],
            header.offset_capability_list == d@[1] % 0x100,
            header.reserved0 == d@[1] / 0x100 % 0x100,
            header.secondary_status == d@[1] / 0x1_0000,
            header.pci_bus_number == d@[2] % 0x100,
            header.cardbus_bus_number == d@[2] / 0x100 % 0x100,
            header.subordinate_bus_number == d@[2] / 0x1_0000 % 0x100,
            header.cardbus_latency_timer == d@[2] / 0x100_0000,
            header.mem_bar0 == d@[3],
            header.mem_limit0 == d@[4],
            header.mem_bar1 == d@[5],
            header.mem_limit1 == d@[6],
            header.io_bar0 == d@[7],
            header.io_limit0 == d@[8],
            header.io_bar1 == d@[9],
            header.io_limit1 == d@[10],
            header.interrupt_line == d@[11] % 0x100,
            header.interrupt_pin == d@[11] / 0x100 % 0x100,
            header.bridge_control == d@[11] / 0x1_0000,
            header.subsystem_device_id == d@[12] % 0x1_0000,
            header.subsystem_vendor_id == d@[12] / 0x1_0000,
            header.pc_card_legacy_mode_bar == d@[13],
    {
        let capability = bytes_of(d[1]);
        let buses = bytes_of(d[2]);
        let interrupt = bytes_of(d[11]);
        let subsystem = words_of(d[12]);
        PCIDeviceHeader0x02 {
            cardbus_socket_bar: d[0],
            offset_capability_list: capability.0,
            reserved0: capability.1,
            secondary_status: words_of(d[1]).1,
            pci_bus_number: buses.0,
            cardbus_bus_number: buses.1,
            subordinate_bus_number: buses.2,
            cardbus_latency_timer: buses.3,
            mem_bar0: d[3],
            mem_limit0: d[4],
            mem_bar1: d[5],
            mem_limit1: d[6],
            io_bar0: d[7],
            io_limit0: d[8],
            io_bar1: d[9],
            io_limit1: d[10],
            interrupt_line: interrupt.0,
            interrupt_pin: interrupt.1,
            bridge_control: words_of(d[11]).1,
            subsystem_device_id: subsystem.0,
            subsystem_vendor_id: subsystem.1,
            pc_card_legacy_mode_bar: d[13],
        }
    }
}

/// The port to which the address of a configuration register is written.
pub const CONFIG_ADDRESS: u16 = 0xCF8;

/// The port at which the register then stands.
pub const CONFIG_DATA: u16 = 0xCFC;

/// The address that selects a configuration register: the enable bit, the
/// bus, the low five bits of the slot, the low two bits of the function, and
/// `offset` with those of its low bits cleared that `keep_low` does not keep.
pub open spec fn config_address(bus: u8, slot: u8, function: u8, offset: u8) -> u32 {
    (0x8000_0000 + bus * 0x1_0000 + (slot % 32) * 0x800 + (function % 4) * 0x100 + (offset - offset
        % 4)) as u32
}

/// The address that selects the double word in which `offset` lies.
pub fn pci_config_address(bus: u8, slot: u8, function: u8, offset: u8) -> (address: u32)
    ensures
        address == config_address(bus, slot, function, offset),
{
    0x8000_0000u32 + (bus as u32) * 0x1_0000 + ((slot % 32) as u32) * 0x800 + ((function % 4) as u32)
        * 0x100 + (offset - offset % 4) as u32
}

/// The address that is written before a byte is written to the data port:
/// as [`pci_config_address`], with all bits of `offset`.
pub fn pci_write_address(bus: u8, slot: u8, function: u8, offset: u8) -> (address: u32)
    ensures
        address == 0x8000_0000 + bus * 0x1_0000 + (slot % 32) * 0x800 + (function % 4) * 0x100
            + offset,
{
    0x8000_0000u32 + (bus as u32) * 0x1_0000 + ((slot % 32) as u32) * 0x800 + ((function % 4) as u32)
        * 0x100 + offset as u32
}

/// The word of the double word `raw` in which `offset` lies: the high word
/// where bit 1 of `offset` is set, else the low word.
pub fn pci_word(raw: u32, offset: u8) -> (word: u16)
    ensures
        word == if offset / 2 % 2 == 1 {
            raw / 0x1_0000
        } else {
            raw % 0x1_0000
        },
{
    if offset / 2 % 2 == 1 {
        (raw / 0x1_0000) as u16
    } else {
        (raw % 0x1_0000) as u16
    }
}

/// The byte of the word `word` at `offset`: the high byte where `offset`
/// is odd, else the low byte.
pub fn pci_byte(word: u16, offset: u8) -> (byte: u8)
    ensures
        byte == if offset % 2 == 1 {
            word / 0x100
        } else {
            word % 0x100
        },
{
    if offset % 2 == 1 {
        (word / 0x100) as u8
    } else {
        (word % 0x100) as u8
    }
}

/// The write that selects the double word in which `offset` lies, so that
/// it can be read from the data port.
pub fn pci_read_u32(bus: u8, slot: u8, function: u8, offset: u8) -> (select: PortWrite)
    ensures
        select == PortWrite::Dword(CONFIG_ADDRESS, config_address(bus, slot, function, offset)),
{
    PortWrite::Dword(CONFIG_ADDRESS, pci_config_address(bus, slot, function, offset))
}

/// The word at `offset` of the double word `raw`, read after
/// [`pci_read_u32`] selected it.
pub fn pci_read_u16(raw: u32, offset: u8) -> (word: u16)
    ensures
        word == if offset / 2 % 2 == 1 {
            raw / 0x1_0000
        } else {
            raw % 0x1_0000
        },
{
    pci_word(raw, offset)
}

/// The byte at `offset` of the double word `raw`, read after
/// [`pci_read_u32`] selected it.
pub fn pci_read_u8(raw: u32, offset: u8) -> (byte: u8)
    ensures
        byte == (raw as int) / byte_unit(offset) % 256,
{
    let word: u16 = pci_word(raw, offset);
    pci_byte(word, offset)
}

/// What the byte at `offset` counts in its double word: 256 to the power of
/// the offset's low two bits.
pub open spec fn byte_unit(offset: u8) -> int {
    if offset % 4 == 0 {
        1
    } else if offset % 4 == 1 {
        0x100
    } else if offset % 4 == 2 {
        0x1_0000
    } else {
        0x100_0000
    }
}

/// The writes that store `data` in the configuration register at `offset`:
/// the address to the address port, the byte to the data port.
pub fn pci_write_u8(bus: u8, slot: u8, function: u8, offset: u8, data: u8) -> (writes: Vec<
    PortWrite,
>)
    ensures
        writes@ == seq![
            PortWrite::Dword(
                CONFIG_ADDRESS,
                (0x8000_0000 + bus * 0x1_0000 + (slot % 32) * 0x800 + (function % 4) * 0x100
                    + offset) as u32,
            ),
            PortWrite::Byte(CONFIG_DATA, data),
        ],
{
    let mut writes: Vec<PortWrite> = Vec::new();
    writes.push(PortWrite::Dword(CONFIG_ADDRESS, pci_write_address(bus, slot, function, offset)));
    writes.push(PortWrite::Byte(CONFIG_DATA, data));
    writes
}

/// The vendor of a device, from the first double word of its header.
pub fn pci_get_vendor_id(raw: u32) -> (id: u16)
    ensures
        id == raw % 0x1_0000,
{
    pci_read_u16(raw, 0x00)
}

/// The device's own number, from the first double word of its header.
pub fn pci_get_device_id(raw: u32) -> (id: u16)
    ensures
        id == raw / 0x1_0000,
{
    pci_read_u16(raw, 0x02)
}

/// The class of a device, from the third double word of its header.
pub fn pci_get_class(raw: u32) -> (class: u8)
    ensures
        class == raw / 0x100_0000,
{
    pci_read_u8(raw, 0xB)
}

/// The subclass of a device, from the third double word of its header.
pub fn pci_get_subclass(raw: u32) -> (subclass: u8)
    ensures
        subclass == raw / 0x1_0000 % 256,
{
    pci_read_u8(raw, 0xA)
}

/// The programming interface of a device, from the third double word of
/// its header.
pub fn pci_get_progif(raw: u32) -> (progif: u8)
    ensures
        progif == raw / 0x100 % 256,
{
    pci_read_u8(raw, 0x9)
}

/// The header type of a device, from the fourth double word of its header.
pub fn pci_get_header_type(raw: u32) -> (header_type: u8)
    ensures
        header_type == raw / 0x1_0000 % 256,
{
    pci_read_u8(raw, 0xE)
}

/// What was read of one function of a device.
#[derive(Debug, Copy, Clone)]
pub struct PciProbe {
    pub vendor_id: u16,
    pub class: u8,
    pub subclass: u8,
    pub header_type: u8,
}

/// The place of function `function` of the device in slot `slot` of bus
/// `bus` in a table of all functions.
pub open spec fn probe_index(bus: int, slot: int, function: int) -> int {
    (bus * 32 + slot) * 8 + function
}

/// Whether function `function` of a device answers the search: function 0
/// where it has the class and subclass, another one where the device has
/// more than one function and function 0 does not answer already.
pub open spec fn probe_answers(probes: Seq<PciProbe>, class: u8, subclass: u8, device: int, function: int) -> bool {
    &&& probes[device * 8].vendor_id != 0xFFFF
    &&& probes[device * 8 + function].class == class
    &&& probes[device * 8 + function].subclass == subclass
    &&& (function > 0 ==> probes[device * 8].header_type >= 0x80)
}

/// The first function from place `at` on that answers the search, or the
/// end of the table.
pub open spec fn first_answer(probes: Seq<PciProbe>, class: u8, subclass: u8, at: int) -> int
    decreases 65536 - at,
{
    if at < 0 || at >= 65536 {
        65536
    } else if probe_answers(probes, class, subclass, at / 8, at % 8) {
        at
    } else {
        first_answer(probes, class, subclass, at + 1)
    }
}

/// The bus, slot and function of the first device function with the given
/// class and subclass, in the order of buses, slots and functions, or `None`
/// where there is none. `probes` holds what was read of each function of
/// each slot of each bus. Slots without a device (vendor 0xFFFF) are passed
/// over, and so are the further functions of a device with one function.
pub fn pci_device_search_by_class_subclass(probes: &[PciProbe], class: u8, subclass: u8) -> (found:
    Option<(u8, u8, u8)>)
    requires
        probes@.len() == 65536,
    ensures
        first_answer(probes@, class, subclass, 0) >= 65536 ==> found is None,
        first_answer(probes@, class, subclass, 0) < 65536 ==> found is Some && probe_index(
            found->Some_0.0 as int,
            found->Some_0.1 as int,
            found->Some_0.2 as int,
        ) == first_answer(probes@, class, subclass, 0) && found->Some_0.1 < 32 && found->Some_0.2
            < 8,
{
    let mut at: usize = 0;
    while at < 65536
        invariant
            at <= 65536,
            probes@.len() == 65536,
            first_answer(probes@, class, subclass, 0) == first_answer(
                probes@,
                class,
                subclass,
                at as int,
            ),
        decreases 65536 - at,
    {
        let device: usize = at / 8;
        let function: usize = at % 8;
        let first = probes[device * 8];
        let this = probes[at];
        if first.vendor_id != 0xFFFF && this.class == class && this.subclass == subclass && (
        function == 0 || pci_is_multifunction(first.header_type)) {
            return Some(((device / 32) as u8, (device % 32) as u8, function as u8));
        }
        at += 1;
    }
    None
}

/// The address that a base address register holds: the register without
/// its low two bits for an I/O register (bit 0 set), without its low four
/// bits for a memory register.
pub fn pci_get_bar_address(bar: u32) -> (address: u32)
    ensures
        address == if bar % 2 == 1 {
            bar - bar % 4
        } else {
            bar - bar % 16
        },
{
    if bar % 2 == 1 {
        return bar - bar % 4;
    }
    bar - bar % 16
}

/// Whether a device with this header type has more than one function.
pub fn pci_is_multifunction(header_type: u8) -> (multi: bool)
    ensures
        multi == (header_type >= 0x80),
{
    header_type >= 0x80
}

} // verus!
