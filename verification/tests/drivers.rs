use kernel_core::drivers::ac97::{generate_noise, sound_is_playing, waste_time, AC97};
use kernel_core::drivers::block::BlockError;
use kernel_core::drivers::ide::{
    bar_port_fits, channel_ports, first_error, parse_identity, plan_access, poll_status, ATAChannel, ATACommand, ATADirection, ATADrive, ATADriveType,
    ATAError, ATAIdentitySpace, ATAPICommand, ATARegister, ATAStatus, AddressingMode, IDEChannel,
};
use kernel_core::drivers::pci::{
    bytes_of, words_of, PCIDeviceCommonHeader, PCIDeviceHeader0x00, PCIDeviceHeader0x01,
    PCIDeviceHeader0x02, pci_byte, pci_config_address, pci_device_search_by_class_subclass, pci_get_bar_address,
    pci_get_class, pci_get_device_id, pci_get_header_type, pci_get_progif, pci_get_subclass,
    pci_get_vendor_id, pci_is_multifunction, pci_read_u16, pci_read_u32, pci_read_u8, pci_word,
    pci_write_address, pci_write_u8, PciProbe,
};
use kernel_core::drivers::port::PortWrite;
use kernel_core::misc::rand::Rng;
use kernel_core::tooling::panic_handler::format_line_number;

#[test]
fn status_bits() {
    assert_eq!(ATAStatus::Busy.code(), 0x80);
    assert_eq!(ATAStatus::DriveReady.code(), 0x40);
    assert_eq!(ATAStatus::DriveWriteFault.code(), 0x20);
    assert_eq!(ATAStatus::DriveSeekComplete.code(), 0x10);
    assert_eq!(ATAStatus::DataRequestReady.code(), 0x08);
    assert_eq!(ATAStatus::CorrectedData.code(), 0x04);
    assert_eq!(ATAStatus::Index.code(), 0x02);
    assert_eq!(ATAStatus::Error.code(), 0x01);
    assert!(ATAStatus::Busy.presence(0x80));
    assert!(ATAStatus::Busy.presence(0xFF));
    assert!(!ATAStatus::Busy.presence(0x7F));
    assert!(ATAStatus::DataRequestReady.presence(0x58));
    assert!(!ATAStatus::Error.presence(0x58));
    assert!(!ATAStatus::Error.presence(0));
}

#[test]
fn error_bits() {
    assert_eq!(ATAError::BadBlock.code(), 0x80);
    assert_eq!(ATAError::UncorrectableData.code(), 0x40);
    assert_eq!(ATAError::MediaChanged.code(), 0x20);
    assert_eq!(ATAError::IDMarkNotFound.code(), 0x10);
    assert_eq!(ATAError::MediaChangeRequest.code(), 0x08);
    assert_eq!(ATAError::CommandAborted.code(), 0x04);
    assert_eq!(ATAError::TrackZeroNotFound.code(), 0x02);
    assert_eq!(ATAError::NoAddressMark.code(), 0x01);
    assert!(ATAError::CommandAborted.presence(0x04));
    assert!(ATAError::CommandAborted.presence(0x05));
    assert!(!ATAError::CommandAborted.presence(0xFB));
}

#[test]
fn command_and_register_codes() {
    assert_eq!(ATACommand::ReadPIO.code(), 0x20);
    assert_eq!(ATACommand::ReadPIOExt.code(), 0x24);
    assert_eq!(ATACommand::ReadDMA.code(), 0xC8);
    assert_eq!(ATACommand::ReadDMAExt.code(), 0x25);
    assert_eq!(ATACommand::WritePIO.code(), 0x30);
    assert_eq!(ATACommand::WritePIOExt.code(), 0x34);
    assert_eq!(ATACommand::WriteDMA.code(), 0xCA);
    assert_eq!(ATACommand::WriteDMAExt.code(), 0x35);
    assert_eq!(ATACommand::CacheFlush.code(), 0xE7);
    assert_eq!(ATACommand::CacheFlushExt.code(), 0xEA);
    assert_eq!(ATACommand::Packet.code(), 0xA0);
    assert_eq!(ATACommand::IdentityPacket.code(), 0xA1);
    assert_eq!(ATACommand::Identity.code(), 0xEC);
    assert_eq!(ATACommand::Nothing.code(), 0xFF);
    assert_eq!(ATAPICommand::CommandRead.code(), 0xA8);
    assert_eq!(ATAPICommand::CommandEject.code(), 0x1B);
    assert_eq!(ATAIdentitySpace::DeviceType.code(), 0x00);
    assert_eq!(ATAIdentitySpace::Model.code(), 0x36);
    assert_eq!(ATAIdentitySpace::Capabilities.code(), 0x62);
    assert_eq!(ATAIdentitySpace::MaxLBA.code(), 0x78);
    assert_eq!(ATAIdentitySpace::CommandSets.code(), 0xA4);
    assert_eq!(ATAIdentitySpace::MaxLBAExt.code(), 0xC8);
    assert_eq!(ATARegister::Data.code(), 0x00);
    assert_eq!(ATARegister::HDDEvsel.code(), 0x06);
    assert_eq!(ATARegister::CommandORStatus.code(), 0x07);
    assert_eq!(ATARegister::Seccount1.code(), 0x08);
    assert_eq!(ATARegister::LBA5.code(), 0x0B);
    assert_eq!(ATARegister::ControlORAltStatus.code(), 0x0C);
    assert_eq!(ATARegister::DEVAddress.code(), 0x0D);
    assert_eq!(ATADirection::Read.code(), 0);
    assert_eq!(ATADirection::Write.code(), 1);
}

#[test]
fn channel_and_drive_from_code() {
    assert_eq!(ATAChannel::from_code(0), Some(ATAChannel::Primary));
    assert_eq!(ATAChannel::from_code(1), Some(ATAChannel::Secondary));
    assert_eq!(ATAChannel::from_code(2), None);
    assert_eq!(ATADrive::from_code(0), Some(ATADrive::Master));
    assert_eq!(ATADrive::from_code(1), Some(ATADrive::Slave));
    assert_eq!(ATADrive::from_code(0xFF), None);
    assert_eq!(ATADriveType::from_code(0), Some(ATADriveType::ATA));
    assert_eq!(ATADriveType::from_code(1), Some(ATADriveType::ATAPI));
    assert_eq!(ATADriveType::from_code(7), None);
    assert_eq!(ATAChannel::Secondary.code(), 1);
    assert_eq!(ATADrive::Slave.code(), 1);
}

#[test]
fn register_ports() {
    let channel = IDEChannel { base_io: 0x1F0, control_base: 0x3F6, bus_master_ide: 0, no_interrupt: true };
    assert_eq!(channel.port(ATARegister::Data), Some(0x1F0));
    assert_eq!(channel.port(ATARegister::CommandORStatus), Some(0x1F7));
    assert_eq!(channel.port(ATARegister::Seccount1), Some(0x1F2));
    assert_eq!(channel.port(ATARegister::LBA5), Some(0x1F5));
    assert_eq!(channel.port(ATARegister::ControlORAltStatus), Some(0x3F8));
    assert_eq!(channel.port(ATARegister::DEVAddress), Some(0x3F9));
    let high = IDEChannel { base_io: 0xFFFE, control_base: 0xFFFF, bus_master_ide: 0, no_interrupt: true };
    assert_eq!(high.port(ATARegister::ErrorORFeatures), Some(0xFFFF));
    assert_eq!(high.port(ATARegister::Seccount0), None);
    assert_eq!(high.port(ATARegister::ControlORAltStatus), None);
    assert!(!IDEChannel::needs_high_order(ATARegister::CommandORStatus));
    assert!(IDEChannel::needs_high_order(ATARegister::Seccount1));
    assert!(IDEChannel::needs_high_order(ATARegister::LBA5));
    assert!(!IDEChannel::needs_high_order(ATARegister::ControlORAltStatus));
}

#[test]
fn access_plan_lba48() {
    let plan = plan_access(ATADirection::Read, ATADrive::Master, 0x200, 0x0000_0605_0403_0201);
    assert_eq!(plan.mode, AddressingMode::Lba48);
    assert_eq!(plan.address, [0x01, 0x02, 0x03, 0x04, 0x05, 0x06]);
    assert_eq!(plan.head, 0);
    assert_eq!(plan.select, 0xE0);
    assert_eq!(plan.command, ATACommand::ReadPIOExt);
    let plan = plan_access(ATADirection::Write, ATADrive::Slave, 0, 0x1000_0000);
    assert_eq!(plan.mode, AddressingMode::Lba48);
    assert_eq!(plan.address, [0, 0, 0, 0x10, 0, 0]);
    assert_eq!(plan.select, 0xF0);
    assert_eq!(plan.command, ATACommand::WritePIOExt);
}

#[test]
fn access_plan_lba28() {
    let plan = plan_access(ATADirection::Read, ATADrive::Slave, 0x200, 0x0ABC_DEF1);
    assert_eq!(plan.mode, AddressingMode::Lba28);
    assert_eq!(plan.address, [0xF1, 0xDE, 0xBC, 0, 0, 0]);
    assert_eq!(plan.head, 0x0A);
    assert_eq!(plan.select, 0xE0 | 0x10 | 0x0A);
    assert_eq!(plan.command, ATACommand::ReadPIO);
    let plan = plan_access(ATADirection::Write, ATADrive::Master, 0xFFFF, 5);
    assert_eq!(plan.mode, AddressingMode::Lba28);
    assert_eq!(plan.address, [5, 0, 0, 0, 0, 0]);
    assert_eq!(plan.select, 0xE0);
    assert_eq!(plan.command, ATACommand::WritePIO);
}

#[test]
fn access_plan_chs() {
    // sector 1000 of a drive of 16 heads and 63 sectors: cylinder 0, head 15, sector 56
    let plan = plan_access(ATADirection::Read, ATADrive::Master, 0x0100, 1000);
    assert_eq!(plan.mode, AddressingMode::Chs);
    assert_eq!(plan.address, [56, 0, 0, 0, 0, 0]);
    assert_eq!(plan.head, 15);
    assert_eq!(plan.select, 0xA0 | 15);
    assert_eq!(plan.command, ATACommand::ReadPIO);
    // sector 1_000_000: cylinder 992, head 1, sector 2
    let plan = plan_access(ATADirection::Write, ATADrive::Slave, 0, 1_000_000);
    assert_eq!(plan.address, [2, 0xE0, 0x03, 0, 0, 0]);
    assert_eq!(plan.head, 1);
    assert_eq!(plan.select, 0xA0 | 0x10 | 1);
    assert_eq!(plan.command, ATACommand::WritePIO);
    let plan = plan_access(ATADirection::Read, ATADrive::Master, 0, 0);
    assert_eq!(plan.address, [1, 0, 0, 0, 0, 0]);
    assert_eq!(plan.head, 0);
}

#[test]
fn polling_decides_on_the_status() {
    assert_eq!(poll_status(0x08), Ok(()));
    assert_eq!(poll_status(0x58), Ok(()));
    assert_eq!(poll_status(0x09), Err(BlockError::Fault));
    assert_eq!(poll_status(0x28), Err(BlockError::Fault));
    assert_eq!(poll_status(0x50), Err(BlockError::Fault));
    assert_eq!(poll_status(0x00), Err(BlockError::Fault));
}

#[test]
fn pci_configuration_address() {
    assert_eq!(pci_config_address(0, 0, 0, 0), 0x8000_0000);
    assert_eq!(pci_config_address(1, 2, 3, 0x10), 0x8001_1310);
    assert_eq!(pci_config_address(0xFF, 0x1F, 0x03, 0xFC), 0x80FF_FBFC);
    assert_eq!(pci_config_address(0, 0x3F, 0x07, 0xFF), 0x8000_FBFC);
    assert_eq!(pci_config_address(0, 0x20, 0x04, 0x03), 0x8000_0000);
    assert_eq!(pci_write_address(1, 2, 3, 0x13), 0x8001_1313);
    assert_eq!(pci_read_u32(1, 2, 3, 0x13), PortWrite::Dword(0xCF8, 0x8001_1310));
    assert_eq!(
        pci_write_u8(0, 1, 0, 0x04, 0x05),
        vec![PortWrite::Dword(0xCF8, 0x8000_0804), PortWrite::Byte(0xCFC, 0x05)]
    );
    assert_eq!(PortWrite::Dword(0xCF8, 1).port(), 0xCF8);
    assert_eq!(PortWrite::Word(0x3C4, 1).port(), 0x3C4);
    assert_eq!(PortWrite::Byte(0x61, 1).port(), 0x61);
}

#[test]
fn pci_fields_are_cut_out_of_the_double_word() {
    let raw = 0xAABB_CCDD;
    assert_eq!(pci_word(raw, 0), 0xCCDD);
    assert_eq!(pci_word(raw, 1), 0xCCDD);
    assert_eq!(pci_word(raw, 2), 0xAABB);
    assert_eq!(pci_word(raw, 3), 0xAABB);
    assert_eq!(pci_word(raw, 0x0E), 0xAABB);
    assert_eq!(pci_read_u16(raw, 0x0C), 0xCCDD);
    assert_eq!(pci_byte(0xCCDD, 0), 0xDD);
    assert_eq!(pci_byte(0xCCDD, 1), 0xCC);
    assert_eq!(pci_read_u8(raw, 0), 0xDD);
    assert_eq!(pci_read_u8(raw, 1), 0xCC);
    assert_eq!(pci_read_u8(raw, 2), 0xBB);
    assert_eq!(pci_read_u8(raw, 3), 0xAA);
    assert_eq!(pci_read_u8(raw, 0x0B), 0xAA);
    assert_eq!(pci_get_vendor_id(0x1234_8086), 0x8086);
    assert_eq!(pci_get_device_id(0x1234_8086), 0x1234);
    assert_eq!(pci_get_class(0x0101_8A02), 0x01);
    assert_eq!(pci_get_subclass(0x0102_8A02), 0x02);
    assert_eq!(pci_get_progif(0x0101_8A02), 0x8A);
    assert_eq!(pci_get_header_type(0x0080_4008), 0x80);
}

#[test]
fn base_address_registers() {
    assert_eq!(pci_get_bar_address(0x0000_C001), 0x0000_C000);
    assert_eq!(pci_get_bar_address(0x0000_C003), 0x0000_C000);
    assert_eq!(pci_get_bar_address(0x0000_C00F), 0x0000_C00C);
    assert_eq!(pci_get_bar_address(0xFEBF_000C), 0xFEBF_0000);
    assert_eq!(pci_get_bar_address(0xFEBF_0008), 0xFEBF_0000);
    assert_eq!(pci_get_bar_address(0), 0);
    assert_eq!(pci_get_bar_address(0xFFFF_FFFF), 0xFFFF_FFFC);
    assert!(pci_is_multifunction(0x80));
    assert!(pci_is_multifunction(0x81));
    assert!(!pci_is_multifunction(0x7F));
}

fn no_devices() -> Vec<PciProbe> {
    vec![PciProbe { vendor_id: 0xFFFF, class: 0xFF, subclass: 0xFF, header_type: 0xFF }; 65536]
}

fn place(bus: usize, slot: usize, function: usize) -> usize {
    (bus * 32 + slot) * 8 + function
}

#[test]
fn search_by_class_finds_the_first_device() {
    let mut probes = no_devices();
    assert_eq!(pci_device_search_by_class_subclass(&probes, 1, 1), None);
    probes[place(0, 1, 0)] = PciProbe { vendor_id: 0x8086, class: 0x06, subclass: 0x01, header_type: 0x80 };
    probes[place(0, 1, 1)] = PciProbe { vendor_id: 0x8086, class: 0x01, subclass: 0x01, header_type: 0x00 };
    probes[place(3, 4, 0)] = PciProbe { vendor_id: 0x8086, class: 0x01, subclass: 0x01, header_type: 0x00 };
    assert_eq!(pci_device_search_by_class_subclass(&probes, 1, 1), Some((0, 1, 1)));
    assert_eq!(pci_device_search_by_class_subclass(&probes, 6, 1), Some((0, 1, 0)));
    assert_eq!(pci_device_search_by_class_subclass(&probes, 4, 1), None);
    // further functions of a device with one function are passed over
    probes[place(0, 1, 0)].header_type = 0x00;
    assert_eq!(pci_device_search_by_class_subclass(&probes, 1, 1), Some((3, 4, 0)));
    // and so is a slot without device
    probes[place(3, 4, 0)].vendor_id = 0xFFFF;
    assert_eq!(pci_device_search_by_class_subclass(&probes, 1, 1), None);
    probes[place(255, 31, 7)] = PciProbe { vendor_id: 1, class: 1, subclass: 1, header_type: 0 };
    probes[place(255, 31, 0)] = PciProbe { vendor_id: 1, class: 9, subclass: 9, header_type: 0x80 };
    assert_eq!(pci_device_search_by_class_subclass(&probes, 1, 1), Some((255, 31, 7)));
}

#[test]
fn sound_card_helpers() {
    let _card = AC97::new();
    assert_eq!(AC97::control_bits(0x00), 0x05);
    assert_eq!(AC97::control_bits(0x82), 0x87);
    assert!(sound_is_playing(0x0002));
    assert!(sound_is_playing(0xFFFF));
    assert!(!sound_is_playing(0xFFFD));
    waste_time(0);
    waste_time(1000);
}

#[test]
fn noise_is_the_low_bits_of_the_generator() {
    let mut rng = Rng::test();
    let mut twin = Rng::test();
    let noise = generate_noise(&mut rng);
    assert_eq!(noise.len(), 1024);
    for sample in &noise {
        assert_eq!(*sample, (twin.u32() & 0x3FFF) as u16);
    }
    assert_eq!(rng.current, twin.current);
    assert!(noise.iter().any(|s| *s != noise[0]));
}

#[test]
fn identification_space() {
    let mut space = vec![0u8; 512];
    space[0..2].copy_from_slice(&0x0040u16.to_le_bytes());
    space[0x62..0x64].copy_from_slice(&0x0B00u16.to_le_bytes());
    space[0x78..0x7C].copy_from_slice(&0x0001_0000u32.to_le_bytes());
    space[0xC8..0xCC].copy_from_slice(&0x0200_0000u32.to_le_bytes());
    space[0x36..0x36 + 40].copy_from_slice(b"EQUMH RADDSI K                          ");
    let identity = parse_identity(&space);
    assert_eq!(identity.signature, 0x0040);
    assert_eq!(identity.capabilities, 0x0B00);
    assert_eq!(identity.command_sets, 0);
    assert_eq!(identity.size, 0x0001_0000);
    assert_eq!(identity.model, b"QEMU HARDDISK                           ".to_vec());
    space[0xA4..0xA8].copy_from_slice(&(1u32 << 26).to_le_bytes());
    let identity = parse_identity(&space);
    assert_eq!(identity.command_sets, 1 << 26);
    assert_eq!(identity.size, 0x0200_0000);
    space[0xA4..0xA8].copy_from_slice(&(!(1u32 << 26)).to_le_bytes());
    assert_eq!(parse_identity(&space[..204]).size, 0x0001_0000);
}

#[test]
fn ports_of_the_channels() {
    let compatible = channel_ports(0x80, 1, 2, 3, 4, 5);
    assert_eq!((compatible[0].base_io, compatible[0].control_base, compatible[0].bus_master_ide), (0x1F0, 0x3F6, 0));
    assert_eq!((compatible[1].base_io, compatible[1].control_base, compatible[1].bus_master_ide), (0x170, 0x376, 8));
    assert!(compatible[0].no_interrupt && compatible[1].no_interrupt);
    let native = channel_ports(0x8F, 0x0000_C041, 0x0000_C081, 0x0001_C0C3, 0xFFFF_C101, 0x0000_C14D);
    assert_eq!((native[0].base_io, native[0].control_base, native[0].bus_master_ide), (0xC040, 0xC080, 0xC14C));
    assert_eq!((native[1].base_io, native[1].control_base, native[1].bus_master_ide), (0xC0C0, 0xC100, 0xC154));
    assert!(bar_port_fits(0x0000_FFF7));
    assert!(!bar_port_fits(0x0000_FFF8));
    assert!(bar_port_fits(0x1234_0000));
}

#[test]
fn first_error_bit() {
    assert_eq!(first_error(0x00), None);
    assert_eq!(first_error(0x01), Some(ATAError::NoAddressMark));
    assert_eq!(first_error(0xFF), Some(ATAError::NoAddressMark));
    assert_eq!(first_error(0x02), Some(ATAError::TrackZeroNotFound));
    assert_eq!(first_error(0x04), Some(ATAError::CommandAborted));
    assert_eq!(first_error(0x08), Some(ATAError::MediaChangeRequest));
    assert_eq!(first_error(0x10), Some(ATAError::IDMarkNotFound));
    assert_eq!(first_error(0x20), Some(ATAError::MediaChanged));
    assert_eq!(first_error(0x40), Some(ATAError::UncorrectableData));
    assert_eq!(first_error(0x80), Some(ATAError::BadBlock));
    assert_eq!(first_error(0xC0), Some(ATAError::UncorrectableData));
}

#[test]
fn headers_from_double_words() {
    assert_eq!(words_of(0xAABB_CCDD), (0xCCDD, 0xAABB));
    assert_eq!(bytes_of(0xAABB_CCDD), (0xDD, 0xCC, 0xBB, 0xAA));
    let common = PCIDeviceCommonHeader::from_dwords(&[0x7010_8086, 0x0280_0007, 0x0101_8000, 0x8000_4008]);
    assert_eq!((common.vendor_id, common.device_id), (0x8086, 0x7010));
    assert_eq!((common.command, common.status), (0x0007, 0x0280));
    assert_eq!((common.revision_id, common.prog_if, common.subclass, common.class_code), (0x00, 0x80, 0x01, 0x01));
    assert_eq!((common.cache_line_size, common.latency_timer, common.header_type, common.bist), (0x08, 0x40, 0x00, 0x80));
    let d: [u32; 14] = core::array::from_fn(|i| 0x1020_3040u32.wrapping_mul(i as u32 + 1) ^ 0x0A0B_0C0D);
    let first: [u32; 12] = core::array::from_fn(|i| d[i]);
    let h0 = PCIDeviceHeader0x00::from_dwords(&first);
    assert_eq!([h0.bar0, h0.bar1, h0.bar2, h0.bar3, h0.bar4, h0.bar5], [d[0], d[1], d[2], d[3], d[4], d[5]]);
    assert_eq!(h0.cardbus_cis_pointer, d[6]);
    assert_eq!((h0.subsystem_vendor_id, h0.subsystem_id), (d[7] as u16, (d[7] >> 16) as u16));
    assert_eq!(h0.expansion_rom_bar, d[8]);
    assert_eq!((h0.capabilities_pointer, h0.reserved0, h0.reserved1), (d[9] as u8, (d[9] >> 8) as u8, (d[9] >> 16) as u16));
    assert_eq!(h0.reserved2, d[10]);
    assert_eq!(
        (h0.interrupt_line, h0.interrupt_pin, h0.min_grant, h0.max_latency),
        (d[11] as u8, (d[11] >> 8) as u8, (d[11] >> 16) as u8, (d[11] >> 24) as u8)
    );
    let h1 = PCIDeviceHeader0x01::from_dwords(&first);
    assert_eq!((h1.bar0, h1.bar1), (d[0], d[1]));
    assert_eq!(
        (h1.primary_bus_number, h1.secondary_bus_number, h1.subordinate_bus_number, h1.secondary_latency_timer),
        (d[2] as u8, (d[2] >> 8) as u8, (d[2] >> 16) as u8, (d[2] >> 24) as u8)
    );
    assert_eq!((h1.io_base, h1.io_limit, h1.secondary_status), (d[3] as u8, (d[3] >> 8) as u8, (d[3] >> 16) as u16));
    assert_eq!((h1.memory_base, h1.memory_limit), (d[4] as u16, (d[4] >> 16) as u16));
    assert_eq!((h1.prefetchable_memory_base, h1.prefetchable_memory_limit), (d[5] as u16, (d[5] >> 16) as u16));
    assert_eq!((h1.prefetchable_base_upper_32, h1.prefetchable_limit_upper_32), (d[6], d[7]));
    assert_eq!((h1.io_base_upper_16, h1.io_limit_upper_16), (d[8] as u16, (d[8] >> 16) as u16));
    assert_eq!((h1.capability_pointer, h1.reserved0, h1.reserved1), (d[9] as u8, (d[9] >> 8) as u8, (d[9] >> 16) as u16));
    assert_eq!(h1.expansion_rom_bar, d[10]);
    assert_eq!((h1.interrupt_line, h1.interrupt_pin, h1.bridge_control), (d[11] as u8, (d[11] >> 8) as u8, (d[11] >> 16) as u16));
    let h2 = PCIDeviceHeader0x02::from_dwords(&d);
    assert_eq!(h2.cardbus_socket_bar, d[0]);
    assert_eq!((h2.offset_capability_list, h2.reserved0, h2.secondary_status), (d[1] as u8, (d[1] >> 8) as u8, (d[1] >> 16) as u16));
    assert_eq!(
        (h2.pci_bus_number, h2.cardbus_bus_number, h2.subordinate_bus_number, h2.cardbus_latency_timer),
        (d[2] as u8, (d[2] >> 8) as u8, (d[2] >> 16) as u8, (d[2] >> 24) as u8)
    );
    assert_eq!([h2.mem_bar0, h2.mem_limit0, h2.mem_bar1, h2.mem_limit1], [d[3], d[4], d[5], d[6]]);
    assert_eq!([h2.io_bar0, h2.io_limit0, h2.io_bar1, h2.io_limit1], [d[7], d[8], d[9], d[10]]);
    assert_eq!((h2.interrupt_line, h2.interrupt_pin, h2.bridge_control), (d[11] as u8, (d[11] >> 8) as u8, (d[11] >> 16) as u16));
    assert_eq!((h2.subsystem_device_id, h2.subsystem_vendor_id), (d[12] as u16, (d[12] >> 16) as u16));
    assert_eq!(h2.pc_card_legacy_mode_bar, d[13]);
}

#[test]
fn line_numbers() {
    assert_eq!(format_line_number(0), b"0".to_vec());
    assert_eq!(format_line_number(7), b"7".to_vec());
    assert_eq!(format_line_number(362), b"362".to_vec());
    assert_eq!(format_line_number(9999), b"9999".to_vec());
    assert_eq!(format_line_number(10000), b"0000".to_vec());
    assert_eq!(format_line_number(10005), b"0005".to_vec());
    assert_eq!(format_line_number(123456), b"3456".to_vec());
    assert_eq!(format_line_number(u32::MAX), b"7295".to_vec());
}
