use kernel_core::acpi::{checksum, find_rsdp, AcpiError, Signature, RSDP, RSDT, SDTHeader};
use kernel_core::apic::MADT;
use kernel_core::audio_system::audio::{beep, pit_test, play, stop, Notes};
use kernel_core::bord::{GDTR, IDT, IDTEntry, Ring, SegmentDescriptor, SegmentSelector};
use kernel_core::drivers::port::PortWrite;
use kernel_core::input::key_codes::{
    get_from_code_pressed, get_from_code_released, KeyPressedCodes, KeyReleasedCodes,
};
use kernel_core::input::keyboard::{get_key_pressed, get_key_released, Keyboard};
use kernel_core::kernel::{key_event, uptime_parts, wait, KeyAnswer};
use kernel_core::math::vec2::Vec2;
use kernel_core::mem::allocator::Allocator;
use kernel_core::mem::e820::{RegionType, E820};
use kernel_core::mem::memory::{AddrSpace, PT, PTE};
use kernel_core::misc::rand::{magnitude_of, Rng};
use kernel_core::pic::{end_of_interrupt, pic_ask_irq_reg, pic_get_irq_reg, pic_remap};
use kernel_core::time::{count_millisecond, do_nothing, init, sleep, Timer, TimerPtr};
use std::cell::Cell;

fn xorshift(mut x: u64) -> u64 {
    x ^= x << 13;
    x ^= x >> 7;
    x ^= x << 17;
    x
}

#[test]
fn generator_steps() {
    let mut rng = Rng::test();
    assert_eq!(rng.current, 11111111);
    let first = xorshift(11111111);
    assert_eq!(first, 11882628516317202);
    assert_eq!(rng.u64(), first);
    let second = xorshift(first);
    assert_eq!(rng.u32(), second as u32);
    assert_eq!(rng.current, second);
    rng.next();
    assert_eq!(rng.current, xorshift(second));
    assert_eq!(Rng::new(5).current, 11111116);
    assert_eq!(Rng::new(0).current, Rng::test().current);
}

#[test]
fn generator_signed_numbers() {
    for seed in [1u64, 2, 3, 11111111, 0xDEAD_BEEF, u64::MAX] {
        let mut rng = Rng { current: seed };
        let mut twin = Rng { current: seed };
        assert_eq!(rng.i32(), twin.u32() as i32);
        assert_eq!(rng.i64(), twin.u64() as i64);
        assert_eq!(rng.current, twin.current);
    }
    // a state whose step has the high bit set
    let mut found_negative = false;
    let mut state = 1u64;
    for _ in 0..64 {
        let mut rng = Rng { current: state };
        let value = rng.i64();
        assert_eq!(value, xorshift(state) as i64);
        found_negative |= value < 0;
        state = xorshift(state);
    }
    assert!(found_negative);
}

#[test]
fn generator_range() {
    for seed in [1u64, 77, 11111111, 0xFFFF_FFFF_FFFF, u64::MAX - 3] {
        let mut rng = Rng { current: seed };
        let expected = 1 + (xorshift(seed) as i64) % 101;
        assert_eq!(rng.range(1, 100), expected);
        assert!(expected > -100 && expected < 102);
    }
    let mut rng = Rng { current: 3 };
    assert_eq!(rng.range(0, 1), 0);
}

#[test]
fn generator_range_of_a_negative_sum() {
    // the remainder has the sign of the state, whatever the sign of the sum
    let mut rng = Rng::test();
    assert_eq!(rng.range(-10, 3), -10);
    assert_eq!(rng.current, 11882628516317202);
    assert_eq!(rng.range(-10, 3), -9);
    assert_eq!(rng.range(-10, 3), -16);
    assert_eq!(rng.range(5, -12), -1);
    assert_eq!(rng.range(0, -1), 0);
    for seed in [1u64, 77, 0xFFFF_FFFF_FFFF, u64::MAX - 3] {
        let mut rng = Rng { current: seed };
        let expected = -3 + (xorshift(seed) as i64) % -101;
        assert_eq!(rng.range(-3, -98), expected);
    }
    let mut wide = Rng::test();
    assert_eq!(wide.range(0, i64::MIN), 11882628516317202);
    assert_eq!(magnitude_of(i64::MIN), 1 << 63);
    assert_eq!(magnitude_of(-5), 5);
    assert_eq!(magnitude_of(7), 7);
}

#[test]
fn pairs() {
    let v = Vec2::<usize>::new(3, 4);
    assert_eq!((v.x, v.y), (3, 4));
    let w = v.plus(Vec2::<usize>::new(10, 20));
    assert_eq!((w.x, w.y), (13, 24));
    let d = w.minus(v);
    assert_eq!((d.x, d.y), (10, 20));
    assert_eq!(v.dot(w), 3 * 13 + 4 * 24);
    let s = v.scaled(5);
    assert_eq!((s.x, s.y), (15, 20));
}

#[test]
fn page_table_entries() {
    let entry = PTE::new(0x8000_0000_1234_5067);
    assert_eq!(entry.0, 0x8000_0000_1234_5067);
    assert_eq!(entry.next_table_addr(), 0x8000_0000_1234_5000);
    assert_eq!(PTE::new(0xFFF).next_table_addr(), 0);
    assert!(entry.page_present());
    assert!(entry.page_rw());
    assert!(entry.page_user());
    assert!(entry.page_accessed());
    assert!(entry.page_dirty());
    assert!(!entry.page_pse());
    assert!(!entry.page_global());
    let other = PTE::new(0x180);
    assert!(!other.page_present());
    assert!(!other.page_rw());
    assert!(!other.page_user());
    assert!(!other.page_accessed());
    assert!(!other.page_dirty());
    assert!(other.page_pse());
    assert!(other.page_global());
}

#[test]
fn page_table_indices() {
    let entry = PTE::new(0);
    let addr: u64 = (3 << 39) | (5 << 30) | (7 << 21) | (9 << 12) | 0xABC;
    assert_eq!(entry.extract_offset(addr, 0), 9);
    assert_eq!(entry.extract_offset(addr, 1), 7);
    assert_eq!(entry.extract_offset(addr, 2), 5);
    assert_eq!(entry.extract_offset(addr, 3), 3);
    assert_eq!(entry.extract_offset(u64::MAX, 0), 511);
    assert_eq!(entry.extract_offset(u64::MAX, 4), 511);
    assert_eq!(entry.extract_offset(u64::MAX, 5), 127);
    for idx in 0..6u64 {
        let shift = 12 + idx * 9;
        let expected = (0x1234_5678_9ABC_DEF0u64 & (511u64.wrapping_shl(shift as u32))) >> shift;
        assert_eq!(entry.extract_offset(0x1234_5678_9ABC_DEF0, idx), expected);
    }
}

#[test]
fn page_tables() {
    let mut table = PT::new();
    assert!(table.entries.iter().all(|e| *e == 0));
    table.entries[1] = 0x1003;
    table.alias_self(1, 511);
    assert_eq!(table.entries[511], 0x1003);
    assert_eq!(table.entries[1], 0x1003);
    table.map_page(0x1000, 4);
    assert_eq!(table.entries.iter().filter(|e| **e != 0).count(), 2);
    let space = AddrSpace { phys_base: 0, pml4: 0x200000 };
    assert_eq!(space.pml4, 0x200000);
}

#[test]
fn memory_map_and_allocator() {
    let region = E820 { addr_base: 0, addr_length: 0x9FC00, region_type: 0, acpi_ext: 0 };
    assert_eq!(region.kind(), Some(RegionType::Usable));
    assert_eq!(E820 { region_type: 1, ..region }.kind(), Some(RegionType::Reserved));
    assert_eq!(E820 { region_type: 2, ..region }.kind(), Some(RegionType::AcpiReclaimable));
    assert_eq!(E820 { region_type: 3, ..region }.kind(), Some(RegionType::AcpiNvs));
    assert_eq!(E820 { region_type: 4, ..region }.kind(), Some(RegionType::BadMem));
    assert_eq!(E820 { region_type: 5, ..region }.kind(), None);
    let mut allocator = Allocator::new();
    assert_eq!(allocator.head, 0x4010_0008);
    let a = allocator.kalloc(512).unwrap();
    let b = allocator.kalloc(512).unwrap();
    assert_eq!(b - a, 0x200);
    assert_eq!(a, 0x4010_0208);
    assert_eq!(allocator.kalloc_linear(0), Some(b));
    let mut full = Allocator { head: u64::MAX - 10 };
    assert_eq!(full.kalloc(11), None);
    assert_eq!(full.head, u64::MAX - 10);
    assert_eq!(full.kalloc(10), Some(u64::MAX));
}

#[test]
fn scan_codes_of_keys() {
    assert_eq!(get_from_code_pressed(0x1E), KeyPressedCodes::A);
    assert_eq!(get_from_code_pressed(0x2C), KeyPressedCodes::Z);
    assert_eq!(get_from_code_pressed(0x0B), KeyPressedCodes::Zero);
    assert_eq!(get_from_code_pressed(0x39), KeyPressedCodes::Space);
    assert_eq!(get_from_code_pressed(0x9D), KeyPressedCodes::RightCtrl);
    assert_eq!(get_from_code_pressed(0xB8), KeyPressedCodes::RightAlt);
    assert_eq!(get_from_code_pressed(0x00), KeyPressedCodes::Unknown);
    assert_eq!(get_from_code_pressed(0x9E), KeyPressedCodes::Unknown);
    assert_eq!(get_from_code_pressed(-1), KeyPressedCodes::Unknown);
    assert_eq!(get_from_code_released(0x9E), KeyReleasedCodes::A);
    assert_eq!(get_from_code_released(0xAC), KeyReleasedCodes::Z);
    assert_eq!(get_from_code_released(0x9D), KeyReleasedCodes::LeftCtrl);
    assert_eq!(get_from_code_released(0xDD), KeyReleasedCodes::RightCtrl);
    assert_eq!(get_from_code_released(0xB8), KeyReleasedCodes::LeftAlt);
    assert_eq!(get_from_code_released(0x1E), KeyReleasedCodes::Unknown);
    assert_eq!(get_key_pressed(0x10), KeyPressedCodes::Q);
    assert_eq!(get_key_released(0x90), KeyReleasedCodes::Q);
    assert_eq!(KeyPressedCodes::Enter.code(), 0x1C);
    assert_eq!(KeyReleasedCodes::Enter.code(), 0x9C);
    assert_eq!(KeyPressedCodes::Unknown.code(), 0);
}

#[test]
fn every_key_is_found_by_its_code() {
    for code in 0..=0xFF {
        let pressed = get_from_code_pressed(code);
        if pressed != KeyPressedCodes::Unknown {
            assert_eq!(pressed.code(), code);
        }
        let released = get_from_code_released(code);
        if released != KeyReleasedCodes::Unknown {
            assert_eq!(released.code(), code);
            // a key comes up with the code that it went down with, plus 0x80,
            // but for the keys on the right
            if ![0x9D, 0xDD, 0xB8, 0xD8].contains(&code) {
                assert_ne!(get_from_code_pressed(code - 0x80), KeyPressedCodes::Unknown);
            }
        }
    }
    let known = (0..=0xFF).filter(|c| get_from_code_pressed(*c) != KeyPressedCodes::Unknown).count();
    assert_eq!(known, 46);
}

#[test]
fn keyboard_tracks_the_modifier_keys() {
    let calls = Cell::new(0);
    let last = Cell::new(0);
    let count = |code: i32| {
        calls.set(calls.get() + 1);
        last.set(code);
    };
    let mut keyboard = Keyboard::new(&count, &count, &count, &count, &count);
    keyboard.handle_key(0x2A);
    assert!(keyboard.shift);
    assert_eq!(calls.get(), 5);
    assert_eq!(last.get(), 0x2A);
    keyboard.handle_key(0x1E);
    assert!(keyboard.shift && !keyboard.ctrl && !keyboard.alt && !keyboard.caps);
    keyboard.handle_key(0xAA);
    assert!(!keyboard.shift);
    keyboard.handle_key(0x36);
    assert!(keyboard.shift);
    keyboard.handle_key(0xB6);
    assert!(!keyboard.shift);
    keyboard.handle_key(0x3A);
    assert!(keyboard.caps);
    keyboard.handle_key(0xBA);
    assert!(keyboard.caps);
    keyboard.handle_key(0x3A);
    assert!(!keyboard.caps);
    keyboard.handle_key(0x1D);
    assert!(keyboard.ctrl);
    // the right control key goes down with the code with which the left one comes up
    keyboard.handle_key(0x9D);
    assert!(!keyboard.ctrl);
    keyboard.handle_key(0x38);
    assert!(keyboard.alt);
    keyboard.handle_key(0xB8);
    assert!(!keyboard.alt);
    keyboard.handle_key(0x38);
    keyboard.handle_key(0xD8);
    assert!(!keyboard.alt);
    assert_eq!(calls.get(), 14 * 5);
}

#[test]
fn keyboard_callbacks_can_be_replaced() {
    let first = Cell::new(0);
    let second = Cell::new(0);
    let a = |_: i32| first.set(first.get() + 1);
    let b = |code: i32| second.set(second.get() + code);
    let a: &dyn Fn(i32) = &a;
    let b: &dyn Fn(i32) = &b;
    let mut keyboard = Keyboard::new(a, a, a, a, a);
    keyboard.set_callback0(b);
    keyboard.handle_key(7);
    assert_eq!((first.get(), second.get()), (4, 7));
    keyboard.set_callback1(b);
    keyboard.set_callback2(b);
    keyboard.set_callback3(b);
    keyboard.set_callback4(b);
    keyboard.handle_key(3);
    assert_eq!((first.get(), second.get()), (4, 22));
}

#[test]
fn kernel_answers_keys() {
    assert_eq!(key_event(0x1E), KeyAnswer::Letter(b'A'));
    assert_eq!(key_event(0x30), KeyAnswer::Letter(b'B'));
    assert_eq!(key_event(0x2E), KeyAnswer::Letter(b'C'));
    assert_eq!(key_event(0x14), KeyAnswer::Uptime);
    assert_eq!(key_event(0x13), KeyAnswer::Random);
    assert_eq!(key_event(0x20), KeyAnswer::Nothing);
    assert_eq!(key_event(0), KeyAnswer::Nothing);
    assert_eq!(uptime_parts(12345), (12, 345));
    assert_eq!(uptime_parts(999), (0, 999));
}

#[test]
fn waiting_counts_its_steps() {
    assert_eq!(wait(0), 0);
    assert_eq!(wait(1), 1);
    assert_eq!(wait(2), 2);
    assert_eq!(wait(3), 2);
    assert_eq!(wait(4), 3);
    assert_eq!(wait(100), 51);
    assert_eq!(wait(101), 51);
}

fn rsdp_bytes(revision: u8) -> Vec<u8> {
    let mut bytes = Vec::new();
    bytes.extend_from_slice(b"RSD PTR ");
    bytes.push(0);
    bytes.extend_from_slice(b"BOCHS ");
    bytes.push(revision);
    bytes.extend_from_slice(&0x07FE_1234u32.to_le_bytes());
    let sum = bytes.iter().fold(0u8, |a, b| a.wrapping_add(*b));
    bytes[8] = 0u8.wrapping_sub(sum);
    bytes
}

#[test]
fn root_pointer_is_validated() {
    let bytes = rsdp_bytes(0);
    assert_eq!(checksum(&bytes), 0);
    assert_eq!(checksum(&[0xFF, 0x02]), 1);
    assert_eq!(checksum(&[]), 0);
    let rsdp = RSDP::parse(&bytes, 0);
    assert_eq!(&rsdp.signature, b"RSD PTR ");
    assert_eq!(&rsdp.oemid, b"BOCHS ");
    assert_eq!(rsdp.rsdt_address, 0x07FE_1234);
    assert_eq!(rsdp.to_bytes(), bytes);
    assert!(rsdp.validate());
    let mut wrong_sum = RSDP::parse(&bytes, 0);
    wrong_sum.rsdt_address += 1;
    assert!(!wrong_sum.validate());
    let mut wrong_name = bytes.clone();
    wrong_name[0] = b'X';
    wrong_name[8] = wrong_name[8].wrapping_sub(b'X' - b'R');
    assert_eq!(checksum(&wrong_name), 0);
    assert!(!RSDP::parse(&wrong_name, 0).validate());
}

#[test]
fn root_pointer_is_searched_at_multiples_of_16() {
    let mut memory = vec![0u8; 256];
    assert_eq!(find_rsdp(&memory).err(), Some(AcpiError::Missing));
    memory[40..60].copy_from_slice(&rsdp_bytes(0));
    assert_eq!(find_rsdp(&memory).err(), Some(AcpiError::Missing));
    memory[96..116].copy_from_slice(&rsdp_bytes(0));
    let found = find_rsdp(&memory).unwrap();
    assert_eq!(found.rsdt_address, 0x07FE_1234);
    memory[48..68].copy_from_slice(&rsdp_bytes(2));
    assert_eq!(find_rsdp(&memory).err(), Some(AcpiError::WrongRevision));
    assert_eq!(find_rsdp(&memory[..48]).err(), Some(AcpiError::Missing));
    assert_eq!(find_rsdp(&rsdp_bytes(0)).unwrap().revision, 0);
    assert_eq!(find_rsdp(&rsdp_bytes(0)[..19]).err(), Some(AcpiError::Missing));
    assert_eq!(find_rsdp(&[]).err(), Some(AcpiError::Missing));
}

#[test]
fn root_table_is_validated() {
    let mut header = SDTHeader {
        signature: *b"RSDT",
        length: 44,
        revision: 1,
        checksum: 0,
        oem_id: *b"BOCHS ",
        oem_table_id: *b"BXPCRSDT",
        oem_revision: 1,
        creator_id: 0x4350_5842,
        creator_revision: 1,
    };
    let bytes = header.to_bytes();
    assert_eq!(bytes.len(), 36);
    assert_eq!(&bytes[..4], b"RSDT");
    assert_eq!(&bytes[4..8], &[44, 0, 0, 0]);
    header.checksum = 0u8.wrapping_sub(checksum(&bytes));
    let table = RSDT { h: header };
    assert!(table.is_valid());
    assert_eq!(table.entry_count(), 2);
    assert!(table.find_table::<MADT>().is_none());
    let mut other = RSDT { h: SDTHeader { length: 40, ..table.h } };
    assert!(!other.is_valid());
    other.h.length = 35;
    assert_eq!(other.entry_count(), 0);
    assert_eq!(MADT::get_signature(), *b"APIC");
}

#[test]
fn descriptor_tables() {
    assert_eq!(Ring::Zero.number(), 0);
    assert_eq!(Ring::Three.number(), 3);
    let descriptor = SegmentDescriptor::new();
    assert_eq!(descriptor.misc, 1 << 7);
    assert_eq!((descriptor.segment_limit, descriptor.base_addr, descriptor.base, descriptor.base2), (0, 0, 0, 0));
    assert_eq!(SegmentSelector::new(1, false, Ring::Zero).0, 8);
    assert_eq!(SegmentSelector::new(2, true, Ring::Three).0, (2 << 3) | (1 << 2) | 3);
    assert_eq!(SegmentSelector::new(0x1FFF, true, Ring::One).0, 0xFFFD);
    assert_eq!(SegmentSelector::new(0x2001, false, Ring::Two).0, 0x000A);
    let entry = IDTEntry::new(0x1122_3344_5566_7788, Ring::Zero, SegmentSelector(8));
    assert_eq!(entry.offset1, 0x7788);
    assert_eq!(entry.offset2, 0x5566);
    assert_eq!(entry.offset3, 0x1122_3344);
    assert_eq!(entry.attribs, 0x8E);
    assert_eq!(entry.ist, 0);
    assert_eq!(entry.reserved, 0);
    assert_eq!(entry.segment_selector.0, 8);
    assert_eq!(entry.handler(), 0x1122_3344_5566_7788);
    assert_eq!(IDTEntry::new(0, Ring::Three, SegmentSelector(0)).attribs, 0xEE);
    assert_eq!(IDTEntry::new(0, Ring::One, SegmentSelector(0)).attribs, 0xAE);
    let absent = IDTEntry::absent();
    assert_eq!((absent.attribs, absent.offset1, absent.offset2, absent.offset3), (0x0E, 0, 0, 0));
    let table = IDT::new();
    assert_eq!(table.double_fault.attribs, 0x0E);
    assert!(table.more_reserved.iter().all(|e| e.attribs == 0x0E));
    let gdtr = GDTR { limit: 3, base: 0x1000 };
    assert_eq!(gdtr.segment_address(0), Some(0x1000));
    assert_eq!(gdtr.segment_address(2), Some(0x1010));
    assert_eq!(gdtr.segment_address(3), None);
    assert_eq!(GDTR { limit: 9, base: u64::MAX - 7 }.segment_address(1), None);
    assert_eq!(GDTR { limit: 9, base: u64::MAX - 8 }.segment_address(1), Some(u64::MAX));
}

#[test]
fn timers_count_and_fire_once() {
    let fired = Cell::new(0);
    let ring = || fired.set(fired.get() + 1);
    let mut timer = Timer::_new(3, &ring);
    assert!(!timer.tick());
    assert_eq!(timer.cur, 0);
    timer.init();
    assert!(!timer.tick());
    assert!(!timer.tick());
    assert_eq!(fired.get(), 0);
    assert!(timer.tick());
    assert_eq!(fired.get(), 1);
    assert!(!timer.active);
    assert_eq!(timer.cur, 3);
    assert!(!timer.tick());
    timer.init();
    assert_eq!(timer.cur, 0);
    timer.stop();
    assert!(!timer.tick());
    assert_eq!(fired.get(), 1);
}

#[test]
fn timers_take_the_first_place_that_has_run_out() {
    let fired = Cell::new(0);
    let ring = || fired.set(fired.get() + 1);
    let ring: &dyn Fn() = &ring;
    let mut timers = vec![Timer::_new(0, ring), Timer::_new(0, ring), Timer::_new(0, ring)];
    let first = Timer::new(&mut timers, 10, ring).unwrap();
    assert_eq!(first.index, 0);
    let second = Timer::new(&mut timers, 20, ring).unwrap();
    assert_eq!(second.index, 1);
    assert_eq!((timers[1].max, timers[1].cur, timers[1].active), (20, 0, false));
    second.init(&mut timers);
    assert!(timers[1].active);
    second.stop(&mut timers);
    assert!(!timers[1].active);
    timers[0].cur = 10;
    assert_eq!(Timer::new(&mut timers, 5, ring).unwrap().index, 0);
    assert_eq!(Timer::new(&mut timers, 5, ring).unwrap().index, 2);
    assert!(Timer::new(&mut timers, 5, ring).is_none());
    TimerPtr { index: 2 }.init(&mut timers);
    TimerPtr { index: 2 }.execute(&mut timers);
    assert_eq!(fired.get(), 1);
    assert!(!timers[2].active);
    do_nothing();
}

#[test]
fn timer_setup_and_sleep() {
    assert_eq!(
        init(0xFF),
        vec![
            PortWrite::Byte(0x43, 0x0C),
            PortWrite::Byte(0x40, (1193u16 & 0xFF) as u8),
            PortWrite::Byte(0x40, (1193u16 >> 8) as u8),
            PortWrite::Byte(0x21, 0xFE),
        ]
    );
    assert_eq!(init(0x01)[3], PortWrite::Byte(0x21, 0x00));
    assert!(!sleep(100, 50, 149));
    assert!(sleep(100, 50, 150));
    assert!(sleep(100, 0, 100));
}

#[test]
fn speaker_tones() {
    let _notes = Notes;
    pit_test();
    // 440 hertz: the divisor is 1193180 / 440 = 2711 = 0x0A97
    assert_eq!(
        play(440, 0x00),
        vec![
            PortWrite::Byte(0x43, 0xB6),
            PortWrite::Byte(0x42, 0x97),
            PortWrite::Byte(0x42, 0x0A),
            PortWrite::Byte(0x61, 0x03),
        ]
    );
    assert_eq!(play(440, 0x30).last(), Some(&PortWrite::Byte(0x61, 0x33)));
    assert_eq!(play(440, 0x03).len(), 3);
    assert_eq!(play(1, 0xFF), vec![
        PortWrite::Byte(0x43, 0xB6),
        PortWrite::Byte(0x42, (1193180u32 & 0xFF) as u8),
        PortWrite::Byte(0x42, ((1193180u32 >> 8) & 0xFF) as u8),
    ]);
    assert_eq!(play(u32::MAX, 0x03)[1], PortWrite::Byte(0x42, 0));
    assert_eq!(stop(0xFF), PortWrite::Byte(0x61, 0xFC));
    assert_eq!(stop(0x03), PortWrite::Byte(0x61, 0x00));
}

#[test]
fn interrupt_controllers() {
    assert_eq!(
        pic_remap(32, 40, 0xFB, 0xFF),
        vec![
            PortWrite::Byte(0x20, 0x11),
            PortWrite::Byte(0xA0, 0x11),
            PortWrite::Byte(0x21, 32),
            PortWrite::Byte(0xA1, 40),
            PortWrite::Byte(0x21, 4),
            PortWrite::Byte(0xA1, 2),
            PortWrite::Byte(0x21, 1),
            PortWrite::Byte(0xA1, 1),
            PortWrite::Byte(0x21, 0xFB),
            PortWrite::Byte(0xA1, 0xFF),
        ]
    );
    assert_eq!(pic_ask_irq_reg(0x0A), vec![PortWrite::Byte(0x20, 0x0A), PortWrite::Byte(0xA0, 0x0A)]);
    assert_eq!(pic_get_irq_reg(0x12, 0x34), 0x1234);
    assert_eq!(pic_get_irq_reg(0xFF, 0xFF), 0xFFFF);
    assert_eq!(end_of_interrupt(), vec![PortWrite::Byte(0xA0, 0x20), PortWrite::Byte(0x20, 0x20)]);
}

#[test]
fn milliseconds_are_counted_into_seconds() {
    assert_eq!(count_millisecond(0, 0), (1, 0, false));
    assert_eq!(count_millisecond(998, 5), (999, 5, false));
    assert_eq!(count_millisecond(999, 5), (0, 6, true));
    assert_eq!(count_millisecond(1000, 5), (1001, 5, false));
}

#[test]
fn table_headers_are_parsed() {
    let mut memory = vec![0u8; 40];
    memory[2..6].copy_from_slice(b"APIC");
    memory[6..10].copy_from_slice(&0x0000_0078u32.to_le_bytes());
    memory[10] = 3;
    memory[11] = 0xAB;
    memory[12..18].copy_from_slice(b"BOCHS ");
    memory[18..26].copy_from_slice(b"BXPCAPIC");
    memory[26..30].copy_from_slice(&1u32.to_le_bytes());
    memory[30..34].copy_from_slice(&0x4350_5842u32.to_le_bytes());
    memory[34..38].copy_from_slice(&7u32.to_le_bytes());
    let header = SDTHeader::parse(&memory, 2);
    assert_eq!(&header.signature, b"APIC");
    assert_eq!(header.length, 0x78);
    assert_eq!((header.revision, header.checksum), (3, 0xAB));
    assert_eq!(&header.oem_id, b"BOCHS ");
    assert_eq!(&header.oem_table_id, b"BXPCAPIC");
    assert_eq!((header.oem_revision, header.creator_id, header.creator_revision), (1, 0x4350_5842, 7));
    assert_eq!(header.to_bytes(), memory[2..38].to_vec());
}

#[test]
fn beeps_start_a_tone_and_a_timer() {
    let ended = Cell::new(false);
    let end = || ended.set(true);
    let end: &dyn Fn() = &end;
    let mut timers = vec![Timer::_new(5, end), Timer::_new(0, end)];
    let (writes, place) = beep(440, 250, 0x00, &mut timers, end);
    assert_eq!(writes, play(440, 0x00));
    assert_eq!(place.map(|p| p.index), Some(1));
    assert_eq!((timers[1].max, timers[1].cur, timers[1].active), (250, 0, false));
    let (writes, place) = beep(880, 10, 0x03, &mut timers, end);
    assert_eq!(writes.len(), 3);
    assert!(place.is_none());
    assert_eq!(timers[0].max, 5);
    assert!(!ended.get());
}

#[test]
fn serial_bytes() {
    use_bytes();
}

fn use_bytes() {
    assert_eq!(kernel_core::utils::qemu_io::qemu_print_u8(0x41), vec![0x41]);
    assert_eq!(kernel_core::utils::qemu_io::qemu_print_str("ab"), b"ab".to_vec());
    assert_eq!(kernel_core::utils::qemu_io::qemu_println("ab"), b"ab\n".to_vec());
}
