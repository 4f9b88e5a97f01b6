//! Descriptor tables: segment selectors, segment descriptors and the
//! interrupt descriptor table.

use vstd::prelude::*;

verus! {

/// The four privilege levels.
#[derive(Clone, Copy, Debug, PartialEq, Eq, Structural)]
pub enum Ring {
    Zero,
    One,
    Two,
    Three,
}

impl Ring {
    /// The level's number.
    pub open spec fn level(self) -> u8 {
        match self {
            Ring::Zero => 0,
            Ring::One => 1,
            Ring::Two => 2,
            Ring::Three => 3,
        }
    }

    /// The level's number.
    pub fn number(&self) -> (n: u8)
        ensures
            n == self.level(),
    {
        match self {
            Ring::Zero => 0,
            Ring::One => 1,
            Ring::Two => 2,
            Ring::Three => 3,
        }
    }
}

/// One entry of the global descriptor table.
#[derive(Debug, Clone, Copy)]
pub struct SegmentDescriptor {
    pub segment_limit: u16,
    pub base_addr: u16,
    pub base: u8,
    pub misc: u16,
    pub base2: u8,
}

impl SegmentDescriptor {
    /// A descriptor that is all zero but for its present flag.
    pub fn new() -> (descriptor: Self)
        ensures
            descriptor.segment_limit == 0,
            descriptor.base_addr == 0,
            descriptor.base == 0,
            descriptor.misc == 0x80,
            descriptor.base2 == 0,
    {
        SegmentDescriptor { segment_limit: 0, base_addr: 0, base: 0, misc: 0x80, base2: 0 }
    }
}

/// A segment selector: an index into a descriptor table, the table chosen,
/// and the privilege level asked for.
#[derive(Debug, Clone, Copy)]
pub struct SegmentSelector(pub u16);

impl SegmentSelector {
    /// The selector for entry `idx`: the index from bit 3 on, bit 2 set
    /// where `is_gdt` holds, the level in the low two bits. Only the low 13
    /// bits of `idx` fit.
    pub fn new(idx: u16, is_gdt: bool, ring: Ring) -> (selector: Self)
        ensures
            selector.0 == (idx % 0x2000) * 8 + (if is_gdt {
                4int
            } else {
                0int
            }) + ring.level(),
    {
        let table: u16 = if is_gdt {
            4
        } else {
            0
        };
        SegmentSelector((idx % 0x2000) * 8 + table + ring.number() as u16)
    }
}

/// One entry of the interrupt descriptor table.
#[derive(Debug, Clone, Copy)]
pub struct IDTEntry {
    pub offset1: u16,
    pub segment_selector: SegmentSelector,
    pub ist: u8,
    pub attribs: u8,
    pub offset2: u16,
    pub offset3: u32,
    pub reserved: u32,
}

impl IDTEntry {
    /// The entry of an interrupt gate for the handler at address
    /// `handler_addr`, reachable from level `dpl`, in the code segment
    /// `code_segment`: the address cut into its low 16, next 16 and high 32
    /// bits, and the attributes present, level and gate type.
    pub fn new(handler_addr: u64, dpl: Ring, code_segment: SegmentSelector) -> (entry: Self)
        ensures
            entry.offset1 == handler_addr % 0x1_0000,
            entry.offset2 == handler_addr / 0x1_0000 % 0x1_0000,
            entry.offset3 == handler_addr / 0x1_0000_0000,
            entry.ist == 0,
            entry.attribs == 0x80 + 32 * dpl.level() + 0x0E,
            entry.reserved == 0,
            entry.segment_selector == code_segment,
    {
        IDTEntry {
            offset1: (handler_addr % 0x1_0000) as u16,
            offset2: (handler_addr / 0x1_0000 % 0x1_0000) as u16,
            offset3: (handler_addr / 0x1_0000_0000) as u32,
            ist: 0,
            attribs: 0x80 + 32 * dpl.number() + 0x0E,
            reserved: 0,
            segment_selector: code_segment,
        }
    }

    /// The entry of a gate that is not present.
    pub fn absent() -> (entry: Self)
        ensures
            entry.attribs == 0x0E,
            entry.ist == 0,
            entry.offset1 == 0,
            entry.offset2 == 0,
            entry.offset3 == 0,
            entry.reserved == 0,
            entry.segment_selector.0 == 0,
    {
        IDTEntry {
            attribs: 0x0E,
            ist: 0,
            offset1: 0,
            segment_selector: SegmentSelector(0),
            reserved: 0,
            offset2: 0,
            offset3: 0,
        }
    }

    /// The handler's address, put together again.
    pub fn handler(&self) -> (addr: u64)
        ensures
            addr == self.offset1 + self.offset2 * 0x1_0000 + self.offset3 * 0x1_0000_0000,
    {
        self.offset1 as u64 + (self.offset2 as u64) * 0x1_0000 + (self.offset3 as u64)
            * 0x1_0000_0000
    }
}

/// The interrupt descriptor table: the exceptions of the processor, then
/// reserved entries.
pub struct IDT {
    pub divide_error: IDTEntry,
    pub debug: IDTEntry,
    pub non_maskable_interrupt: IDTEntry,
    pub breakpoint: IDTEntry,
    pub overflow: IDTEntry,
    pub bound_range_exceeded: IDTEntry,
    pub invalid_opcode: IDTEntry,
    pub device_not_available: IDTEntry,
    pub double_fault: IDTEntry,
    pub reserved_9: IDTEntry,
    pub invalid_tss: IDTEntry,
    pub segment_not_present: IDTEntry,
    pub stack_segment_fault: IDTEntry,
    pub general_protection_fault: IDTEntry,
    pub page_fault: IDTEntry,
    pub reserved_15: IDTEntry,
    pub x87_floating_point: IDTEntry,
    pub alignment_check: IDTEntry,
    pub machine_check: IDTEntry,
    pub simd_floating_point: IDTEntry,
    pub virtualization: IDTEntry,
    pub security_exception: IDTEntry,
    pub more_reserved: [IDTEntry; 10],
}

impl IDT {
    /// A table in which no gate is present.
    pub fn new() -> (table: Self)
        ensures
            table.divide_error.attribs == 0x0E,
            table.page_fault.attribs == 0x0E,
            forall|i: int| 0 <= i < 10 ==> (#[trigger] table.more_reserved@[i]).attribs == 0x0E,
    {
        let e = IDTEntry::absent();
        IDT {
            divide_error: e,
            debug: e,
            non_maskable_interrupt: e,
            breakpoint: e,
            overflow: e,
            bound_range_exceeded: e,
            invalid_opcode: e,
            device_not_available: e,
            double_fault: e,
            reserved_9: e,
            invalid_tss: e,
            segment_not_present: e,
            stack_segment_fault: e,
            general_protection_fault: e,
            page_fault: e,
            reserved_15: e,
            x87_floating_point: e,
            alignment_check: e,
            machine_check: e,
            simd_floating_point: e,
            virtualization: e,
            security_exception: e,
            more_reserved: [e; 10],
        }
    }
}

/// What the processor puts on the stack when an interrupt comes.
pub struct InterruptStackFrame {
    pub instruction_ptr: u64,
    pub code_segment: u64,
    pub cpu_flags: u64,
    pub stack_pointer: u64,
    pub stack_segment: u64,
}

/// The register that names the global descriptor table: its limit and its
/// base address.
#[derive(Debug, Clone, Copy)]
pub struct GDTR {
    pub limit: u16,
    pub base: u64,
}

impl GDTR {
    /// The address of descriptor `idx`, or `None` where `idx` is not below
    /// the limit or the address does not fit into 64 bits.
    pub fn segment_address(&self, idx: u16) -> (address: Option<u64>)
        ensures
            address == if idx < self.limit && self.base + 8 * idx <= u64::MAX {
                Some((self.base + 8 * idx) as u64)
            } else {
                None
            },
    {
        if idx >= self.limit {
            return None;
        }
        let offset: u64 = 8 * (idx as u64);
        if self.base > u64::MAX - offset {
            return None;
        }
        Some(self.base + offset)
    }
}

} // verus!
