//! Encodings of the x86-64 descriptor tables, the serial hex format and the
//! timer divisor: the values the boot code writes to hardware.
use vstd::prelude::*;

verus! {

/// Kernel code selector.
pub const KERNEL_CS: u16 = 0x08;

/// Interrupt gate, present, DPL 0.
pub const GATE_KERNEL: u8 = 0x8E;

/// Interrupt gate, present, DPL 3: reachable with `int` from user mode.
pub const GATE_USER: u8 = 0xEE;

/// The syscall vector, the one gate user code may raise.
pub const SYSCALL_VECTOR: usize = 128;

/// Limit of the TSS descriptor: the TSS is 104 bytes.
pub const TSS_LIMIT: u64 = 103;

/// Frequency of the programmable interval timer's input clock, in Hz.
pub const PIT_BASE_HZ: u32 = 1_193_182;

/// The GDT: null, kernel code, kernel data, user data, user code, and two
/// words for the TSS descriptor.
pub const GDT_NULL: u64 = 0;
pub const GDT_KERNEL_CODE: u64 = 0x00AF_9A00_0000_FFFF;
pub const GDT_KERNEL_DATA: u64 = 0x00CF_9200_0000_FFFF;
pub const GDT_USER_DATA: u64 = 0x00CF_F200_0000_FFFF;
pub const GDT_USER_CODE: u64 = 0x00AF_FA00_0000_FFFF;

/// An IDT entry.
#[derive(Clone, Copy, PartialEq, Eq, Structural, Debug)]
pub struct IdtEntry {
    pub offset_low: u16,
    pub selector: u16,
    pub ist: u8,
    pub type_attr: u8,
    pub offset_mid: u16,
    pub offset_high: u32,
    pub reserved: u32,
}

/// Builds the IDT entry of `vector`, which jumps to `handler`; only the
/// syscall vector accepts `int` from ring 3.
pub fn idt_set_gate(vector: usize, handler: u64) -> (r: IdtEntry)
    ensures
        r == (IdtEntry {
            offset_low: handler as u16,
            selector: KERNEL_CS,
            ist: 0,
            type_attr: if vector == SYSCALL_VECTOR { GATE_USER } else { GATE_KERNEL },
            offset_mid: (handler >> 16u64) as u16,
            offset_high: (handler >> 32u64) as u32,
            reserved: 0,
        }),
{
    IdtEntry {
        offset_low: handler as u16,
        selector: KERNEL_CS,
        ist: 0,
        type_attr: if vector == SYSCALL_VECTOR { GATE_USER } else { GATE_KERNEL },
        offset_mid: (handler >> 16u64) as u16,
        offset_high: (handler >> 32u64) as u32,
        reserved: 0,
    }
}

/// The two GDT words of an available 64-bit TSS at `addr`.
pub open spec fn tss_words(addr: u64) -> (u64, u64) {
    (
        TSS_LIMIT | ((addr & 0xFFFF) << 16u64) | (((addr >> 16u64) & 0xFF) << 32u64) | (0x89u64
            << 40u64) | (((addr >> 24u64) & 0xFF) << 56u64),
        addr >> 32u64,
    )
}

/// The GDT with the TSS descriptor for a TSS at `tss_addr`.
pub fn gdt_entries(tss_addr: u64) -> (r: [u64; 7])
    ensures
        r@ == seq![
            GDT_NULL,
            GDT_KERNEL_CODE,
            GDT_KERNEL_DATA,
            GDT_USER_DATA,
            GDT_USER_CODE,
            tss_words(tss_addr).0,
            tss_words(tss_addr).1,
        ],
{
    let low = TSS_LIMIT | ((tss_addr & 0xFFFF) << 16u64) | (((tss_addr >> 16u64) & 0xFF) << 32u64)
        | (0x89u64 << 40u64) | (((tss_addr >> 24u64) & 0xFF) << 56u64);
    let high = tss_addr >> 32u64;
    let r = [GDT_NULL, GDT_KERNEL_CODE, GDT_KERNEL_DATA, GDT_USER_DATA, GDT_USER_CODE, low, high];
    assert(r@ =~= seq![
        GDT_NULL,
        GDT_KERNEL_CODE,
        GDT_KERNEL_DATA,
        GDT_USER_DATA,
        GDT_USER_CODE,
        tss_words(tss_addr).0,
        tss_words(tss_addr).1,
    ]);
    r
}

/// The upper-case ASCII hex digit for `d < 16` (48 is `0`, 65 is `A`).
pub open spec fn hex_digit(d: u64) -> u8 {
    if d < 10 {
        (48 + d) as u8
    } else {
        (65 + d - 10) as u8
    }
}

/// The sixteen hex digits of `val`, most significant first.
pub open spec fn hex16(val: u64) -> Seq<u8> {
    Seq::new(16, |i: int| hex_digit((val >> ((60 - 4 * i) as u64)) & 0xF))
}

/// The sixteen upper-case hex digits of `val` that the serial console
/// prints, most significant first.
pub fn serial_write_hex(val: u64) -> (r: [u8; 16])
    ensures
        r@ == hex16(val),
{
    let mut buf = [48u8; 16];
    let mut i: usize = 0;
    while i < 16
        invariant
            i <= 16,
            forall|j: int| 0 <= j < i ==> buf@[j] == hex_digit((val >> ((60 - 4 * j) as u64)) & 0xF),
        decreases 16 - i,
    {
        let d = (val >> ((60 - 4 * i) as u64)) & 0xF;
        assert(d < 16) by (bit_vector)
            requires
                d == (val >> ((60 - 4 * i) as u64)) & 0xF,
        ;
        buf[i] = if d < 10 { 48u8 + d as u8 } else { 65u8 + (d as u8 - 10) };
        i = i + 1;
    }
    assert(buf@ =~= hex16(val));
    buf
}

/// The PIT reload value for an interrupt rate of `freq` Hz.
pub fn pit_divisor(freq: u32) -> (r: u32)
    requires
        freq > 0,
    ensures
        r == PIT_BASE_HZ / freq,
{
    PIT_BASE_HZ / freq
}

} // verus!
