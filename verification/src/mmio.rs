//! Decoding of trapped stage-2 MMIO accesses and the virtual devices behind
//! them: a PL011 UART with a receive FIFO and a minimal GICv2 distributor.
use vstd::prelude::*;
use crate::text::{append_decimal, append_hex_prefixed, dec_text, hex_prefixed};
use vstd::string::StringExecFns;

verus! {

pub const ESR_ISV: u32 = 0x100_0000;
pub const ESR_SAS_SHIFT: u32 = 22;
pub const ESR_SSE: u32 = 0x20_0000;
pub const ESR_SRT_SHIFT: u32 = 16;
pub const ESR_SF: u32 = 0x8000;
pub const ESR_WNR: u32 = 0x40;

/// Guest IPA of the trapped virtual GICv2 distributor.
pub const GUEST_GICD_START: u64 = 0x0800_0000;
pub const GUEST_GICD_SIZE: u64 = 0x1000;
/// Guest IPA of the trapped virtual PL011.
pub const GUEST_PL011_START: u64 = 0x0900_0000;
pub const GUEST_PL011_SIZE: u64 = 0x1000;

#[derive(Debug, Clone, Copy, PartialEq, Eq, Structural)]
pub enum MmioDecodeError {
    InstructionSyndromeInvalid,
    SignExtendingRead,
    InvalidAccessSize,
}

/// A load or store reconstructed from a stage-2 Data Abort syndrome.
#[derive(Debug, Clone, Copy, PartialEq, Eq, Structural)]
pub struct MmioAccess {
    pub ipa: u64,
    pub is_write: bool,
    pub width: u8,
    pub register: u8,
    pub register_is_64bit: bool,
}

/// The instruction-specific syndrome of an ESR_EL2 value.
pub open spec fn iss_of(esr_el2: u64) -> u32 {
    (esr_el2 & 0x01ff_ffff) as u32
}

/// The access that a data abort with syndrome `esr_el2` at `ipa` describes:
/// none without a valid instruction syndrome, and none for a sign-extending
/// read.
pub open spec fn decoded(esr_el2: u64, ipa: u64) -> Result<MmioAccess, MmioDecodeError> {
    let iss = iss_of(esr_el2);
    if iss & ESR_ISV == 0 {
        Err(MmioDecodeError::InstructionSyndromeInvalid)
    } else if iss & ESR_WNR == 0 && iss & ESR_SSE != 0 {
        Err(MmioDecodeError::SignExtendingRead)
    } else {
        Ok(
            MmioAccess {
                ipa,
                is_write: iss & ESR_WNR != 0,
                width: (1u32 << ((iss >> ESR_SAS_SHIFT) & 3)) as u8,
                register: ((iss >> ESR_SRT_SHIFT) & 0x1f) as u8,
                register_is_64bit: iss & ESR_SF != 0,
            },
        )
    }
}

/// The fields of a data-abort syndrome, read from its low 25 bits (the
/// ISS): ISV bit 24, SAS bits [23:22], SSE bit 21, SRT bits [20:16], SF bit
/// 15 and WnR bit 6.
proof fn lemma_syndrome_fields(esr: u64)
    by (bit_vector)
    ensures
        (esr as u32) & 0x01ff_ffff == (esr & 0x01ff_ffff) as u32,
        (((esr & 0x01ff_ffff) as u32) & 0x100_0000 == 0) == ((esr / 0x100_0000) % 2 == 0),
        (((esr & 0x01ff_ffff) as u32) & 0x40 == 0) == ((esr / 0x40) % 2 == 0),
        (((esr & 0x01ff_ffff) as u32) & 0x20_0000 == 0) == ((esr / 0x20_0000) % 2 == 0),
        (((esr & 0x01ff_ffff) as u32) & 0x8000 == 0) == ((esr / 0x8000) % 2 == 0),
        ((((esr & 0x01ff_ffff) as u32) >> 22u32) & 3) as u64 == (esr / 0x40_0000) % 4,
        ((((esr & 0x01ff_ffff) as u32) >> 16u32) & 0x1f) as u64 == (esr / 0x1_0000) % 32,
        (1u32 << 0u32) as u8 == 1u8 && (1u32 << 1u32) as u8 == 2u8 && (1u32 << 2u32) as u8 == 4u8 && (1u32
            << 3u32) as u8 == 8u8,
{
}

/// A data abort's syndrome describes the trapped access field by field:
/// without a valid instruction syndrome (ISV, bit 24) there is none, and a
/// read (WnR, bit 6, clear) that sign-extends (SSE, bit 21) is refused;
/// otherwise the access is a write exactly when WnR is set, is
/// 2^SAS bytes wide (SAS, bits [23:22]: 1, 2, 4 or 8 bytes), uses general
/// register SRT (bits [20:16]), as a 64-bit register exactly when SF (bit
/// 15) is set, at the faulting IPA.
pub proof fn lemma_data_abort_fields(esr: u64, ipa: u64)
    ensures
        decoded(esr, ipa) == (if (esr / 0x100_0000) % 2 == 0 {
            Err::<MmioAccess, MmioDecodeError>(MmioDecodeError::InstructionSyndromeInvalid)
        } else if (esr / 0x40) % 2 == 0 && (esr / 0x20_0000) % 2 == 1 {
            Err::<MmioAccess, MmioDecodeError>(MmioDecodeError::SignExtendingRead)
        } else {
            Ok::<MmioAccess, MmioDecodeError>(
                MmioAccess {
                    ipa,
                    is_write: (esr / 0x40) % 2 == 1,
                    width: if (esr / 0x40_0000) % 4 == 0 {
                        1u8
                    } else if (esr / 0x40_0000) % 4 == 1 {
                        2u8
                    } else if (esr / 0x40_0000) % 4 == 2 {
                        4u8
                    } else {
                        8u8
                    },
                    register: ((esr / 0x1_0000) % 32) as u8,
                    register_is_64bit: (esr / 0x8000) % 2 == 1,
                },
            )
        }),
{
    lemma_syndrome_fields(esr);
    let sas = (((esr & 0x01ff_ffff) as u32) >> 22u32) & 3;
    assert(sas == 0 || sas == 1 || sas == 2 || sas == 3);
}

impl MmioAccess {
    pub fn decode_data_abort(esr_el2: u64, ipa: u64) -> (r: Result<Self, MmioDecodeError>)
        ensures
            r == decoded(esr_el2, ipa),
            r matches Ok(a) ==> a.register <= 31,
    {
        proof {
            lemma_syndrome_fields(esr_el2);
        }
        let iss = esr_el2 as u32 & 0x01ff_ffff;
        if iss & ESR_ISV == 0 {
            return Err(MmioDecodeError::InstructionSyndromeInvalid);
        }
        let sas = (iss >> ESR_SAS_SHIFT) & 0x3;
        assert(sas <= 3);
        let width: u8 = match sas {
            0 => 1,
            1 => 2,
            2 => 4,
            3 => 8,
            _ => {
                return Err(MmioDecodeError::InvalidAccessSize);
            },
        };
        assert(width == (1u32 << sas) as u8);
        let is_write = iss & ESR_WNR != 0;
        if !is_write && iss & ESR_SSE != 0 {
            return Err(MmioDecodeError::SignExtendingRead);
        }
        let reg = (iss >> ESR_SRT_SHIFT) & 0x1f;
        assert(reg <= 0x1f);
        Ok(
            Self {
                ipa,
                is_write,
                width,
                register: reg as u8,
                register_is_64bit: iss & ESR_SF != 0,
            },
        )
    }
}

#[derive(Debug, Clone, Copy, PartialEq, Eq, Structural)]
pub enum Pl011Error {
    UnsupportedWidth(u8),
    UnsupportedRead(u64),
    UnsupportedWrite(u64),
}

/// What a PL011 access produced: a register value, or a byte to transmit.
#[derive(Debug, Clone, Copy, PartialEq, Eq, Structural)]
pub enum Pl011Result {
    Read(u64),
    Write(Option<u8>),
}

pub const PL011_DR: u64 = 0x00;
pub const PL011_FR: u64 = 0x18;
pub const PL011_IBRD: u64 = 0x24;
pub const PL011_FBRD: u64 = 0x28;
pub const PL011_LCR_H: u64 = 0x2c;
pub const PL011_CR: u64 = 0x30;
pub const PL011_IMSC: u64 = 0x38;
pub const PL011_RIS: u64 = 0x3c;
pub const PL011_MIS: u64 = 0x40;
pub const PL011_ICR: u64 = 0x44;
pub const PL011_RXIM: u32 = 0x10;
pub const PL011_FR_TX_READY: u64 = 0x80;
pub const PL011_FR_RXFE: u64 = 0x10;
pub const PL011_RX_CAPACITY: usize = 64;

/// The PrimeCell identification registers: PL011 (0x0004_1011) and the AMBA
/// component signature (0xb105_f00d), one byte per register.
pub open spec fn pl011_id_value(offset: u64) -> Option<u64> {
    if offset == 0xfe0 {
        Some(0x11u64)
    } else if offset == 0xfe4 {
        Some(0x10u64)
    } else if offset == 0xfe8 {
        Some(0x04u64)
    } else if offset == 0xfec {
        Some(0x00u64)
    } else if offset == 0xff0 {
        Some(0x0du64)
    } else if offset == 0xff4 {
        Some(0xf0u64)
    } else if offset == 0xff8 {
        Some(0x05u64)
    } else if offset == 0xffc {
        Some(0xb1u64)
    } else {
        None
    }
}

/// A supported access width in bytes.
pub open spec fn narrow_width(width: u8) -> bool {
    width == 1 || width == 2 || width == 4
}

/// One PL011 access on a device whose receive FIFO holds `fifo` and whose
/// interrupt mask is `imsc`: the result, the new FIFO and the new mask.
pub open spec fn pl011_outcome(
    fifo: Seq<u8>,
    imsc: u32,
    offset: u64,
    is_write: bool,
    width: u8,
    value: u64,
) -> (Result<Pl011Result, Pl011Error>, Seq<u8>, u32) {
    if !narrow_width(width) {
        (Err(Pl011Error::UnsupportedWidth(width)), fifo, imsc)
    } else if is_write {
        if offset == PL011_DR {
            (Ok(Pl011Result::Write(Some(value as u8))), fifo, imsc)
        } else if offset == PL011_IMSC {
            (Ok(Pl011Result::Write(None)), fifo, value as u32)
        } else {
            (Ok(Pl011Result::Write(None)), fifo, imsc)
        }
    } else if offset == PL011_DR {
        if fifo.len() == 0 {
            (Ok(Pl011Result::Read(0)), fifo, imsc)
        } else {
            (Ok(Pl011Result::Read(fifo[0] as u64)), fifo.drop_first(), imsc)
        }
    } else {
        let v: u64 = if offset == PL011_FR {
            PL011_FR_TX_READY | if fifo.len() == 0 {
                PL011_FR_RXFE
            } else {
                0
            }
        } else if offset == PL011_IMSC {
            imsc as u64
        } else if offset == PL011_RIS {
            if fifo.len() != 0 {
                PL011_RXIM as u64
            } else {
                0
            }
        } else if offset == PL011_MIS {
            if fifo.len() != 0 && imsc & PL011_RXIM != 0 {
                PL011_RXIM as u64
            } else {
                0
            }
        } else {
            match pl011_id_value(offset) {
                Some(v) => v,
                None => 0,
            }
        };
        (Ok(Pl011Result::Read(v)), fifo, imsc)
    }
}

/// Masking the receive interrupt bit (bit 4) of a raw status with IMSC.
proof fn lemma_rx_mask_bits(imsc: u32)
    by (bit_vector)
    ensures
        (0x10u64 & (imsc as u64)) == (if imsc & 0x10u32 != 0 {
            0x10u64
        } else {
            0u64
        }),
        (0u64 & (imsc as u64)) == 0u64,
        0x10u64 & 0x10u64 == 0x10u64,
        0u64 & 0x10u64 == 0u64,
        0x80u64 | 0x10u64 == 0x90u64,
        0x80u64 | 0u64 == 0x80u64,
{
}

/// The masked interrupt status is the raw interrupt status ANDed with the
/// interrupt mask: a read of UARTMIS (offset 0x40) gives what reads of
/// UARTRIS (0x3c) and UARTIMSC (0x38) give, ANDed. Its receive bit (bit 4)
/// is set exactly when a received byte waits and the receive interrupt is
/// unmasked, and none of the three reads changes the FIFO or the mask.
pub proof fn lemma_mis_is_masked_ris(
    fifo: Seq<u8>,
    imsc: u32,
    width: u8,
    value: u64,
    ris: u64,
    mask: u64,
)
    requires
        width == 1 || width == 2 || width == 4,
        pl011_outcome(fifo, imsc, 0x3c, false, width, value).0 == Ok::<Pl011Result, Pl011Error>(
            Pl011Result::Read(ris),
        ),
        pl011_outcome(fifo, imsc, 0x38, false, width, value).0 == Ok::<Pl011Result, Pl011Error>(
            Pl011Result::Read(mask),
        ),
    ensures
        pl011_outcome(fifo, imsc, 0x40, false, width, value).0 == Ok::<Pl011Result, Pl011Error>(
            Pl011Result::Read(ris & mask),
        ),
        ((ris & mask) & 0x10 != 0) == (fifo.len() != 0 && imsc & 0x10 != 0),
        ris & mask == 0 || ris & mask == 0x10,
        pl011_outcome(fifo, imsc, 0x40, false, width, value).1 == fifo,
        pl011_outcome(fifo, imsc, 0x40, false, width, value).2 == imsc,
{
    lemma_rx_mask_bits(imsc);
    assert(mask == imsc as u64);
}

/// The PL011 registers as a guest sees them. With an access of 1, 2 or 4
/// bytes: reading UARTDR (0x00) takes the oldest received byte, or gives 0
/// with nothing received; reading UARTFR (0x18) gives bit 7 (TXFE, ready
/// to transmit) set, bit 4 (RXFE) set exactly when nothing is received, and
/// every other flag clear; reading UARTRIS (0x3c) gives bit 4 (receive) set
/// exactly when a byte waits; a write of UARTIMSC (0x38) is read back as
/// the written value; a write of UARTDR hands its low byte on for
/// transmission. Only UARTDR reads and UARTIMSC writes change the device.
/// Any other access width is refused and changes nothing.
pub proof fn lemma_pl011_registers(fifo: Seq<u8>, imsc: u32, width: u8, value: u64)
    ensures
        !(width == 1 || width == 2 || width == 4) ==> forall|offset: u64, is_write: bool|
            #[trigger] pl011_outcome(fifo, imsc, offset, is_write, width, value) == (Err::<
                Pl011Result,
                Pl011Error,
            >(Pl011Error::UnsupportedWidth(width)), fifo, imsc),
        (width == 1 || width == 2 || width == 4) ==> {
            &&& fifo.len() == 0 ==> pl011_outcome(fifo, imsc, 0x00, false, width, value) == (Ok::<
                Pl011Result,
                Pl011Error,
            >(Pl011Result::Read(0)), fifo, imsc)
            &&& fifo.len() > 0 ==> pl011_outcome(fifo, imsc, 0x00, false, width, value) == (Ok::<
                Pl011Result,
                Pl011Error,
            >(Pl011Result::Read(fifo[0] as u64)), fifo.subrange(1, fifo.len() as int), imsc)
            &&& pl011_outcome(fifo, imsc, 0x18, false, width, value) == (Ok::<Pl011Result, Pl011Error>(
                Pl011Result::Read(
                    if fifo.len() == 0 {
                        0x90u64
                    } else {
                        0x80u64
                    },
                ),
            ), fifo, imsc)
            &&& pl011_outcome(fifo, imsc, 0x3c, false, width, value) == (Ok::<Pl011Result, Pl011Error>(
                Pl011Result::Read(
                    if fifo.len() != 0 {
                        0x10u64
                    } else {
                        0u64
                    },
                ),
            ), fifo, imsc)
            &&& pl011_outcome(fifo, imsc, 0x38, true, width, value) == (Ok::<Pl011Result, Pl011Error>(
                Pl011Result::Write(None),
            ), fifo, value as u32)
            &&& pl011_outcome(fifo, value as u32, 0x38, false, width, value) == (Ok::<
                Pl011Result,
                Pl011Error,
            >(Pl011Result::Read((value as u32) as u64)), fifo, value as u32)
            &&& pl011_outcome(fifo, imsc, 0x00, true, width, value) == (Ok::<Pl011Result, Pl011Error>(
                Pl011Result::Write(Some(value as u8)),
            ), fifo, imsc)
        },
{
    lemma_rx_mask_bits(imsc);
    if fifo.len() > 0 {
        assert(fifo.drop_first() =~= fifo.subrange(1, fifo.len() as int));
    }
}

/// Emulated PrimeCell PL011 with a bounded receive FIFO.
#[derive(Debug)]
pub struct VirtualPl011 {
    imsc: u32,
    rx: [u8; 64],
    rx_head: usize,
    rx_len: usize,
}

impl VirtualPl011 {
    pub const DR: u64 = 0x00;
    pub const FR: u64 = 0x18;
    pub const IMSC: u64 = 0x38;
    pub const RIS: u64 = 0x3c;
    pub const MIS: u64 = 0x40;
    pub const RXIM: u32 = 0x10;
    pub const FR_TX_READY: u64 = 0x80;
    pub const FR_RXFE: u64 = 0x10;

    /// The bytes waiting in the receive FIFO, oldest first.
    pub closed spec fn fifo(&self) -> Seq<u8> {
        Seq::new(self.rx_len as nat, |i: int| self.rx@[(self.rx_head + i) % 64])
    }

    pub closed spec fn imsc_spec(&self) -> u32 {
        self.imsc
    }

    pub closed spec fn wf(&self) -> bool {
        self.rx_head < 64 && self.rx_len <= 64
    }

    pub proof fn lemma_wf(&self)
        requires
            self.wf(),
        ensures
            self.fifo().len() <= 64,
    {
    }

    pub fn new() -> (r: Self)
        ensures
            r.wf(),
            r.fifo() == Seq::<u8>::empty(),
            r.imsc_spec() == 0,
    {
        let r = VirtualPl011 { imsc: 0, rx: [0; 64], rx_head: 0, rx_len: 0 };
        assert(r.fifo() =~= Seq::<u8>::empty());
        r
    }

    /// Appends a received byte; false, with nothing changed, when full.
    pub fn enqueue_rx(&mut self, byte: u8) -> (r: bool)
        requires
            old(self).wf(),
        ensures
            final(self).wf(),
            final(self).imsc_spec() == old(self).imsc_spec(),
            r == (old(self).fifo().len() < 64),
            r ==> final(self).fifo() == old(self).fifo().push(byte),
            !r ==> final(self).fifo() == old(self).fifo(),
    {
        if self.rx_len == 64 {
            return false;
        }
        let tail = (self.rx_head + self.rx_len) % 64;
        self.rx[tail] = byte;
        self.rx_len += 1;
        proof {
            assert(self.fifo() =~= old(self).fifo().push(byte));
        }
        true
    }

    /// Removes and returns the oldest received byte, or 0 when empty.
    pub fn dequeue_rx(&mut self) -> (r: u8)
        requires
            old(self).wf(),
        ensures
            final(self).wf(),
            final(self).imsc_spec() == old(self).imsc_spec(),
            old(self).fifo().len() == 0 ==> r == 0 && final(self).fifo() == old(self).fifo(),
            old(self).fifo().len() > 0 ==> r == old(self).fifo()[0] && final(self).fifo()
                == old(self).fifo().drop_first(),
    {
        if self.rx_len == 0 {
            return 0;
        }
        let byte = self.rx[self.rx_head];
        self.rx_head = (self.rx_head + 1) % 64;
        self.rx_len -= 1;
        proof {
            assert(self.fifo() =~= old(self).fifo().drop_first());
        }
        byte
    }

    /// A received byte waits and its interrupt is unmasked.
    pub fn rx_irq_pending(&self) -> (r: bool)
        requires
            self.wf(),
        ensures
            r == (self.fifo().len() != 0 && self.imsc_spec() & PL011_RXIM != 0),
    {
        self.rx_len != 0 && self.imsc & Self::RXIM != 0
    }

    pub fn access(&mut self, offset: u64, is_write: bool, width: u8, value: u64) -> (r: Result<
        Pl011Result,
        Pl011Error,
    >)
        requires
            old(self).wf(),
        ensures
            final(self).wf(),
            (r, final(self).fifo(), final(self).imsc_spec()) == pl011_outcome(
                old(self).fifo(),
                old(self).imsc_spec(),
                offset,
                is_write,
                width,
                value,
            ),
    {
        if !(width == 1 || width == 2 || width == 4) {
            return Err(Pl011Error::UnsupportedWidth(width));
        }
        if is_write {
            if offset == PL011_DR {
                Ok(Pl011Result::Write(Some(value as u8)))
            } else if offset == PL011_IMSC {
                self.imsc = value as u32;
                Ok(Pl011Result::Write(None))
            } else {
                Ok(Pl011Result::Write(None))
            }
        } else if offset == PL011_DR {
            Ok(Pl011Result::Read(self.dequeue_rx() as u64))
        } else if offset == PL011_FR {
            Ok(
                Pl011Result::Read(
                    PL011_FR_TX_READY | if self.rx_len == 0 {
                        PL011_FR_RXFE
                    } else {
                        0
                    },
                ),
            )
        } else if offset == PL011_IMSC {
            Ok(Pl011Result::Read(self.imsc as u64))
        } else if offset == PL011_RIS {
            Ok(
                Pl011Result::Read(
                    if self.rx_len != 0 {
                        PL011_RXIM as u64
                    } else {
                        0
                    },
                ),
            )
        } else if offset == PL011_MIS {
            Ok(
                Pl011Result::Read(
                    if self.rx_irq_pending() {
                        PL011_RXIM as u64
                    } else {
                        0
                    },
                ),
            )
        } else if offset == 0xfe0 {
            Ok(Pl011Result::Read(0x11))
        } else if offset == 0xfe4 {
            Ok(Pl011Result::Read(0x10))
        } else if offset == 0xfe8 {
            Ok(Pl011Result::Read(0x04))
        } else if offset == 0xfec {
            Ok(Pl011Result::Read(0x00))
        } else if offset == 0xff0 {
            Ok(Pl011Result::Read(0x0d))
        } else if offset == 0xff4 {
            Ok(Pl011Result::Read(0xf0))
        } else if offset == 0xff8 {
            Ok(Pl011Result::Read(0x05))
        } else if offset == 0xffc {
            Ok(Pl011Result::Read(0xb1))
        } else {
            Ok(Pl011Result::Read(0))
        }
    }
}

impl Default for VirtualPl011 {
    fn default() -> (r: Self)
        ensures
            r.wf(),
            r.fifo() == Seq::<u8>::empty(),
            r.imsc_spec() == 0,
    {
        VirtualPl011::new()
    }
}

#[derive(Debug, Clone, Copy, PartialEq, Eq, Structural)]
pub enum MmioEmulationError {
    UnmappedIpa(u64),
    Pl011(Pl011Error),
    GicDistributor,
}

impl From<Pl011Error> for MmioEmulationError {
    fn from(error: Pl011Error) -> (r: Self) {
        MmioEmulationError::Pl011(error)
    }
}

impl vstd::std_specs::convert::FromSpecImpl<Pl011Error> for MmioEmulationError {
    open spec fn obeys_from_spec() -> bool {
        true
    }

    open spec fn from_spec(v: Pl011Error) -> MmioEmulationError {
        MmioEmulationError::Pl011(v)
    }
}

/// Offsets inside the distributor banks that Linux initializes and that read
/// as zero: IGROUPR, ISENABLER/ICENABLER, ICPENDR, IPRIORITYR and ICFGR.
pub open spec fn gicd_zero_bank(offset: u64) -> bool {
    (0x080 <= offset <= 0x0ff) || (0x100 <= offset <= 0x1ff) || (0x280 <= offset <= 0x2ff) || (
    0x400 <= offset <= 0x7ff) || (0xc00 <= offset <= 0xcff)
}

/// One access to the virtual distributor whose GICD_CTLR is `ctlr`: the
/// result and the new GICD_CTLR.
pub open spec fn gicd_outcome(ctlr: u32, offset: u64, is_write: bool, width: u8, value: u64) -> (
    Result<u64, ()>,
    u32,
) {
    if !narrow_width(width) {
        (Err(()), ctlr)
    } else if is_write {
        if offset == 0 {
            (Ok(0u64), (value as u32) & 1)
        } else {
            (Ok(0u64), ctlr)
        }
    } else if offset == 0 {
        (Ok(ctlr as u64), ctlr)
    } else if offset == 0x004 {
        (Ok(1u64), ctlr)
    } else if offset == 0x008 {
        (Ok(0x0200_0043u64), ctlr)
    } else if 0x800 <= offset <= 0x8ff {
        (Ok(0x0101_0101u64), ctlr)
    } else {
        (Ok(0u64), ctlr)
    }
}

proof fn lemma_ctlr_enable_bit(value: u64)
    by (bit_vector)
    ensures
        ((value as u32) & 1) == (value % 2) as u32,
{
}

/// The virtual distributor as a guest sees it, for accesses of 1, 2 or 4
/// bytes: GICD_CTLR (0x000) keeps only the group-enable bit (bit 0) of what
/// is written and reads back what it keeps; writes anywhere else change
/// nothing and every write completes with 0; GICD_TYPER (0x004) reads 1 (64
/// interrupt lines, one CPU); GICD_IIDR (0x008) reads 0x0200_0043; each GICD_ITARGETSR byte (0x800 to 0x8ff) names CPU 0; other
/// registers read 0. Any other width is refused and changes nothing.
pub proof fn lemma_gicd_registers(ctlr: u32, width: u8, offset: u64, value: u64)
    ensures
        !(width == 1 || width == 2 || width == 4) ==> gicd_outcome(ctlr, offset, true, width, value) == (
        Err::<u64, ()>(()), ctlr) && gicd_outcome(ctlr, offset, false, width, value) == (Err::<u64, ()>(()), ctlr),
        (width == 1 || width == 2 || width == 4) ==> {
            &&& gicd_outcome(ctlr, 0, true, width, value) == (Ok::<u64, ()>(0), (value % 2) as u32)
            &&& gicd_outcome((value % 2) as u32, 0, false, width, value) == (Ok::<u64, ()>(value % 2), (value
                % 2) as u32)
            &&& offset != 0 ==> gicd_outcome(ctlr, offset, true, width, value) == (Ok::<u64, ()>(0), ctlr)
            &&& gicd_outcome(ctlr, 0x004, false, width, value) == (Ok::<u64, ()>(1), ctlr)
            &&& gicd_outcome(ctlr, 0x008, false, width, value) == (Ok::<u64, ()>(0x0200_0043), ctlr)
            &&& 0x800 <= offset <= 0x8ff ==> gicd_outcome(ctlr, offset, false, width, value) == (Ok::<u64, ()>(
                0x0101_0101,
            ), ctlr)
            &&& !(offset <= 0x008 && offset % 4 == 0) && !(0x800 <= offset <= 0x8ff) ==> gicd_outcome(
                ctlr,
                offset,
                false,
                width,
                value,
            ) == (Ok::<u64, ()>(0), ctlr)
        },
{
    lemma_ctlr_enable_bit(value);
}

/// Minimal single-vCPU GICv2 distributor: discovery and configuration state
/// only. The host distributor is never mapped into the guest.
#[derive(Debug, Default)]
pub struct VirtualGicDistributor {
    ctlr: u32,
}

impl VirtualGicDistributor {
    pub closed spec fn ctlr_spec(&self) -> u32 {
        self.ctlr
    }

    pub fn new() -> (r: Self)
        ensures
            r.ctlr_spec() == 0,
    {
        VirtualGicDistributor { ctlr: 0 }
    }

    pub fn access(&mut self, offset: u64, is_write: bool, width: u8, value: u64) -> (r: Result<
        u64,
        (),
    >)
        ensures
            (r, final(self).ctlr_spec()) == gicd_outcome(
                old(self).ctlr_spec(),
                offset,
                is_write,
                width,
                value,
            ),
    {
        if !(width == 1 || width == 2 || width == 4) {
            return Err(());
        }
        if is_write {
            if offset == 0 {
                self.ctlr = value as u32 & 1;
            }
            // Banked registers that Linux initializes are accepted and
            // ignored; the rest of the distributor is RAZ/WI.
            Ok(0)
        } else if offset == 0 {
            Ok(self.ctlr as u64)
        } else if offset == 0x004 {
            // Two banks: private interrupts plus the virtual PL011 SPI.
            Ok(1)
        } else if offset == 0x008 {
            Ok(0x0200_0043)
        } else if 0x800 <= offset && offset <= 0x8ff {
            // Every target byte names the only guest vCPU.
            Ok(0x0101_0101)
        } else {
            Ok(0)
        }
    }
}

/// The guest registers after a read of `v` into `register`: unchanged for
/// the zero register (31), otherwise the value, zero-extended from 32 bits
/// for a W register.
pub open spec fn registers_after_read(regs: Seq<u64>, register: u8, is_64bit: bool, v: u64) -> Seq<
    u64,
> {
    if register == 31 {
        regs
    } else {
        regs.update(
            register as int,
            if is_64bit {
                v
            } else {
                v & 0xffff_ffff
            },
        )
    }
}

/// The value that a store of `register` writes: zero for the zero register.
pub open spec fn stored_value(regs: Seq<u64>, register: u8) -> u64 {
    if register == 31 {
        0
    } else {
        regs[register as int]
    }
}

/// Trapped-MMIO dispatcher. Devices never receive host physical MMIO.
#[derive(Debug)]
pub struct MmioDispatcher {
    pl011: VirtualPl011,
    gicd: VirtualGicDistributor,
}

impl Default for MmioDispatcher {
    fn default() -> (r: Self)
        ensures
            r.wf(),
            r.rx_fifo() == Seq::<u8>::empty(),
            r.rx_mask() == 0,
            r.gicd_ctlr() == 0,
    {
        MmioDispatcher::new()
    }
}

/// What emulating `access` does: from the virtual PL011's receive FIFO and
/// interrupt mask, the distributor's control register and the guest's
/// registers before, to their values after and the result.
pub open spec fn emulated(
    old_rx: Seq<u8>,
    old_mask: u32,
    old_ctlr: u32,
    new_rx: Seq<u8>,
    new_mask: u32,
    new_ctlr: u32,
    access: MmioAccess,
    old_regs: Seq<u64>,
    new_regs: Seq<u64>,
    r: Result<Option<u8>, MmioEmulationError>,
) -> bool {
    &&& (GUEST_GICD_START <= access.ipa < GUEST_GICD_START + GUEST_GICD_SIZE ==> {
        let (res, ctlr) = gicd_outcome(
            old_ctlr,
            (access.ipa - GUEST_GICD_START) as u64,
            access.is_write,
            access.width,
            stored_value(old_regs, access.register),
        );
        &&& new_ctlr == ctlr
        &&& new_rx == old_rx
        &&& new_mask == old_mask
        &&& match res {
            Err(_) => r == Err::<Option<u8>, MmioEmulationError>(
                MmioEmulationError::GicDistributor,
            ) && new_regs == old_regs,
            Ok(v) => r == Ok::<Option<u8>, MmioEmulationError>(None) && new_regs == (
            if access.is_write {
                old_regs
            } else {
                registers_after_read(
                    old_regs,
                    access.register,
                    access.register_is_64bit,
                    v,
                )
            }),
        }
    })
    &&& (!(GUEST_GICD_START <= access.ipa < GUEST_GICD_START + GUEST_GICD_SIZE) && (
    GUEST_PL011_START <= access.ipa < GUEST_PL011_START + GUEST_PL011_SIZE) ==> {
        let (res, fifo, imsc) = pl011_outcome(
            old_rx,
            old_mask,
            (access.ipa - GUEST_PL011_START) as u64,
            access.is_write,
            access.width,
            stored_value(old_regs, access.register),
        );
        &&& new_rx == fifo
        &&& new_mask == imsc
        &&& new_ctlr == old_ctlr
        &&& match res {
            Err(e) => r == Err::<Option<u8>, MmioEmulationError>(
                MmioEmulationError::Pl011(e),
            ) && new_regs == old_regs,
            Ok(Pl011Result::Read(v)) => r == Ok::<Option<u8>, MmioEmulationError>(None)
                && new_regs == registers_after_read(
                old_regs,
                access.register,
                access.register_is_64bit,
                v,
            ),
            Ok(Pl011Result::Write(b)) => r == Ok::<Option<u8>, MmioEmulationError>(b)
                && new_regs == old_regs,
        }
    })
    &&& (!(GUEST_GICD_START <= access.ipa < GUEST_GICD_START + GUEST_GICD_SIZE) && !(
    GUEST_PL011_START <= access.ipa < GUEST_PL011_START + GUEST_PL011_SIZE) ==> {
        &&& r == Err::<Option<u8>, MmioEmulationError>(MmioEmulationError::UnmappedIpa(access.ipa))
        &&& new_regs == old_regs
        &&& new_rx == old_rx
        &&& new_mask == old_mask
        &&& new_ctlr == old_ctlr
    })
}

/// The result of emulating `access` from the given device state and guest
/// registers.
pub open spec fn emulation_result(
    old_rx: Seq<u8>,
    old_mask: u32,
    old_ctlr: u32,
    access: MmioAccess,
    old_regs: Seq<u64>,
) -> Result<Option<u8>, MmioEmulationError> {
    if GUEST_GICD_START <= access.ipa < GUEST_GICD_START + GUEST_GICD_SIZE {
        match gicd_outcome(
            old_ctlr,
            (access.ipa - GUEST_GICD_START) as u64,
            access.is_write,
            access.width,
            stored_value(old_regs, access.register),
        ).0 {
            Err(_) => Err(MmioEmulationError::GicDistributor),
            Ok(_) => Ok(None),
        }
    } else if GUEST_PL011_START <= access.ipa < GUEST_PL011_START + GUEST_PL011_SIZE {
        match pl011_outcome(
            old_rx,
            old_mask,
            (access.ipa - GUEST_PL011_START) as u64,
            access.is_write,
            access.width,
            stored_value(old_regs, access.register),
        ).0 {
            Err(e) => Err(MmioEmulationError::Pl011(e)),
            Ok(Pl011Result::Read(_)) => Ok(None),
            Ok(Pl011Result::Write(b)) => Ok(b),
        }
    } else {
        Err(MmioEmulationError::UnmappedIpa(access.ipa))
    }
}

impl MmioDispatcher {
    pub closed spec fn rx_fifo(&self) -> Seq<u8> {
        self.pl011.fifo()
    }

    pub closed spec fn rx_mask(&self) -> u32 {
        self.pl011.imsc_spec()
    }

    pub closed spec fn gicd_ctlr(&self) -> u32 {
        self.gicd.ctlr_spec()
    }

    pub closed spec fn wf(&self) -> bool {
        self.pl011.wf()
    }

    pub fn new() -> (r: Self)
        ensures
            r.wf(),
            r.rx_fifo() == Seq::<u8>::empty(),
            r.rx_mask() == 0,
            r.gicd_ctlr() == 0,
    {
        MmioDispatcher { pl011: VirtualPl011::new(), gicd: VirtualGicDistributor::new() }
    }

    /// Routes a host-console byte into the virtual PL011.
    pub fn enqueue_pl011_rx(&mut self, byte: u8) -> (r: bool)
        requires
            old(self).wf(),
        ensures
            final(self).wf(),
            final(self).rx_mask() == old(self).rx_mask(),
            final(self).gicd_ctlr() == old(self).gicd_ctlr(),
            r == (old(self).rx_fifo().len() < PL011_RX_CAPACITY),
            r ==> final(self).rx_fifo() == old(self).rx_fifo().push(byte),
            !r ==> final(self).rx_fifo() == old(self).rx_fifo(),
    {
        self.pl011.enqueue_rx(byte)
    }

    pub fn pl011_rx_irq_pending(&self) -> (r: bool)
        requires
            self.wf(),
        ensures
            r == (self.rx_fifo().len() != 0 && self.rx_mask() & PL011_RXIM != 0),
    {
        self.pl011.rx_irq_pending()
    }

    /// Emulates one access. A returned byte is for the host console; the
    /// caller forwards it only after this succeeds.
    pub fn emulate(&mut self, access: MmioAccess, registers: &mut [u64; 31]) -> (r: Result<
        Option<u8>,
        MmioEmulationError,
    >)
        requires
            old(self).wf(),
            access.register <= 31,
        ensures
            final(self).wf(),
            emulated(
                old(self).rx_fifo(),
                old(self).rx_mask(),
                old(self).gicd_ctlr(),
                final(self).rx_fifo(),
                final(self).rx_mask(),
                final(self).gicd_ctlr(),
                access,
                old(registers)@,
                final(registers)@,
                r,
            ),
            r == emulation_result(
                old(self).rx_fifo(),
                old(self).rx_mask(),
                old(self).gicd_ctlr(),
                access,
                old(registers)@,
            ),
    {
        if access.ipa >= GUEST_GICD_START && access.ipa - GUEST_GICD_START < GUEST_GICD_SIZE {
            let offset = access.ipa - GUEST_GICD_START;
            let value = if access.register == 31 {
                0
            } else {
                registers[access.register as usize]
            };
            let result = match self.gicd.access(offset, access.is_write, access.width, value) {
                Ok(v) => v,
                Err(_) => {
                    return Err(MmioEmulationError::GicDistributor);
                },
            };
            if !access.is_write && access.register != 31 {
                registers[access.register as usize] = if access.register_is_64bit {
                    result
                } else {
                    result & 0xffff_ffff
                };
            }
            return Ok(None);
        }
        if !(access.ipa >= GUEST_PL011_START && access.ipa - GUEST_PL011_START < GUEST_PL011_SIZE) {
            return Err(MmioEmulationError::UnmappedIpa(access.ipa));
        }
        let offset = access.ipa - GUEST_PL011_START;
        let value = if access.register == 31 {
            0
        } else {
            registers[access.register as usize]
        };
        match self.pl011.access(offset, access.is_write, access.width, value) {
            Err(e) => Err(MmioEmulationError::Pl011(e)),
            Ok(Pl011Result::Read(v)) => {
                if access.register != 31 {
                    registers[access.register as usize] = if access.register_is_64bit {
                        v
                    } else {
                        v & 0xffff_ffff
                    };
                }
                Ok(None)
            },
            Ok(Pl011Result::Write(byte)) => Ok(byte),
        }
    }
}

/// The virtual PL011 receives in arrival order: a byte that arrives while
/// others wait is read after them, and reading the data register returns
/// the oldest byte, whether or not more arrived meanwhile.
pub proof fn law_rx_first_in_first_out(fifo: Seq<u8>, imsc: u32, width: u8, byte: u8)
    requires
        narrow_width(width),
    ensures
        ({
            let (before, rest, _) = pl011_outcome(fifo, imsc, PL011_DR, false, width, 0);
            let (after, rest2, _) = pl011_outcome(fifo.push(byte), imsc, PL011_DR, false, width, 0);
            &&& fifo.len() > 0 ==> after == before && rest2 == rest.push(byte)
            &&& fifo.len() == 0 ==> after == Ok::<Pl011Result, Pl011Error>(
                Pl011Result::Read(byte as u64),
            ) && rest2.len() == 0
        }),
{
    if fifo.len() > 0 {
        assert(fifo.push(byte).drop_first() =~= fifo.drop_first().push(byte));
    } else {
        assert(fifo.push(byte).drop_first() =~= Seq::<u8>::empty());
    }
}

impl MmioDecodeError {
    /// Why the access could not be decoded, in words.
    pub open spec fn message(self) -> Seq<char> {
        match self {
            MmioDecodeError::InstructionSyndromeInvalid => "stage-2 abort has no valid instruction syndrome"@,
            MmioDecodeError::SignExtendingRead => "sign-extending MMIO read is unsupported"@,
            MmioDecodeError::InvalidAccessSize => "invalid stage-2 MMIO access size"@,
        }
    }

    /// The error in words.
    pub fn to_string(&self) -> (r: String)
        ensures
            r@ == self.message(),
    {
        let text = match self {
            MmioDecodeError::InstructionSyndromeInvalid => "stage-2 abort has no valid instruction syndrome",
            MmioDecodeError::SignExtendingRead => "sign-extending MMIO read is unsupported",
            MmioDecodeError::InvalidAccessSize => "invalid stage-2 MMIO access size",
        };
        String::from_str(text)
    }
}

impl Pl011Error {
    /// Which access the UART refused, in words.
    pub open spec fn message(self) -> Seq<char> {
        match self {
            Pl011Error::UnsupportedWidth(w) => "PL011 does not support "@ + dec_text(w as nat) + "-byte accesses"@,
            Pl011Error::UnsupportedRead(o) => "unsupported PL011 read at offset "@ + hex_prefixed(o as nat),
            Pl011Error::UnsupportedWrite(o) => "unsupported PL011 write at offset "@ + hex_prefixed(o as nat),
        }
    }

    /// The error in words.
    pub fn to_string(&self) -> (r: String)
        ensures
            r@ == self.message(),
    {
        match self {
            Pl011Error::UnsupportedWidth(w) => {
                let mut text = String::from_str("PL011 does not support ");
                append_decimal(&mut text, *w as u64);
                text.append("-byte accesses");
                text
            }
            Pl011Error::UnsupportedRead(o) => {
                let mut text = String::from_str("unsupported PL011 read at offset ");
                append_hex_prefixed(&mut text, *o);
                text
            }
            Pl011Error::UnsupportedWrite(o) => {
                let mut text = String::from_str("unsupported PL011 write at offset ");
                append_hex_prefixed(&mut text, *o);
                text
            }
        }
    }
}

impl MmioEmulationError {
    /// Why the access was not emulated, in words.
    pub open spec fn message(self) -> Seq<char> {
        match self {
            MmioEmulationError::UnmappedIpa(ipa) => "no virtual MMIO device at IPA "@ + hex_prefixed(ipa as nat),
            MmioEmulationError::Pl011(e) => "PL011 emulation failed: "@ + e.message(),
            MmioEmulationError::GicDistributor => "unsupported virtual GIC distributor access"@,
        }
    }

    /// The error in words.
    pub fn to_string(&self) -> (r: String)
        ensures
            r@ == self.message(),
    {
        match self {
            MmioEmulationError::UnmappedIpa(ipa) => {
                let mut text = String::from_str("no virtual MMIO device at IPA ");
                append_hex_prefixed(&mut text, *ipa);
                text
            }
            MmioEmulationError::Pl011(e) => {
                let mut text = String::from_str("PL011 emulation failed: ");
                let inner = e.to_string();
                text.append(inner.as_str());
                text
            }
            MmioEmulationError::GicDistributor => {
                String::from_str("unsupported virtual GIC distributor access")
            }
        }
    }
}

} // verus!
