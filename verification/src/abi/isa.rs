//! The tamal instruction set: width-checked operand types and the
//! instruction type the assembler lowers to.
use vstd::prelude::*;

verus! {

/// A 5-bit register selector, `x0..=x31`.
#[derive(Debug, Clone, Copy, PartialEq, Eq, Structural, PartialOrd, Ord, Hash)]
pub struct Reg(u8);

impl Reg {
    /// The largest representable value (`2^5 - 1`).
    pub const MAX: u8 = 31;

    #[verifier::type_invariant]
    spec fn inv(self) -> bool {
        self.0 <= 31
    }

    /// The raw field value, as a spec value.
    pub closed spec fn value(self) -> u8 {
        self.0
    }

    /// The value holding `v` (meaningful for `v` within the field width).
    pub closed spec fn spec_new(v: u8) -> Self {
        Reg(v)
    }

    /// A value built from `v` holds `v`.
    pub broadcast proof fn lemma_spec_new(v: u8)
        ensures
            #[trigger] Self::spec_new(v).value() == v,
    {
    }

    /// A value is the one built from the field it holds.
    pub broadcast proof fn lemma_value_determines(a: Self)
        ensures
            #[trigger] Self::spec_new(a.value()) == a,
    {
    }

    /// Construct if `v` fits in the field width, else `None`.
    pub fn new(v: u8) -> (res: Option<Self>)
        ensures
            res == if v <= 31 {
                Some(Self::spec_new(v))
            } else {
                None::<Self>
            },
    {
        if v <= 31 {
            Some(Reg(v))
        } else {
            None
        }
    }

    /// The raw field value.
    pub fn bits(self) -> (res: u8)
        ensures
            res == self.value(),
            res <= 31,
    {
        proof {
            use_type_invariant(&self);
        }
        self.0
    }

    /// Construct from a field value, masking it to the field width.
    pub fn from_bits(v: u8) -> (res: Self)
        ensures
            res == Self::spec_new(v & 31),
            res.value() == v & 31,
    {
        assert(v & 31u8 <= 31u8) by (bit_vector);
        Reg(v & 31)
    }
}

/// An 11-bit immediate / branch offset / label field.
#[derive(Debug, Clone, Copy, PartialEq, Eq, Structural, PartialOrd, Ord, Hash)]
pub struct Imm11(u16);

impl Imm11 {
    /// The largest representable value (`2^11 - 1`).
    pub const MAX: u16 = 0x7FF;

    #[verifier::type_invariant]
    spec fn inv(self) -> bool {
        self.0 <= 0x7FF
    }

    /// The raw field value, as a spec value.
    pub closed spec fn value(self) -> u16 {
        self.0
    }

    /// The value holding `v` (meaningful for `v` within the field width).
    pub closed spec fn spec_new(v: u16) -> Self {
        Imm11(v)
    }

    /// A value built from `v` holds `v`.
    pub broadcast proof fn lemma_spec_new(v: u16)
        ensures
            #[trigger] Self::spec_new(v).value() == v,
    {
    }

    /// A value is the one built from the field it holds.
    pub broadcast proof fn lemma_value_determines(a: Self)
        ensures
            #[trigger] Self::spec_new(a.value()) == a,
    {
    }

    /// Construct if `v` fits in the field width, else `None`.
    pub fn new(v: u16) -> (res: Option<Self>)
        ensures
            res == if v <= 0x7FF {
                Some(Self::spec_new(v))
            } else {
                None::<Self>
            },
    {
        if v <= 0x7FF {
            Some(Imm11(v))
        } else {
            None
        }
    }

    /// The raw field value.
    pub fn bits(self) -> (res: u16)
        ensures
            res == self.value(),
            res <= 0x7FF,
    {
        proof {
            use_type_invariant(&self);
        }
        self.0
    }

    /// Construct from a field value, masking it to the field width.
    pub fn from_bits(v: u16) -> (res: Self)
        ensures
            res == Self::spec_new(v & 0x7FF),
            res.value() == v & 0x7FF,
    {
        assert(v & 0x7FFu16 <= 0x7FFu16) by (bit_vector);
        Imm11(v & 0x7FF)
    }
}

/// A 20-bit `LUI` immediate.
#[derive(Debug, Clone, Copy, PartialEq, Eq, Structural, PartialOrd, Ord, Hash)]
pub struct Imm20(u32);

impl Imm20 {
    /// The largest representable value (`2^20 - 1`).
    pub const MAX: u32 = 0xF_FFFF;

    #[verifier::type_invariant]
    spec fn inv(self) -> bool {
        self.0 <= 0xF_FFFF
    }

    /// The raw field value, as a spec value.
    pub closed spec fn value(self) -> u32 {
        self.0
    }

    /// The value holding `v` (meaningful for `v` within the field width).
    pub closed spec fn spec_new(v: u32) -> Self {
        Imm20(v)
    }

    /// A value built from `v` holds `v`.
    pub broadcast proof fn lemma_spec_new(v: u32)
        ensures
            #[trigger] Self::spec_new(v).value() == v,
    {
    }

    /// A value is the one built from the field it holds.
    pub broadcast proof fn lemma_value_determines(a: Self)
        ensures
            #[trigger] Self::spec_new(a.value()) == a,
    {
    }

    /// Construct if `v` fits in the field width, else `None`.
    pub fn new(v: u32) -> (res: Option<Self>)
        ensures
            res == if v <= 0xF_FFFF {
                Some(Self::spec_new(v))
            } else {
                None::<Self>
            },
    {
        if v <= 0xF_FFFF {
            Some(Imm20(v))
        } else {
            None
        }
    }

    /// The raw field value.
    pub fn bits(self) -> (res: u32)
        ensures
            res == self.value(),
            res <= 0xF_FFFF,
    {
        proof {
            use_type_invariant(&self);
        }
        self.0
    }

    /// Construct from a field value, masking it to the field width.
    pub fn from_bits(v: u32) -> (res: Self)
        ensures
            res == Self::spec_new(v & 0xF_FFFF),
            res.value() == v & 0xF_FFFF,
    {
        assert(v & 0xF_FFFFu32 <= 0xF_FFFFu32) by (bit_vector);
        Imm20(v & 0xF_FFFF)
    }
}

/// A 4-bit `TAR` turnaround count.
#[derive(Debug, Clone, Copy, PartialEq, Eq, Structural, PartialOrd, Ord, Hash)]
pub struct Tar4(u8);

impl Tar4 {
    /// The largest representable value (`2^4 - 1`).
    pub const MAX: u8 = 15;

    #[verifier::type_invariant]
    spec fn inv(self) -> bool {
        self.0 <= 15
    }

    /// The raw field value, as a spec value.
    pub closed spec fn value(self) -> u8 {
        self.0
    }

    /// The value holding `v` (meaningful for `v` within the field width).
    pub closed spec fn spec_new(v: u8) -> Self {
        Tar4(v)
    }

    /// A value built from `v` holds `v`.
    pub broadcast proof fn lemma_spec_new(v: u8)
        ensures
            #[trigger] Self::spec_new(v).value() == v,
    {
    }

    /// A value is the one built from the field it holds.
    pub broadcast proof fn lemma_value_determines(a: Self)
        ensures
            #[trigger] Self::spec_new(a.value()) == a,
    {
    }

    /// Construct if `v` fits in the field width, else `None`.
    pub fn new(v: u8) -> (res: Option<Self>)
        ensures
            res == if v <= 15 {
                Some(Self::spec_new(v))
            } else {
                None::<Self>
            },
    {
        if v <= 15 {
            Some(Tar4(v))
        } else {
            None
        }
    }

    /// The raw field value.
    pub fn bits(self) -> (res: u8)
        ensures
            res == self.value(),
            res <= 15,
    {
        proof {
            use_type_invariant(&self);
        }
        self.0
    }

    /// Construct from a field value, masking it to the field width.
    pub fn from_bits(v: u8) -> (res: Self)
        ensures
            res == Self::spec_new(v & 15),
            res.value() == v & 15,
    {
        assert(v & 15u8 <= 15u8) by (bit_vector);
        Tar4(v & 15)
    }
}

/// A 6-bit `SET_CONFIG` payload.
#[derive(Debug, Clone, Copy, PartialEq, Eq, Structural, PartialOrd, Ord, Hash)]
pub struct Cfg6(u8);

impl Cfg6 {
    /// The largest representable value (`2^6 - 1`).
    pub const MAX: u8 = 0x3F;

    #[verifier::type_invariant]
    spec fn inv(self) -> bool {
        self.0 <= 0x3F
    }

    /// The raw field value, as a spec value.
    pub closed spec fn value(self) -> u8 {
        self.0
    }

    /// The value holding `v` (meaningful for `v` within the field width).
    pub closed spec fn spec_new(v: u8) -> Self {
        Cfg6(v)
    }

    /// A value built from `v` holds `v`.
    pub broadcast proof fn lemma_spec_new(v: u8)
        ensures
            #[trigger] Self::spec_new(v).value() == v,
    {
    }

    /// A value is the one built from the field it holds.
    pub broadcast proof fn lemma_value_determines(a: Self)
        ensures
            #[trigger] Self::spec_new(a.value()) == a,
    {
    }

    /// Construct if `v` fits in the field width, else `None`.
    pub fn new(v: u8) -> (res: Option<Self>)
        ensures
            res == if v <= 0x3F {
                Some(Self::spec_new(v))
            } else {
                None::<Self>
            },
    {
        if v <= 0x3F {
            Some(Cfg6(v))
        } else {
            None
        }
    }

    /// The raw field value.
    pub fn bits(self) -> (res: u8)
        ensures
            res == self.value(),
            res <= 0x3F,
    {
        proof {
            use_type_invariant(&self);
        }
        self.0
    }

    /// Construct from a field value, masking it to the field width.
    pub fn from_bits(v: u8) -> (res: Self)
        ensures
            res == Self::spec_new(v & 0x3F),
            res.value() == v & 0x3F,
    {
        assert(v & 0x3Fu8 <= 0x3Fu8) by (bit_vector);
        Cfg6(v & 0x3F)
    }
}

/// A 5-bit `RDSR` special-register selector.
#[derive(Debug, Clone, Copy, PartialEq, Eq, Structural, PartialOrd, Ord, Hash)]
pub struct Sr5(u8);

impl Sr5 {
    /// The largest representable value (`2^5 - 1`).
    pub const MAX: u8 = 31;

    #[verifier::type_invariant]
    spec fn inv(self) -> bool {
        self.0 <= 31
    }

    /// The raw field value, as a spec value.
    pub closed spec fn value(self) -> u8 {
        self.0
    }

    /// The value holding `v` (meaningful for `v` within the field width).
    pub closed spec fn spec_new(v: u8) -> Self {
        Sr5(v)
    }

    /// A value built from `v` holds `v`.
    pub broadcast proof fn lemma_spec_new(v: u8)
        ensures
            #[trigger] Self::spec_new(v).value() == v,
    {
    }

    /// A value is the one built from the field it holds.
    pub broadcast proof fn lemma_value_determines(a: Self)
        ensures
            #[trigger] Self::spec_new(a.value()) == a,
    {
    }

    /// Construct if `v` fits in the field width, else `None`.
    pub fn new(v: u8) -> (res: Option<Self>)
        ensures
            res == if v <= 31 {
                Some(Self::spec_new(v))
            } else {
                None::<Self>
            },
    {
        if v <= 31 {
            Some(Sr5(v))
        } else {
            None
        }
    }

    /// The raw field value.
    pub fn bits(self) -> (res: u8)
        ensures
            res == self.value(),
            res <= 31,
    {
        proof {
            use_type_invariant(&self);
        }
        self.0
    }

    /// Construct from a field value, masking it to the field width.
    pub fn from_bits(v: u8) -> (res: Self)
        ensures
            res == Self::spec_new(v & 31),
            res.value() == v & 31,
    {
        assert(v & 31u8 <= 31u8) by (bit_vector);
        Sr5(v & 31)
    }
}

/// A 5-bit shift amount.
#[derive(Debug, Clone, Copy, PartialEq, Eq, Structural, PartialOrd, Ord, Hash)]
pub struct Amt5(u8);

impl Amt5 {
    /// The largest representable value (`2^5 - 1`).
    pub const MAX: u8 = 31;

    #[verifier::type_invariant]
    spec fn inv(self) -> bool {
        self.0 <= 31
    }

    /// The raw field value, as a spec value.
    pub closed spec fn value(self) -> u8 {
        self.0
    }

    /// The value holding `v` (meaningful for `v` within the field width).
    pub closed spec fn spec_new(v: u8) -> Self {
        Amt5(v)
    }

    /// A value built from `v` holds `v`.
    pub broadcast proof fn lemma_spec_new(v: u8)
        ensures
            #[trigger] Self::spec_new(v).value() == v,
    {
    }

    /// A value is the one built from the field it holds.
    pub broadcast proof fn lemma_value_determines(a: Self)
        ensures
            #[trigger] Self::spec_new(a.value()) == a,
    {
    }

    /// Construct if `v` fits in the field width, else `None`.
    pub fn new(v: u8) -> (res: Option<Self>)
        ensures
            res == if v <= 31 {
                Some(Self::spec_new(v))
            } else {
                None::<Self>
            },
    {
        if v <= 31 {
            Some(Amt5(v))
        } else {
            None
        }
    }

    /// The raw field value.
    pub fn bits(self) -> (res: u8)
        ensures
            res == self.value(),
            res <= 31,
    {
        proof {
            use_type_invariant(&self);
        }
        self.0
    }

    /// Construct from a field value, masking it to the field width.
    pub fn from_bits(v: u8) -> (res: Self)
        ensures
            res == Self::spec_new(v & 31),
            res.value() == v & 31,
    {
        assert(v & 31u8 <= 31u8) by (bit_vector);
        Amt5(v & 31)
    }
}

/// A 2-bit `WAIT_ON` condition selector.
#[derive(Debug, Clone, Copy, PartialEq, Eq, Structural, PartialOrd, Ord, Hash)]
pub struct WaitCond(u8);

impl WaitCond {
    /// The largest representable value (`2^2 - 1`).
    pub const MAX: u8 = 3;

    #[verifier::type_invariant]
    spec fn inv(self) -> bool {
        self.0 <= 3
    }

    /// The raw field value, as a spec value.
    pub closed spec fn value(self) -> u8 {
        self.0
    }

    /// The value holding `v` (meaningful for `v` within the field width).
    pub closed spec fn spec_new(v: u8) -> Self {
        WaitCond(v)
    }

    /// A value built from `v` holds `v`.
    pub broadcast proof fn lemma_spec_new(v: u8)
        ensures
            #[trigger] Self::spec_new(v).value() == v,
    {
    }

    /// A value is the one built from the field it holds.
    pub broadcast proof fn lemma_value_determines(a: Self)
        ensures
            #[trigger] Self::spec_new(a.value()) == a,
    {
    }

    /// Construct if `v` fits in the field width, else `None`.
    pub fn new(v: u8) -> (res: Option<Self>)
        ensures
            res == if v <= 3 {
                Some(Self::spec_new(v))
            } else {
                None::<Self>
            },
    {
        if v <= 3 {
            Some(WaitCond(v))
        } else {
            None
        }
    }

    /// The raw field value.
    pub fn bits(self) -> (res: u8)
        ensures
            res == self.value(),
            res <= 3,
    {
        proof {
            use_type_invariant(&self);
        }
        self.0
    }

    /// Construct from a field value, masking it to the field width.
    pub fn from_bits(v: u8) -> (res: Self)
        ensures
            res == Self::spec_new(v & 3),
            res.value() == v & 3,
    {
        assert(v & 3u8 <= 3u8) by (bit_vector);
        WaitCond(v & 3)
    }
}

/// A 9-bit `WAIT_ON` timeout.
#[derive(Debug, Clone, Copy, PartialEq, Eq, Structural, PartialOrd, Ord, Hash)]
pub struct WaitTimeout(u16);

impl WaitTimeout {
    /// The largest representable value (`2^9 - 1`).
    pub const MAX: u16 = 0x1FF;

    #[verifier::type_invariant]
    spec fn inv(self) -> bool {
        self.0 <= 0x1FF
    }

    /// The raw field value, as a spec value.
    pub closed spec fn value(self) -> u16 {
        self.0
    }

    /// The value holding `v` (meaningful for `v` within the field width).
    pub closed spec fn spec_new(v: u16) -> Self {
        WaitTimeout(v)
    }

    /// A value built from `v` holds `v`.
    pub broadcast proof fn lemma_spec_new(v: u16)
        ensures
            #[trigger] Self::spec_new(v).value() == v,
    {
    }

    /// A value is the one built from the field it holds.
    pub broadcast proof fn lemma_value_determines(a: Self)
        ensures
            #[trigger] Self::spec_new(a.value()) == a,
    {
    }

    /// Construct if `v` fits in the field width, else `None`.
    pub fn new(v: u16) -> (res: Option<Self>)
        ensures
            res == if v <= 0x1FF {
                Some(Self::spec_new(v))
            } else {
                None::<Self>
            },
    {
        if v <= 0x1FF {
            Some(WaitTimeout(v))
        } else {
            None
        }
    }

    /// The raw field value.
    pub fn bits(self) -> (res: u16)
        ensures
            res == self.value(),
            res <= 0x1FF,
    {
        proof {
            use_type_invariant(&self);
        }
        self.0
    }

    /// Construct from a field value, masking it to the field width.
    pub fn from_bits(v: u16) -> (res: Self)
        ensures
            res == Self::spec_new(v & 0x1FF),
            res.value() == v & 0x1FF,
    {
        assert(v & 0x1FFu16 <= 0x1FFu16) by (bit_vector);
        WaitTimeout(v & 0x1FF)
    }
}

/// A `PUT_BITS`/`GET_BITS` bit count, `1..=8`.
#[derive(Debug, Clone, Copy, PartialEq, Eq, Structural, PartialOrd, Ord, Hash)]
pub struct BitCount(u8);

impl BitCount {
    #[verifier::type_invariant]
    spec fn inv(self) -> bool {
        1 <= self.0 <= 8
    }

    /// The count, as a spec value.
    pub closed spec fn value(self) -> u8 {
        self.0
    }

    /// The count `v` (meaningful for `v` in `1..=8`).
    pub closed spec fn spec_new(v: u8) -> Self {
        BitCount(v)
    }

    /// A count built from `v` holds `v`.
    pub broadcast proof fn lemma_spec_new(v: u8)
        ensures
            #[trigger] Self::spec_new(v).value() == v,
    {
    }

    /// A count is the one built from the value it holds.
    pub broadcast proof fn lemma_value_determines(a: Self)
        ensures
            #[trigger] Self::spec_new(a.value()) == a,
    {
    }

    /// Construct if `v` is in `1..=8`, else `None`.
    pub fn new(v: u8) -> (res: Option<Self>)
        ensures
            res == if 1 <= v <= 8 {
                Some(Self::spec_new(v))
            } else {
                None::<Self>
            },
    {
        if 1 <= v && v <= 8 {
            Some(BitCount(v))
        } else {
            None
        }
    }

    /// The number of bits.
    pub fn count(self) -> (res: u8)
        ensures
            res == self.value(),
            1 <= res <= 8,
    {
        proof {
            use_type_invariant(&self);
        }
        self.0
    }
}

/// The shift operation of a `Shift` instruction.
#[derive(Debug, Clone, Copy, PartialEq, Eq, Structural)]
pub enum ShiftOp {
    /// Shift left logical.
    Sll,
    /// Shift right logical.
    Srl,
    /// Shift right arithmetic.
    Sra,
}

/// One tamal instruction, with its checked operand fields.
#[derive(Debug, Clone, Copy, PartialEq, Eq, Structural)]
pub enum Instr {
    /// Assert chip select.
    CsAssert,
    /// Deassert chip select.
    CsDeassert,
    /// Assert reset.
    RstAssert,
    /// Deassert reset.
    RstDeassert,
    /// Reset the running CRC.
    CrcReset,
    /// Drive an immediate byte.
    PutByteImm(u8),
    /// Drive the low byte of a register.
    PutByteReg(Reg),
    /// Sample a byte into a register.
    GetByte(Reg),
    /// Drive the top `n` bits of an immediate byte.
    PutBitsImm(BitCount, u8),
    /// Drive `n` bits of a register.
    PutBitsReg(Reg, BitCount),
    /// Sample `n` bits into a register.
    GetBits(Reg, BitCount),
    /// An immediate turnaround.
    TarImm(Tar4),
    /// A register turnaround.
    TarReg(Reg),
    /// Sample the alert line into a register.
    GetAlert(Reg),
    /// Stop with a status byte.
    Halt(u8),
    /// Wait on a condition with a timeout.
    WaitOn(Reg, WaitCond, WaitTimeout),
    /// Set the link configuration.
    SetConfig(Cfg6),
    /// Record a trace marker.
    Mark(Imm11, Reg),
    /// Load a sign-extended 11-bit immediate.
    LoadImm(Reg, Imm11),
    /// Load a 20-bit upper immediate.
    Lui(Reg, Imm20),
    /// Copy a register.
    Mov(Reg, Reg),
    /// `rd = rs1 + rs2`.
    Add(Reg, Reg, Reg),
    /// `rd = rs1 - rs2`.
    Sub(Reg, Reg, Reg),
    /// `rd = rs1 & rs2`.
    And(Reg, Reg, Reg),
    /// `rd = rs1 | rs2`.
    Or(Reg, Reg, Reg),
    /// `rd = rs1 ^ rs2`.
    Xor(Reg, Reg, Reg),
    /// `rd = rs1 + imm`.
    Addi(Reg, Reg, Imm11),
    /// `rd = rs1 & imm`.
    Andi(Reg, Reg, Imm11),
    /// `rd = rs1 | imm`.
    Ori(Reg, Reg, Imm11),
    /// `rd = rs1 ^ imm`.
    Xori(Reg, Reg, Imm11),
    /// A shift by an immediate amount.
    Shift(Reg, Reg, ShiftOp, Amt5),
    /// Read a special register.
    Rdsr(Reg, Sr5),
    /// Branch if equal.
    Beq(Reg, Reg, Imm11),
    /// Branch if not equal.
    Bne(Reg, Reg, Imm11),
    /// Branch if less than (unsigned).
    Bltu(Reg, Reg, Imm11),
    /// Branch if greater or equal (unsigned).
    Bgeu(Reg, Reg, Imm11),
}

} // verus!
