//! The values of registers, coils and file records, staged writes and the
//! outcome of writes, with the text each of them has as a file.

use crate::device_description::DataType;
use crate::numbers;
use vstd::prelude::*;
use vstd::string::StringExecFns;

verus! {

/// A single-precision number: its IEEE 754 bits and its decimal text. The
/// library moves such numbers about and never computes with them; whoever
/// makes one says how it reads.
#[derive(Debug, PartialEq, Eq)]
pub struct Float32 {
    pub bits: u32,
    pub text: String,
}

impl Clone for Float32 {
    fn clone(&self) -> (copy: Self)
        ensures
            copy == *self,
    {
        Float32 { bits: self.bits, text: self.text.clone() }
    }
}

/// A double-precision number: its IEEE 754 bits and its decimal text.
#[derive(Debug, PartialEq, Eq)]
pub struct Float64 {
    pub bits: u64,
    pub text: String,
}

impl Clone for Float64 {
    fn clone(&self) -> (copy: Self)
        ensures
            copy == *self,
    {
        Float64 { bits: self.bits, text: self.text.clone() }
    }
}

/// The value of a register, of the type its description declares. `U24` and
/// `I24` hold a 24-bit number in the next larger integer.
#[derive(Debug, PartialEq, Eq)]
pub enum RegisterValue {
    U8(u8),
    I8(i8),
    U16(u16),
    I16(i16),
    U24(u32),
    I24(i32),
    U32(u32),
    I32(i32),
    U64(u64),
    I64(i64),
    F32(Float32),
    F64(Float64),
}

impl Clone for RegisterValue {
    fn clone(&self) -> (copy: Self)
        ensures
            copy == *self,
    {
        match self {
            RegisterValue::U8(value) => RegisterValue::U8(*value),
            RegisterValue::I8(value) => RegisterValue::I8(*value),
            RegisterValue::U16(value) => RegisterValue::U16(*value),
            RegisterValue::I16(value) => RegisterValue::I16(*value),
            RegisterValue::U24(value) => RegisterValue::U24(*value),
            RegisterValue::I24(value) => RegisterValue::I24(*value),
            RegisterValue::U32(value) => RegisterValue::U32(*value),
            RegisterValue::I32(value) => RegisterValue::I32(*value),
            RegisterValue::U64(value) => RegisterValue::U64(*value),
            RegisterValue::I64(value) => RegisterValue::I64(*value),
            RegisterValue::F32(value) => RegisterValue::F32(value.clone()),
            RegisterValue::F64(value) => RegisterValue::F64(value.clone()),
        }
    }
}

impl RegisterValue {
    /// The type of the value.
    pub open spec fn kind(self) -> DataType {
        match self {
            RegisterValue::U8(_) => DataType::U8,
            RegisterValue::I8(_) => DataType::I8,
            RegisterValue::U16(_) => DataType::U16,
            RegisterValue::I16(_) => DataType::I16,
            RegisterValue::U24(_) => DataType::U24,
            RegisterValue::I24(_) => DataType::I24,
            RegisterValue::U32(_) => DataType::U32,
            RegisterValue::I32(_) => DataType::I32,
            RegisterValue::U64(_) => DataType::U64,
            RegisterValue::I64(_) => DataType::I64,
            RegisterValue::F32(_) => DataType::F32,
            RegisterValue::F64(_) => DataType::F64,
        }
    }

    /// The text of the value: integers in decimal.
    pub open spec fn text(self) -> Seq<char> {
        match self {
            RegisterValue::U8(value) => numbers::decimal(value as nat),
            RegisterValue::I8(value) => numbers::signed_decimal(value as int),
            RegisterValue::U16(value) => numbers::decimal(value as nat),
            RegisterValue::I16(value) => numbers::signed_decimal(value as int),
            RegisterValue::U24(value) => numbers::decimal(value as nat),
            RegisterValue::I24(value) => numbers::signed_decimal(value as int),
            RegisterValue::U32(value) => numbers::decimal(value as nat),
            RegisterValue::I32(value) => numbers::signed_decimal(value as int),
            RegisterValue::U64(value) => numbers::decimal(value as nat),
            RegisterValue::I64(value) => numbers::signed_decimal(value as int),
            RegisterValue::F32(value) => value.text@,
            RegisterValue::F64(value) => value.text@,
        }
    }

    /// The type of the value.
    pub fn data_type(&self) -> (data_type: DataType)
        ensures
            data_type == self.kind(),
    {
        match self {
            RegisterValue::U8(_) => DataType::U8,
            RegisterValue::I8(_) => DataType::I8,
            RegisterValue::U16(_) => DataType::U16,
            RegisterValue::I16(_) => DataType::I16,
            RegisterValue::U24(_) => DataType::U24,
            RegisterValue::I24(_) => DataType::I24,
            RegisterValue::U32(_) => DataType::U32,
            RegisterValue::I32(_) => DataType::I32,
            RegisterValue::U64(_) => DataType::U64,
            RegisterValue::I64(_) => DataType::I64,
            RegisterValue::F32(_) => DataType::F32,
            RegisterValue::F64(_) => DataType::F64,
        }
    }

    /// The text of the value, as its file shows it.
    pub fn to_string(&self) -> (text: String)
        ensures
            text@ == self.text(),
    {
        let mut out = String::new();
        match self {
            RegisterValue::U8(value) => numbers::push_decimal(&mut out, *value as u64),
            RegisterValue::I8(value) => numbers::push_signed(&mut out, *value as i64),
            RegisterValue::U16(value) => numbers::push_decimal(&mut out, *value as u64),
            RegisterValue::I16(value) => numbers::push_signed(&mut out, *value as i64),
            RegisterValue::U24(value) => numbers::push_decimal(&mut out, *value as u64),
            RegisterValue::I24(value) => numbers::push_signed(&mut out, *value as i64),
            RegisterValue::U32(value) => numbers::push_decimal(&mut out, *value as u64),
            RegisterValue::I32(value) => numbers::push_signed(&mut out, *value as i64),
            RegisterValue::U64(value) => numbers::push_decimal(&mut out, *value),
            RegisterValue::I64(value) => numbers::push_signed(&mut out, *value),
            RegisterValue::F32(value) => out.append(value.text.as_str()),
            RegisterValue::F64(value) => out.append(value.text.as_str()),
        }
        assert(out@ =~= self.text());
        out
    }
}

/// The value of a coil or a discrete input.
#[derive(Debug, Clone, Copy, PartialEq, Eq, Structural)]
pub struct CoilValue(pub bool);

impl CoilValue {
    /// The text of the value: `1` or `0`.
    pub open spec fn text(self) -> Seq<char> {
        if self.0 {
            seq!['1']
        } else {
            seq!['0']
        }
    }

    /// The text of the value, as its file shows it.
    pub fn to_string(&self) -> (text: String)
        ensures
            text@ == self.text(),
    {
        let mut text = String::new();
        text.push(
            if self.0 {
                '1'
            } else {
                '0'
            },
        );
        assert(text@ =~= self.text());
        text
    }
}

/// A value on its way to a device.
#[derive(Debug, PartialEq, Eq)]
pub enum StagedValue {
    Register(RegisterValue),
    Coil(CoilValue),
    DiscreteInput(CoilValue),
    InputRegister(RegisterValue),
    MaskedRegister { and_mask: u16, or_mask: u16 },
    FileRecord { file_number: u16, record_number: u16, value: Vec<u8> },
}

/// What a [`StagedValue`] holds.
pub ghost enum Staged {
    Register(RegisterValue),
    Coil(CoilValue),
    DiscreteInput(CoilValue),
    InputRegister(RegisterValue),
    MaskedRegister { and_mask: u16, or_mask: u16 },
    FileRecord { file_number: u16, record_number: u16, value: Seq<u8> },
}

impl View for StagedValue {
    type V = Staged;

    open spec fn view(&self) -> Staged {
        match self {
            StagedValue::Register(value) => Staged::Register(*value),
            StagedValue::Coil(value) => Staged::Coil(*value),
            StagedValue::DiscreteInput(value) => Staged::DiscreteInput(*value),
            StagedValue::InputRegister(value) => Staged::InputRegister(*value),
            StagedValue::MaskedRegister { and_mask, or_mask } => Staged::MaskedRegister {
                and_mask: *and_mask,
                or_mask: *or_mask,
            },
            StagedValue::FileRecord { file_number, record_number, value } => Staged::FileRecord {
                file_number: *file_number,
                record_number: *record_number,
                value: value@,
            },
        }
    }
}

/// The bytes in hexadecimal, each followed by a space.
pub open spec fn spaced_hex(bytes: Seq<u8>) -> Seq<char>
    decreases bytes.len(),
{
    if bytes.len() == 0 {
        Seq::empty()
    } else {
        spaced_hex(bytes.drop_last()) + numbers::hex2(bytes.last()) + seq![' ']
    }
}

impl Staged {
    /// The text of the value: a masked write as its two masks in hexadecimal,
    /// a file record as its bytes in hexadecimal.
    pub open spec fn text(self) -> Seq<char> {
        match self {
            Staged::Register(value) => value.text(),
            Staged::Coil(value) => value.text(),
            Staged::DiscreteInput(value) => value.text(),
            Staged::InputRegister(value) => value.text(),
            Staged::MaskedRegister { and_mask, or_mask } => "MASK 0x"@ + numbers::hex4(and_mask)
                + " 0x"@ + numbers::hex4(or_mask),
            Staged::FileRecord { value, .. } => spaced_hex(value),
        }
    }
}

impl Clone for StagedValue {
    fn clone(&self) -> (copy: Self)
        ensures
            copy@ == self@,
    {
        match self {
            StagedValue::Register(value) => StagedValue::Register(value.clone()),
            StagedValue::Coil(value) => StagedValue::Coil(*value),
            StagedValue::DiscreteInput(value) => StagedValue::DiscreteInput(*value),
            StagedValue::InputRegister(value) => StagedValue::InputRegister(value.clone()),
            StagedValue::MaskedRegister { and_mask, or_mask } => StagedValue::MaskedRegister {
                and_mask: *and_mask,
                or_mask: *or_mask,
            },
            StagedValue::FileRecord { file_number, record_number, value } => {
                let bytes = vstd::slice::slice_to_vec(value.as_slice());
                StagedValue::FileRecord {
                    file_number: *file_number,
                    record_number: *record_number,
                    value: bytes,
                }
            },
        }
    }
}

impl StagedValue {
    /// The text of the value, as its file in `transactions/` shows it.
    pub fn to_string(&self) -> (text: String)
        ensures
            text@ == self@.text(),
    {
        match self {
            StagedValue::Register(value) => value.to_string(),
            StagedValue::Coil(value) => value.to_string(),
            StagedValue::DiscreteInput(value) => value.to_string(),
            StagedValue::InputRegister(value) => value.to_string(),
            StagedValue::MaskedRegister { and_mask, or_mask } => {
                let mut out = String::new();
                out.append("MASK 0x");
                numbers::push_hex4(&mut out, *and_mask);
                out.append(" 0x");
                numbers::push_hex4(&mut out, *or_mask);
                assert(out@ =~= self@.text());
                out
            },
            StagedValue::FileRecord { value, .. } => {
                let mut out = String::new();
                let mut i: usize = 0;
                while i < value.len()
                    invariant
                        i <= value@.len(),
                        out@ == spaced_hex(value@.take(i as int)),
                    decreases value@.len() - i,
                {
                    let ghost before = out@;
                    numbers::push_hex2(&mut out, value[i]);
                    out.push(' ');
                    assert(value@.take(i + 1).drop_last() =~= value@.take(i as int));
                    assert(out@ =~= before + numbers::hex2(value@[i as int]) + seq![' ']);
                    i = i + 1;
                }
                assert(value@.take(value@.len() as int) =~= value@);
                out
            },
        }
    }
}

/// How the last write to a register or coil went.
#[derive(Debug, PartialEq, Eq)]
pub enum WriteStatus {
    Succeeded,
    Failed(String),
}

/// What a [`WriteStatus`] says.
pub ghost enum Outcome {
    Succeeded,
    Failed(Seq<char>),
}

impl View for WriteStatus {
    type V = Outcome;

    open spec fn view(&self) -> Outcome {
        match self {
            WriteStatus::Succeeded => Outcome::Succeeded,
            WriteStatus::Failed(reason) => Outcome::Failed(reason@),
        }
    }
}

impl Clone for WriteStatus {
    fn clone(&self) -> (copy: Self)
        ensures
            copy == *self,
    {
        match self {
            WriteStatus::Succeeded => WriteStatus::Succeeded,
            WriteStatus::Failed(reason) => WriteStatus::Failed(reason.clone()),
        }
    }
}

impl WriteStatus {
    /// The text of the status.
    pub open spec fn text(self) -> Seq<char> {
        match self {
            WriteStatus::Succeeded => "OK"@,
            WriteStatus::Failed(reason) => "FAILED: "@ + reason@,
        }
    }

    /// The text of the status, as its file in `report/` shows it.
    pub fn to_string(&self) -> (text: String)
        ensures
            text@ == self.text(),
    {
        let mut out = String::new();
        match self {
            WriteStatus::Succeeded => out.append("OK"),
            WriteStatus::Failed(reason) => {
                out.append("FAILED: ");
                out.append(reason.as_str());
            },
        }
        assert(out@ =~= self.text());
        out
    }
}

/// The text of a status is `OK`, or says why the write failed behind eight characters.
pub proof fn law_status_text(reason: String)
    ensures
        WriteStatus::Failed(reason).text().len() == 8 + reason@.len(),
        WriteStatus::Failed(reason).text().skip(8) == reason@,
        WriteStatus::Failed(reason).text()[0] == 'F',
        WriteStatus::Succeeded.text() == seq!['O', 'K'],
{
    reveal_strlit("FAILED: ");
    reveal_strlit("OK");
    assert(WriteStatus::Failed(reason).text().skip(8) =~= reason@);
    assert(WriteStatus::Succeeded.text() =~= seq!['O', 'K']);
}

/// The text of an integer is its decimal digits, with a `-` in front where it is negative
/// and nothing where it is not.
pub proof fn law_integer_text(value: RegisterValue)
    ensures
        match value {
            RegisterValue::U8(n) => value.text() == numbers::decimal(n as nat),
            RegisterValue::U16(n) => value.text() == numbers::decimal(n as nat),
            RegisterValue::U24(n) => value.text() == numbers::decimal(n as nat),
            RegisterValue::U32(n) => value.text() == numbers::decimal(n as nat),
            RegisterValue::U64(n) => value.text() == numbers::decimal(n as nat),
            RegisterValue::I8(n) => value.text() == (if n >= 0 {
                numbers::decimal(n as nat)
            } else {
                seq!['-'] + numbers::decimal((0 - n) as nat)
            }),
            RegisterValue::I16(n) => value.text() == (if n >= 0 {
                numbers::decimal(n as nat)
            } else {
                seq!['-'] + numbers::decimal((0 - n) as nat)
            }),
            RegisterValue::I24(n) => value.text() == (if n >= 0 {
                numbers::decimal(n as nat)
            } else {
                seq!['-'] + numbers::decimal((0 - n) as nat)
            }),
            RegisterValue::I32(n) => value.text() == (if n >= 0 {
                numbers::decimal(n as nat)
            } else {
                seq!['-'] + numbers::decimal((0 - n) as nat)
            }),
            RegisterValue::I64(n) => value.text() == (if n >= 0 {
                numbers::decimal(n as nat)
            } else {
                seq!['-'] + numbers::decimal((0 - n) as nat)
            }),
            _ => true,
        },
{
}

} // verus!
