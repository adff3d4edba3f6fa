//! What a device description says: the registers and coils of a device, where
//! they live and how their values are laid out.

use crate::numbers;
use vstd::prelude::*;
use vstd::string::StringExecFns;

verus! {

/// The type of a register's value. `U24` and `I24` are 24-bit numbers that
/// take two registers, like 32-bit ones.
#[derive(Debug, Clone, Copy, PartialEq, Eq, Structural)]
pub enum DataType {
    U8,
    I8,
    U16,
    I16,
    U24,
    I24,
    U32,
    I32,
    U64,
    I64,
    F32,
    F64,
}

impl DataType {
    /// How many registers a value of this type takes.
    pub open spec fn width(self) -> nat {
        match self {
            DataType::U8 | DataType::I8 | DataType::U16 | DataType::I16 => 1,
            DataType::U24 | DataType::I24 | DataType::U32 | DataType::I32 | DataType::F32 => 2,
            DataType::U64 | DataType::I64 | DataType::F64 => 4,
        }
    }

    /// How many consecutive 16-bit registers a value of this type takes.
    pub fn register_count(self) -> (count: u16)
        ensures
            count == self.width(),
    {
        match self {
            DataType::U8 | DataType::I8 | DataType::U16 | DataType::I16 => 1,
            DataType::U24 | DataType::I24 | DataType::U32 | DataType::I32 | DataType::F32 => 2,
            DataType::U64 | DataType::I64 | DataType::F64 => 4,
        }
    }

    /// The name of the type, as a reader of an error message sees it.
    pub open spec fn label(self) -> Seq<char> {
        match self {
            DataType::U8 => "U8"@,
            DataType::I8 => "I8"@,
            DataType::U16 => "U16"@,
            DataType::I16 => "I16"@,
            DataType::U24 => "U24"@,
            DataType::I24 => "I24"@,
            DataType::U32 => "U32"@,
            DataType::I32 => "I32"@,
            DataType::U64 => "U64"@,
            DataType::I64 => "I64"@,
            DataType::F32 => "F32"@,
            DataType::F64 => "F64"@,
        }
    }

    /// The name of the type.
    pub fn name(self) -> (name: &'static str)
        ensures
            name@ == self.label(),
    {
        match self {
            DataType::U8 => "U8",
            DataType::I8 => "I8",
            DataType::U16 => "U16",
            DataType::I16 => "I16",
            DataType::U24 => "U24",
            DataType::I24 => "I24",
            DataType::U32 => "U32",
            DataType::I32 => "I32",
            DataType::U64 => "U64",
            DataType::I64 => "I64",
            DataType::F32 => "F32",
            DataType::F64 => "F64",
        }
    }
}

/// How a device spreads the bytes of a value over its registers, named after
/// where the bytes A (most significant) to D of a 32-bit value end up.
#[derive(Debug, Clone, Copy, PartialEq, Eq, Structural)]
pub enum MemLayout {
    Abcd,
    Badc,
    Cdab,
    Dcba,
}

impl Default for MemLayout {
    fn default() -> (layout: Self)
        ensures
            layout == MemLayout::Abcd,
    {
        MemLayout::Abcd
    }
}

/// What a Modbus master may do with a register.
#[derive(Debug, Clone, Copy, PartialEq, Eq, Structural)]
pub enum AccessRight {
    ReadOnly,
    ReadWrite,
}

/// A holding register and its absolute address.
#[derive(Debug, PartialEq)]
pub struct RegisterDescription {
    pub name: String,
    pub address: u16,
    pub data_type: DataType,
    pub access: AccessRight,
}

impl Clone for RegisterDescription {
    fn clone(&self) -> (copy: Self)
        ensures
            copy == *self,
    {
        RegisterDescription {
            name: self.name.clone(),
            address: self.address,
            data_type: self.data_type,
            access: self.access,
        }
    }
}

/// A coil and its absolute address.
#[derive(Debug, PartialEq)]
pub struct CoilDescription {
    pub name: String,
    pub address: u16,
}

impl Clone for CoilDescription {
    fn clone(&self) -> (copy: Self)
        ensures
            copy == *self,
    {
        CoilDescription { name: self.name.clone(), address: self.address }
    }
}

/// A discrete input and its absolute address.
#[derive(Debug, PartialEq)]
pub struct DiscreteInputDescription {
    pub name: String,
    pub address: u16,
}

impl Clone for DiscreteInputDescription {
    fn clone(&self) -> (copy: Self)
        ensures
            copy == *self,
    {
        DiscreteInputDescription { name: self.name.clone(), address: self.address }
    }
}

/// An input register and its absolute address.
#[derive(Debug, PartialEq)]
pub struct InputRegisterDescription {
    pub name: String,
    pub address: u16,
    pub data_type: DataType,
}

impl Clone for InputRegisterDescription {
    fn clone(&self) -> (copy: Self)
        ensures
            copy == *self,
    {
        InputRegisterDescription {
            name: self.name.clone(),
            address: self.address,
            data_type: self.data_type,
        }
    }
}

/// A file record: which file, which record in it, and how many registers long.
#[derive(Debug, Clone, Copy, PartialEq, Eq, Structural)]
pub struct FileRecordDescription {
    pub file_number: u16,
    pub record_number: u16,
    pub record_length: u16,
}

/// The registers and coils of a device, and the layout of its values.
#[derive(Debug, Clone, PartialEq)]
pub struct DeviceDescription {
    pub registers: Vec<RegisterDescription>,
    pub coils: Vec<CoilDescription>,
    pub mem_layout: MemLayout,
}

/// A register as a description file lists it: by its offset in its section.
#[derive(Debug, Clone, PartialEq)]
pub struct RawRegisterEntry {
    pub name: String,
    pub offset: u16,
    pub data_type: DataType,
    pub access: AccessRight,
}

/// The section of a description file that lists the registers.
#[derive(Debug, Clone, PartialEq)]
pub struct RawRegisterSection {
    pub base_address: u16,
    pub mem_layout: MemLayout,
    pub entries: Vec<RawRegisterEntry>,
}

/// A coil as a description file lists it: by its offset in its section.
#[derive(Debug, Clone, PartialEq)]
pub struct RawCoilEntry {
    pub name: String,
    pub offset: u16,
}

/// The section of a description file that lists the coils.
#[derive(Debug, Clone, PartialEq)]
pub struct RawCoilSection {
    pub base_address: u16,
    pub entries: Vec<RawCoilEntry>,
}

/// The content of a description file.
#[derive(Debug, Clone, PartialEq)]
pub struct RawDeviceDescription {
    pub registers: RawRegisterSection,
    pub coils: RawCoilSection,
}

/// Why a description file is refused: its text does not parse, or an entry
/// lies beyond the last address.
#[derive(Debug, Clone, PartialEq, Eq)]
pub enum DeviceDescriptionError {
    Toml(String),
    AddressOverflow { name: String, base_address: u16, offset: u16 },
}

impl DeviceDescriptionError {
    /// The message of the error.
    pub open spec fn message(self) -> Seq<char> {
        match self {
            DeviceDescriptionError::Toml(reason) => reason@,
            DeviceDescriptionError::AddressOverflow { name, base_address, offset } => "'"@ + name@
                + "' address overflows u16: base_address "@ + numbers::decimal(base_address as nat)
                + " + offset "@ + numbers::decimal(offset as nat),
        }
    }

    /// The message of the error.
    pub fn to_string(&self) -> (text: String)
        ensures
            text@ == self.message(),
    {
        match self {
            DeviceDescriptionError::Toml(reason) => reason.clone(),
            DeviceDescriptionError::AddressOverflow { name, base_address, offset } => {
                let mut text = String::new();
                text.append("'");
                text.append(name.as_str());
                text.append("' address overflows u16: base_address ");
                numbers::push_decimal(&mut text, *base_address as u64);
                text.append(" + offset ");
                numbers::push_decimal(&mut text, *offset as u64);
                assert(text@ =~= self.message());
                text
            },
        }
    }
}

/// Whether `base_address + offset` is no address.
pub open spec fn overflows(base_address: u16, offset: u16) -> bool {
    base_address + offset > u16::MAX
}

/// Whether `offset_of` may give `entry` an offset that leaves it an address.
pub open spec fn has_address<Entry, O: Fn(&Entry) -> u16>(
    offset_of: O,
    base_address: u16,
    entry: Entry,
) -> bool {
    exists|offset: u16|
        #[trigger] call_ensures(offset_of, (&entry,), offset) && !overflows(base_address, offset)
}

/// Whether `offset_of` may give `entry` the offset that puts it at `address`.
pub open spec fn resolves_to<Entry, O: Fn(&Entry) -> u16>(
    offset_of: O,
    base_address: u16,
    entry: Entry,
    address: u16,
) -> bool {
    exists|offset: u16|
        #[trigger] call_ensures(offset_of, (&entry,), offset) && address == base_address + offset
}

/// Pairs every entry of a section with its absolute address, its base address
/// plus its offset; refuses the section at its first entry beyond the last
/// address.
pub fn resolve_addresses<Entry, O: Fn(&Entry) -> u16, N: Fn(&Entry) -> String>(
    base_address: u16,
    entries: Vec<Entry>,
    offset_of: O,
    name_of: N,
) -> (resolved: Result<Vec<(Entry, u16)>, DeviceDescriptionError>)
    requires
        forall|entry: &Entry| #[trigger] call_requires(offset_of, (entry,)),
        forall|entry: &Entry| #[trigger] call_requires(name_of, (entry,)),
    ensures
        resolved matches Ok(pairs) ==> {
            &&& pairs@.len() == entries@.len()
            &&& forall|i: int|
                0 <= i < entries@.len() ==> {
                    &&& (#[trigger] pairs@[i]).0 == entries@[i]
                    &&& resolves_to(offset_of, base_address, entries@[i], pairs@[i].1)
                }
        },
        resolved matches Err(error) ==> exists|i: int, name: String, offset: u16|
            {
                &&& 0 <= i < entries@.len()
                &&& #[trigger] call_ensures(offset_of, (&entries@[i],), offset)
                &&& #[trigger] call_ensures(name_of, (&entries@[i],), name)
                &&& overflows(base_address, offset)
                &&& error == (DeviceDescriptionError::AddressOverflow {
                    name,
                    base_address,
                    offset,
                })
                &&& forall|j: int|
                    0 <= j < i ==> #[trigger] has_address(offset_of, base_address, entries@[j])
            },
{
    let mut pairs: Vec<(Entry, u16)> = Vec::new();
    let ghost all = entries@;
    for entry in it: entries
        invariant
            it.seq() == all,
            all == entries@,
            pairs@.len() == it.index(),
            forall|entry: &Entry| #[trigger] call_requires(offset_of, (entry,)),
            forall|entry: &Entry| #[trigger] call_requires(name_of, (entry,)),
            forall|i: int|
                0 <= i < it.index() ==> {
                    &&& (#[trigger] pairs@[i]).0 == all[i]
                    &&& resolves_to(offset_of, base_address, all[i], pairs@[i].1)
                },
    {
        let ghost here = it.index() as int;
        let offset: u16 = offset_of(&entry);
        match base_address.checked_add(offset) {
            Some(address) => {
                assert(resolves_to(offset_of, base_address, all[here], address));
                pairs.push((entry, address));
            },
            None => {
                let name = name_of(&entry);
                proof {
                    assert forall|j: int| 0 <= j < here implies #[trigger] has_address(
                        offset_of,
                        base_address,
                        all[j],
                    ) by {
                        let pair = pairs@[j];
                        assert(resolves_to(offset_of, base_address, all[j], pair.1));
                    }
                    assert(call_ensures(offset_of, (&all[here],), offset));
                    assert(call_ensures(name_of, (&all[here],), name));
                }
                return Err(
                    DeviceDescriptionError::AddressOverflow { name, base_address, offset },
                );
            },
        }
    }
    Ok(pairs)
}

/// The register that `entry` describes in a section at `base_address`.
pub open spec fn register_of(entry: RawRegisterEntry, base_address: u16) -> RegisterDescription {
    RegisterDescription {
        name: entry.name,
        address: (base_address + entry.offset) as u16,
        data_type: entry.data_type,
        access: entry.access,
    }
}

/// The coil that `entry` describes in a section at `base_address`.
pub open spec fn coil_of(entry: RawCoilEntry, base_address: u16) -> CoilDescription {
    CoilDescription { name: entry.name, address: (base_address + entry.offset) as u16 }
}

impl RawRegisterSection {
    /// Whether every entry up to `n` has an address.
    pub open spec fn fits_up_to(self, n: int) -> bool {
        forall|i: int|
            0 <= i < n ==> !overflows(self.base_address, (#[trigger] self.entries@[i]).offset)
    }
}

impl RawCoilSection {
    /// Whether every entry up to `n` has an address.
    pub open spec fn fits_up_to(self, n: int) -> bool {
        forall|i: int|
            0 <= i < n ==> !overflows(self.base_address, (#[trigger] self.entries@[i]).offset)
    }
}

impl DeviceDescription {
    /// Whether `error` is about entry `i` of the register section, the first
    /// that has no address.
    pub open spec fn refused_at_register(
        raw: RawDeviceDescription,
        i: int,
        error: DeviceDescriptionError,
    ) -> bool {
        &&& 0 <= i < raw.registers.entries@.len()
        &&& raw.registers.fits_up_to(i)
        &&& overflows(raw.registers.base_address, raw.registers.entries@[i].offset)
        &&& error == (DeviceDescriptionError::AddressOverflow {
            name: raw.registers.entries@[i].name,
            base_address: raw.registers.base_address,
            offset: raw.registers.entries@[i].offset,
        })
    }

    /// Whether `error` is about entry `i` of the coil section, the first that
    /// has no address, while every register has one.
    pub open spec fn refused_at_coil(
        raw: RawDeviceDescription,
        i: int,
        error: DeviceDescriptionError,
    ) -> bool {
        &&& raw.registers.fits_up_to(raw.registers.entries@.len() as int)
        &&& 0 <= i < raw.coils.entries@.len()
        &&& raw.coils.fits_up_to(i)
        &&& overflows(raw.coils.base_address, raw.coils.entries@[i].offset)
        &&& error == (DeviceDescriptionError::AddressOverflow {
            name: raw.coils.entries@[i].name,
            base_address: raw.coils.base_address,
            offset: raw.coils.entries@[i].offset,
        })
    }

    /// Whether `resolved` is what comes of resolving `raw`.
    pub open spec fn resolves(
        raw: RawDeviceDescription,
        resolved: Result<Self, DeviceDescriptionError>,
    ) -> bool {
        &&& resolved is Ok <==> raw.registers.fits_up_to(raw.registers.entries@.len() as int)
            && raw.coils.fits_up_to(raw.coils.entries@.len() as int)
        &&& resolved matches Ok(description) ==> {
            &&& description.mem_layout == raw.registers.mem_layout
            &&& description.registers@ == raw.registers.entries@.map_values(
                |entry: RawRegisterEntry| register_of(entry, raw.registers.base_address),
            )
            &&& description.coils@ == raw.coils.entries@.map_values(
                |entry: RawCoilEntry| coil_of(entry, raw.coils.base_address),
            )
        }
        &&& resolved matches Err(error) ==> (exists|i: int|
            Self::refused_at_register(raw, i, error)) || (exists|i: int|
            Self::refused_at_coil(raw, i, error))
    }

    /// Resolves the offsets of a description file into absolute addresses.
    /// The registers are resolved before the coils, and the first entry
    /// without an address is the one that is reported.
    pub fn resolve(raw: RawDeviceDescription) -> (resolved: Result<Self, DeviceDescriptionError>)
        ensures
            Self::resolves(raw, resolved),
    {
        let base_address: u16 = raw.registers.base_address;
        let coil_base_address: u16 = raw.coils.base_address;
        let register_offset = |entry: &RawRegisterEntry| -> (offset: u16)
            ensures
                offset == entry.offset,
            { entry.offset };
        let register_name = |entry: &RawRegisterEntry| -> (name: String)
            ensures
                name == entry.name,
            { entry.name.clone() };
        let registers = match resolve_addresses(
            base_address,
            raw.registers.entries,
            register_offset,
            register_name,
        ) {
            Ok(pairs) => {
                assert forall|i: int| 0 <= i < pairs@.len() implies (#[trigger] pairs@[i]).1
                    == base_address + raw.registers.entries@[i].offset by {
                    assert(resolves_to(
                        register_offset,
                        base_address,
                        raw.registers.entries@[i],
                        pairs@[i].1,
                    ));
                }
                assert forall|i: int| 0 <= i < pairs@.len() implies !overflows(
                    raw.registers.base_address,
                    (#[trigger] raw.registers.entries@[i]).offset,
                ) by {
                    let pair = pairs@[i];
                }
                let mut registers: Vec<RegisterDescription> = Vec::new();
                for pair in it: pairs
                    invariant
                        it.seq() == pairs@,
                        registers@.len() == it.index(),
                        pairs@.len() == raw.registers.entries@.len(),
                        forall|i: int|
                            0 <= i < pairs@.len() ==> {
                                &&& (#[trigger] pairs@[i]).0 == raw.registers.entries@[i]
                                &&& pairs@[i].1 == base_address + raw.registers.entries@[i].offset
                            },
                        forall|i: int|
                            0 <= i < it.index() ==> #[trigger] registers@[i] == register_of(
                                raw.registers.entries@[i],
                                base_address,
                            ),
                {
                    let (entry, address) = pair;
                    registers.push(
                        RegisterDescription {
                            name: entry.name,
                            address,
                            data_type: entry.data_type,
                            access: entry.access,
                        },
                    );
                }
                registers
            },
            Err(error) => {
                proof {
                    let (i, name, offset) = choose|i: int, name: String, offset: u16|
                        {
                            &&& 0 <= i < raw.registers.entries@.len()
                            &&& #[trigger] call_ensures(
                                register_offset,
                                (&raw.registers.entries@[i],),
                                offset,
                            )
                            &&& #[trigger] call_ensures(
                                register_name,
                                (&raw.registers.entries@[i],),
                                name,
                            )
                            &&& overflows(base_address, offset)
                            &&& error == (DeviceDescriptionError::AddressOverflow {
                                name,
                                base_address: base_address,
                                offset,
                            })
                            &&& forall|j: int|
                                0 <= j < i ==> #[trigger] has_address(
                                    register_offset,
                                    base_address,
                                    raw.registers.entries@[j],
                                )
                        };
                    assert forall|j: int| 0 <= j < i implies !overflows(
                        base_address,
                        (#[trigger] raw.registers.entries@[j]).offset,
                    ) by {
                        assert(
                            has_address(register_offset, base_address, raw.registers.entries@[j])
                        );
                    }
                    assert(raw.registers.entries@[i].offset == offset);
                    assert(Self::refused_at_register(raw, i, error));
                }
                return Err(error);
            },
        };
        let coil_offset = |entry: &RawCoilEntry| -> (offset: u16)
            ensures
                offset == entry.offset,
            { entry.offset };
        let coil_name = |entry: &RawCoilEntry| -> (name: String)
            ensures
                name == entry.name,
            { entry.name.clone() };
        let coils = match resolve_addresses(
            coil_base_address,
            raw.coils.entries,
            coil_offset,
            coil_name,
        ) {
            Ok(pairs) => {
                assert forall|i: int| 0 <= i < pairs@.len() implies (#[trigger] pairs@[i]).1
                    == coil_base_address + raw.coils.entries@[i].offset by {
                    assert(resolves_to(
                        coil_offset,
                        coil_base_address,
                        raw.coils.entries@[i],
                        pairs@[i].1,
                    ));
                }
                assert forall|i: int| 0 <= i < pairs@.len() implies !overflows(
                    raw.coils.base_address,
                    (#[trigger] raw.coils.entries@[i]).offset,
                ) by {
                    let pair = pairs@[i];
                }
                let mut coils: Vec<CoilDescription> = Vec::new();
                for pair in it: pairs
                    invariant
                        it.seq() == pairs@,
                        coils@.len() == it.index(),
                        pairs@.len() == raw.coils.entries@.len(),
                        forall|i: int|
                            0 <= i < pairs@.len() ==> {
                                &&& (#[trigger] pairs@[i]).0 == raw.coils.entries@[i]
                                &&& pairs@[i].1 == coil_base_address + raw.coils.entries@[i].offset
                            },
                        forall|i: int|
                            0 <= i < it.index() ==> #[trigger] coils@[i] == coil_of(
                                raw.coils.entries@[i],
                                coil_base_address,
                            ),
                {
                    let (entry, address) = pair;
                    coils.push(CoilDescription { name: entry.name, address });
                }
                coils
            },
            Err(error) => {
                proof {
                    let (i, name, offset) = choose|i: int, name: String, offset: u16|
                        {
                            &&& 0 <= i < raw.coils.entries@.len()
                            &&& #[trigger] call_ensures(
                                coil_offset,
                                (&raw.coils.entries@[i],),
                                offset,
                            )
                            &&& #[trigger] call_ensures(coil_name, (&raw.coils.entries@[i],), name)
                            &&& overflows(coil_base_address, offset)
                            &&& error == (DeviceDescriptionError::AddressOverflow {
                                name,
                                base_address: coil_base_address,
                                offset,
                            })
                            &&& forall|j: int|
                                0 <= j < i ==> #[trigger] has_address(
                                    coil_offset,
                                    coil_base_address,
                                    raw.coils.entries@[j],
                                )
                        };
                    assert forall|j: int| 0 <= j < i implies !overflows(
                        coil_base_address,
                        (#[trigger] raw.coils.entries@[j]).offset,
                    ) by {
                        assert(has_address(coil_offset, coil_base_address, raw.coils.entries@[j]));
                    }
                    assert(raw.coils.entries@[i].offset == offset);
                    assert(Self::refused_at_coil(raw, i, error));
                }
                return Err(error);
            },
        };
        assert(registers@ =~= raw.registers.entries@.map_values(
            |entry: RawRegisterEntry| register_of(entry, raw.registers.base_address),
        ));
        assert(coils@ =~= raw.coils.entries@.map_values(
            |entry: RawCoilEntry| coil_of(entry, raw.coils.base_address),
        ));
        Ok(DeviceDescription { registers, coils, mem_layout: raw.registers.mem_layout })
    }
}

/// Every entry of a description file that is taken is there once it is resolved, in its
/// place, with its own name, type and access right, at the base address of its section
/// plus its own offset.
pub proof fn law_entries_keep_their_place(
    raw: RawDeviceDescription,
    description: DeviceDescription,
    i: int,
)
    requires
        DeviceDescription::resolves(raw, Ok(description)),
    ensures
        description.mem_layout == raw.registers.mem_layout,
        description.registers@.len() == raw.registers.entries@.len(),
        description.coils@.len() == raw.coils.entries@.len(),
        0 <= i < raw.registers.entries@.len() ==> {
            let entry = raw.registers.entries@[i];
            let register = description.registers@[i];
            &&& register.name == entry.name
            &&& register.data_type == entry.data_type
            &&& register.access == entry.access
            &&& register.address as int == raw.registers.base_address + entry.offset
        },
        0 <= i < raw.coils.entries@.len() ==> {
            let entry = raw.coils.entries@[i];
            let coil = description.coils@[i];
            &&& coil.name == entry.name
            &&& coil.address as int == raw.coils.base_address + entry.offset
        },
{
    if 0 <= i < raw.registers.entries@.len() {
        assert(!overflows(raw.registers.base_address, raw.registers.entries@[i].offset));
    }
    if 0 <= i < raw.coils.entries@.len() {
        assert(!overflows(raw.coils.base_address, raw.coils.entries@[i].offset));
    }
}

/// A description file is taken where no entry lies beyond the address 65535; where one
/// does, the error names the first that does, registers before coils.
pub proof fn law_entries_beyond_the_last_address_are_refused(
    raw: RawDeviceDescription,
    resolved: Result<DeviceDescription, DeviceDescriptionError>,
)
    requires
        DeviceDescription::resolves(raw, resolved),
    ensures
        resolved is Ok <==> (forall|i: int|
            0 <= i < raw.registers.entries@.len() ==> raw.registers.base_address + (
            #[trigger] raw.registers.entries@[i]).offset <= 65535) && (forall|i: int|
            0 <= i < raw.coils.entries@.len() ==> raw.coils.base_address + (
            #[trigger] raw.coils.entries@[i]).offset <= 65535),
        resolved matches Err(error) ==> {
            ||| exists|i: int|
                0 <= i < raw.registers.entries@.len() && raw.registers.base_address + (
                #[trigger] raw.registers.entries@[i]).offset > 65535 && (forall|j: int|
                    0 <= j < i ==> raw.registers.base_address + (
                    #[trigger] raw.registers.entries@[j]).offset <= 65535) && error == (
                DeviceDescriptionError::AddressOverflow {
                    name: raw.registers.entries@[i].name,
                    base_address: raw.registers.base_address,
                    offset: raw.registers.entries@[i].offset,
                })
            ||| exists|i: int|
                0 <= i < raw.coils.entries@.len() && raw.coils.base_address + (
                #[trigger] raw.coils.entries@[i]).offset > 65535 && (forall|j: int|
                    0 <= j < i ==> raw.coils.base_address + (
                    #[trigger] raw.coils.entries@[j]).offset <= 65535) && error == (
                DeviceDescriptionError::AddressOverflow {
                    name: raw.coils.entries@[i].name,
                    base_address: raw.coils.base_address,
                    offset: raw.coils.entries@[i].offset,
                })
        },
{
    let registers = raw.registers;
    let coils = raw.coils;
    assert(registers.fits_up_to(registers.entries@.len() as int) <==> forall|i: int|
        0 <= i < registers.entries@.len() ==> registers.base_address + (
        #[trigger] registers.entries@[i]).offset <= 65535);
    assert(coils.fits_up_to(coils.entries@.len() as int) <==> forall|i: int|
        0 <= i < coils.entries@.len() ==> coils.base_address + (
        #[trigger] coils.entries@[i]).offset <= 65535);
    if let Err(error) = resolved {
        if exists|i: int| DeviceDescription::refused_at_register(raw, i, error) {
            let i = choose|i: int| DeviceDescription::refused_at_register(raw, i, error);
            assert(forall|j: int|
                0 <= j < i ==> registers.base_address + (
                #[trigger] registers.entries@[j]).offset <= 65535);
            assert(registers.base_address + registers.entries@[i].offset > 65535);
        } else {
            let i = choose|i: int| DeviceDescription::refused_at_coil(raw, i, error);
            assert(forall|j: int|
                0 <= j < i ==> coils.base_address + (#[trigger] coils.entries@[j]).offset
                    <= 65535);
            assert(coils.base_address + coils.entries@[i].offset > 65535);
        }
    }
}

/// The name of a type is the letter of its kind and the number of its bits, and a value of
/// it takes as many words as hold these bits.
pub proof fn law_name_and_width_of_a_type(data_type: DataType)
    ensures
        ({
            let (letter, bits) = match data_type {
                DataType::U8 => ('U', 8nat),
                DataType::I8 => ('I', 8nat),
                DataType::U16 => ('U', 16nat),
                DataType::I16 => ('I', 16nat),
                DataType::U24 => ('U', 24nat),
                DataType::I24 => ('I', 24nat),
                DataType::U32 => ('U', 32nat),
                DataType::I32 => ('I', 32nat),
                DataType::U64 => ('U', 64nat),
                DataType::I64 => ('I', 64nat),
                DataType::F32 => ('F', 32nat),
                DataType::F64 => ('F', 64nat),
            };
            &&& data_type.label() == seq![letter] + numbers::decimal(bits)
            &&& data_type.width() == (bits + 15) / 16
        }),
{
    reveal_strlit("U8");
    reveal_strlit("I8");
    reveal_strlit("U16");
    reveal_strlit("I16");
    reveal_strlit("U24");
    reveal_strlit("I24");
    reveal_strlit("U32");
    reveal_strlit("I32");
    reveal_strlit("U64");
    reveal_strlit("I64");
    reveal_strlit("F32");
    reveal_strlit("F64");
    reveal_with_fuel(numbers::decimal, 2);
    assert(numbers::decimal(8) =~= seq!['8']);
    assert(numbers::decimal(16) =~= seq!['1', '6']);
    assert(numbers::decimal(24) =~= seq!['2', '4']);
    assert(numbers::decimal(32) =~= seq!['3', '2']);
    assert(numbers::decimal(64) =~= seq!['6', '4']);
    match data_type {
        DataType::U8 => assert("U8"@ =~= seq!['U'] + seq!['8']),
        DataType::I8 => assert("I8"@ =~= seq!['I'] + seq!['8']),
        DataType::U16 => assert("U16"@ =~= seq!['U'] + seq!['1', '6']),
        DataType::I16 => assert("I16"@ =~= seq!['I'] + seq!['1', '6']),
        DataType::U24 => assert("U24"@ =~= seq!['U'] + seq!['2', '4']),
        DataType::I24 => assert("I24"@ =~= seq!['I'] + seq!['2', '4']),
        DataType::U32 => assert("U32"@ =~= seq!['U'] + seq!['3', '2']),
        DataType::I32 => assert("I32"@ =~= seq!['I'] + seq!['3', '2']),
        DataType::U64 => assert("U64"@ =~= seq!['U'] + seq!['6', '4']),
        DataType::I64 => assert("I64"@ =~= seq!['I'] + seq!['6', '4']),
        DataType::F32 => assert("F32"@ =~= seq!['F'] + seq!['3', '2']),
        DataType::F64 => assert("F64"@ =~= seq!['F'] + seq!['6', '4']),
    }
}

/// The message about an entry beyond the last address holds its name, the base address and
/// its offset.
pub proof fn law_message_about_an_entry(name: String, base_address: u16, offset: u16)
    ensures
        ({
            let message = (DeviceDescriptionError::AddressOverflow {
                name,
                base_address,
                offset,
            }).message();
            &&& crate::text::holds(message, name@)
            &&& crate::text::holds(message, numbers::decimal(base_address as nat))
            &&& crate::text::holds(message, numbers::decimal(offset as nat))
        }),
{
    let error = DeviceDescriptionError::AddressOverflow { name, base_address, offset };
    let message = error.message();
    let empty = Seq::<char>::empty();
    let middle = "' address overflows u16: base_address "@;
    let base = numbers::decimal(base_address as nat);
    let own = numbers::decimal(offset as nat);
    crate::text::lemma_holds("'"@, name@, middle + base + " + offset "@ + own);
    assert(message =~= "'"@ + name@ + (middle + base + " + offset "@ + own));
    crate::text::lemma_holds("'"@ + name@ + middle, base, " + offset "@ + own);
    assert(message =~= "'"@ + name@ + middle + base + (" + offset "@ + own));
    crate::text::lemma_holds("'"@ + name@ + middle + base + " + offset "@, own, empty);
    assert(message =~= "'"@ + name@ + middle + base + " + offset "@ + own + empty);
}

} // verus!
