use vstd::prelude::*;

verus! {

use core::cmp::Ordering;
use vstd::std_specs::cmp::PartialOrdSpec;

broadcast use crate::lemma_slice_len_bound;

/// A firmware component version: four bytes, most significant first in the
/// ordering, stored least significant first as they sit on disk.
#[derive(Clone, Copy, Debug, PartialEq, Eq, Structural)]
pub struct Version {
    pub build: u8,
    pub micro: u8,
    pub minor: u8,
    pub major: u8,
}

/// Lexicographic order on the tuple (major, minor, micro, build).
pub open spec fn version_lt(a: Version, b: Version) -> bool {
    ||| a.major < b.major
    ||| (a.major == b.major && a.minor < b.minor)
    ||| (a.major == b.major && a.minor == b.minor && a.micro < b.micro)
    ||| (a.major == b.major && a.minor == b.minor && a.micro == b.micro && a.build < b.build)
}

impl Version {
    pub open spec fn is_zero_spec(&self) -> bool {
        self.build == 0 && self.micro == 0 && self.minor == 0 && self.major == 0
    }

    /// The all-zero version is a sentinel: it tells the reader to use the
    /// legacy fallback bytes of the leaf header instead.
    pub fn is_zero(&self) -> (r: bool)
        ensures
            r == self.is_zero_spec(),
    {
        self.build == 0 && self.micro == 0 && self.minor == 0 && self.major == 0
    }
}

impl PartialOrd for Version {
    fn partial_cmp(&self, other: &Self) -> (r: Option<Ordering>) {
        if self.major != other.major {
            if self.major < other.major {
                Some(Ordering::Less)
            } else {
                Some(Ordering::Greater)
            }
        } else if self.minor != other.minor {
            if self.minor < other.minor {
                Some(Ordering::Less)
            } else {
                Some(Ordering::Greater)
            }
        } else if self.micro != other.micro {
            if self.micro < other.micro {
                Some(Ordering::Less)
            } else {
                Some(Ordering::Greater)
            }
        } else if self.build != other.build {
            if self.build < other.build {
                Some(Ordering::Less)
            } else {
                Some(Ordering::Greater)
            }
        } else {
            Some(Ordering::Equal)
        }
    }
}

impl vstd::std_specs::cmp::PartialOrdSpecImpl for Version {
    open spec fn obeys_partial_cmp_spec() -> bool {
        true
    }

    open spec fn partial_cmp_spec(&self, other: &Self) -> Option<Ordering> {
        if version_lt(*self, *other) {
            Some(Ordering::Less)
        } else if version_lt(*other, *self) {
            Some(Ordering::Greater)
        } else {
            Some(Ordering::Equal)
        }
    }
}

/// Two versions compare as less exactly when their 4-tuples
/// (major, minor, micro, build) compare lexicographically as less,
/// with major the most significant component.
pub proof fn lemma_version_order(a: Version, b: Version)
    ensures
        a.partial_cmp_spec(&b) == Some(Ordering::Less) <==> ({
            ||| a.major < b.major
            ||| (a.major == b.major && a.minor < b.minor)
            ||| (a.major == b.major && a.minor == b.minor && a.micro < b.micro)
            ||| (a.major == b.major && a.minor == b.minor && a.micro == b.micro
                && a.build < b.build)
        }),
        a.partial_cmp_spec(&b) == Some(Ordering::Equal) <==> a == b,
        a.partial_cmp_spec(&b) == Some(Ordering::Greater) <==> version_lt(b, a),
        a.partial_cmp_spec(&b) is Some,
{
}

/// The directory generation tag a combo entry carries: the raw id that
/// selects which processor family the nested directory belongs to.
#[derive(Clone, Copy, Debug, PartialEq, Eq, Structural)]
pub struct Generation {
    pub id: u32,
}

/// Everything that can go wrong while scanning an image; failures are data,
/// attached to the location they struck at, never a panic.
#[derive(Clone, Copy, Debug, PartialEq, Eq, Structural)]
pub enum PspError {
    /// A declared byte range runs past the end of the buffer.
    TruncatedData,
    /// A directory dispatch point held an unrecognized 4-byte tag.
    UnknownSignature(u8, u8, u8, u8),
    /// A nested directory points back at an address already on the path.
    CycleDetected,
    /// A compressed volume's declared body extends past the buffer.
    BodyOutOfBounds,
    /// The LZMA stream of a compressed volume could not be decoded.
    DecompressionFailure,
    /// No firmware entry table anchor matched anywhere in the image.
    NoAnchorFound,
    /// Neither a plaintext build string nor a usable volume was found.
    NoIdentifierFound,
}

/// On-disk size of a `FirmwareEntryTable` record.
pub const FET_SIZE: usize = 0x18;

/// On-disk size of a `DirectoryHeader` record.
pub const DIRECTORY_HEADER_SIZE: usize = 0x10;

/// On-disk size of a `ComboDirectoryHeader` record.
pub const COMBO_DIRECTORY_HEADER_SIZE: usize = 0x20;

/// On-disk size of a `PspDirectoryEntry` record.
pub const PSP_DIRECTORY_ENTRY_SIZE: usize = 0x10;

/// On-disk size of a `ComboDirectoryEntry` record.
pub const COMBO_DIRECTORY_ENTRY_SIZE: usize = 0x10;

/// On-disk size of a `PspEntryHeader` record.
pub const PSP_ENTRY_HEADER_SIZE: usize = 0x100;

/// On-disk size of an `EfiGuidDefinedSection` record.
pub const EFI_GUID_SECTION_SIZE: usize = 0x18;

/// The little-endian u32 value of 4 bytes of `data` starting at `p`.
pub open spec fn spec_u32_at(data: Seq<u8>, p: int) -> u32 {
    vstd::bytes::spec_u32_from_le_bytes(data.subrange(p, p + 4))
}

/// The little-endian u64 value of 8 bytes of `data` starting at `p`.
pub open spec fn spec_u64_at(data: Seq<u8>, p: int) -> u64 {
    vstd::bytes::spec_u64_from_le_bytes(data.subrange(p, p + 8))
}

fn u32_at(data: &[u8], p: usize) -> (r: u32)
    requires
        p + 4 <= data@.len(),
    ensures
        r == spec_u32_at(data@, p as int),
{
    vstd::bytes::u32_from_le_bytes(&data[p..p + 4])
}

fn u64_at(data: &[u8], p: usize) -> (r: u64)
    requires
        p + 8 <= data@.len(),
    ensures
        r == spec_u64_at(data@, p as int),
{
    vstd::bytes::u64_from_le_bytes(&data[p..p + 8])
}

impl Version {
    /// The version stored at `p`: least significant byte first.
    pub open spec fn spec_decode(data: Seq<u8>, p: int) -> Version {
        Version { build: data[p], micro: data[p + 1], minor: data[p + 2], major: data[p + 3] }
    }

    fn decode(data: &[u8], p: usize) -> (r: Version)
        requires
            p + 4 <= data@.len(),
        ensures
            r == Version::spec_decode(data@, p as int),
    {
        Version { build: data[p], micro: data[p + 1], minor: data[p + 2], major: data[p + 3] }
    }
}

/// The anchor record marking one firmware directory tree: its `psp` field
/// points at the root directory.
#[derive(Clone, Copy, Debug)]
pub struct FirmwareEntryTable {
    pub signature: [u8; 4],
    pub psp: u32,
}

impl FirmwareEntryTable {
    pub open spec fn spec_decode(data: Seq<u8>, p: int) -> FirmwareEntryTable {
        FirmwareEntryTable {
            signature: [data[p], data[p + 1], data[p + 2], data[p + 3]],
            psp: spec_u32_at(data, p + 0x14),
        }
    }

    /// Reads the anchor record from the start of `data`; rejects a window
    /// shorter than the record instead of reading past it.
    pub fn new(data: &[u8]) -> (r: Result<FirmwareEntryTable, PspError>)
        ensures
            data@.len() >= FET_SIZE ==> r == Ok::<_, PspError>(
                FirmwareEntryTable::spec_decode(data@, 0),
            ),
            data@.len() < FET_SIZE ==> r == Err::<FirmwareEntryTable, _>(PspError::TruncatedData),
    {
        if data.len() < FET_SIZE {
            return Err(PspError::TruncatedData);
        }
        Ok(FirmwareEntryTable {
            signature: [data[0], data[1], data[2], data[3]],
            psp: u32_at(data, 0x14),
        })
    }
}

/// Header of a simple (leaf-listing) directory.
#[derive(Clone, Copy, Debug)]
pub struct DirectoryHeader {
    pub signature: [u8; 4],
    pub checksum: [u8; 4],
    pub entries: u32,
    pub rsvd_0c: [u8; 4],
}

impl DirectoryHeader {
    pub open spec fn spec_decode(data: Seq<u8>, p: int) -> DirectoryHeader {
        DirectoryHeader {
            signature: [data[p], data[p + 1], data[p + 2], data[p + 3]],
            checksum: [data[p + 4], data[p + 5], data[p + 6], data[p + 7]],
            entries: spec_u32_at(data, p + 8),
            rsvd_0c: [data[p + 12], data[p + 13], data[p + 14], data[p + 15]],
        }
    }

    pub fn decode(data: &[u8], p: usize) -> (r: DirectoryHeader)
        requires
            p + DIRECTORY_HEADER_SIZE <= data@.len(),
        ensures
            r == DirectoryHeader::spec_decode(data@, p as int),
    {
        DirectoryHeader {
            signature: [data[p], data[p + 1], data[p + 2], data[p + 3]],
            checksum: [data[p + 4], data[p + 5], data[p + 6], data[p + 7]],
            entries: u32_at(data, p + 8),
            rsvd_0c: [data[p + 12], data[p + 13], data[p + 14], data[p + 15]],
        }
    }
}

/// Header of a combo directory, whose entries select nested directories by id.
#[derive(Clone, Copy, Debug)]
pub struct ComboDirectoryHeader {
    pub signature: [u8; 4],
    pub checksum: [u8; 4],
    pub entries: u32,
    pub look_up_mode: u32,
}

impl ComboDirectoryHeader {
    pub open spec fn spec_decode(data: Seq<u8>, p: int) -> ComboDirectoryHeader {
        ComboDirectoryHeader {
            signature: [data[p], data[p + 1], data[p + 2], data[p + 3]],
            checksum: [data[p + 4], data[p + 5], data[p + 6], data[p + 7]],
            entries: spec_u32_at(data, p + 8),
            look_up_mode: spec_u32_at(data, p + 12),
        }
    }

    pub fn decode(data: &[u8], p: usize) -> (r: ComboDirectoryHeader)
        requires
            p + COMBO_DIRECTORY_HEADER_SIZE <= data@.len(),
        ensures
            r == ComboDirectoryHeader::spec_decode(data@, p as int),
    {
        ComboDirectoryHeader {
            signature: [data[p], data[p + 1], data[p + 2], data[p + 3]],
            checksum: [data[p + 4], data[p + 5], data[p + 6], data[p + 7]],
            entries: u32_at(data, p + 8),
            look_up_mode: u32_at(data, p + 12),
        }
    }
}

/// One entry of a simple directory: a kind tag, a declared size and a raw
/// location whose low 24 bits are meaningful.
#[derive(Clone, Copy, Debug)]
pub struct PspDirectoryEntry {
    pub kind: u8,
    pub sub_program: u8,
    pub rom_id: u8,
    pub rsvd_03: u8,
    pub size: u32,
    pub location: u64,
}

impl PspDirectoryEntry {
    pub open spec fn spec_decode(data: Seq<u8>, p: int) -> PspDirectoryEntry {
        PspDirectoryEntry {
            kind: data[p],
            sub_program: data[p + 1],
            rom_id: data[p + 2],
            rsvd_03: data[p + 3],
            size: spec_u32_at(data, p + 4),
            location: spec_u64_at(data, p + 8),
        }
    }

    pub fn decode(data: &[u8], p: usize) -> (r: PspDirectoryEntry)
        requires
            p + PSP_DIRECTORY_ENTRY_SIZE <= data@.len(),
        ensures
            r == PspDirectoryEntry::spec_decode(data@, p as int),
    {
        PspDirectoryEntry {
            kind: data[p],
            sub_program: data[p + 1],
            rom_id: data[p + 2],
            rsvd_03: data[p + 3],
            size: u32_at(data, p + 4),
            location: u64_at(data, p + 8),
        }
    }
}

/// One entry of a combo directory: an id pair that selects a processor
/// family and the raw location of the nested simple directory.
#[derive(Clone, Copy, Debug)]
pub struct ComboDirectoryEntry {
    pub id_select: u32,
    pub id: u32,
    pub location: u64,
}

impl ComboDirectoryEntry {
    pub open spec fn spec_decode(data: Seq<u8>, p: int) -> ComboDirectoryEntry {
        ComboDirectoryEntry {
            id_select: spec_u32_at(data, p),
            id: spec_u32_at(data, p + 4),
            location: spec_u64_at(data, p + 8),
        }
    }

    pub fn decode(data: &[u8], p: usize) -> (r: ComboDirectoryEntry)
        requires
            p + COMBO_DIRECTORY_ENTRY_SIZE <= data@.len(),
        ensures
            r == ComboDirectoryEntry::spec_decode(data@, p as int),
    {
        ComboDirectoryEntry {
            id_select: u32_at(data, p),
            id: u32_at(data, p + 4),
            location: u64_at(data, p + 8),
        }
    }

    /// The generation tag carried down to every leaf that this combo entry's
    /// subtree reaches.
    pub fn try_get_gen(&self) -> (r: Generation)
        ensures
            r == (Generation { id: self.id }),
    {
        Generation { id: self.id }
    }
}

/// The terminal 256-byte record describing one embedded firmware blob.
/// The packed version sits at a fixed interior offset; the first four bytes
/// hold a legacy fallback version used when the packed field is all zero.
#[derive(Clone, Copy, Debug)]
pub struct PspEntryHeader {
    pub fallback_version: Version,
    pub signature: [u8; 4],
    pub version: Version,
    pub packed_size: u32,
}

impl PartialEq for PspEntryHeader {
    fn eq(&self, other: &Self) -> (r: bool) {
        self.fallback_version == other.fallback_version && self.signature[0] == other.signature[0]
            && self.signature[1] == other.signature[1] && self.signature[2] == other.signature[2]
            && self.signature[3] == other.signature[3] && self.version == other.version
            && self.packed_size == other.packed_size
    }
}

impl vstd::std_specs::cmp::PartialEqSpecImpl for PspEntryHeader {
    open spec fn obeys_eq_spec() -> bool {
        true
    }

    open spec fn eq_spec(&self, other: &Self) -> bool {
        self.fallback_version == other.fallback_version && self.signature[0] == other.signature[0]
            && self.signature[1] == other.signature[1] && self.signature[2] == other.signature[2]
            && self.signature[3] == other.signature[3] && self.version == other.version
            && self.packed_size == other.packed_size
    }
}

impl PspEntryHeader {
    pub open spec fn spec_decode(data: Seq<u8>, p: int) -> PspEntryHeader {
        PspEntryHeader {
            fallback_version: Version::spec_decode(data, p),
            signature: [data[p + 0x10], data[p + 0x11], data[p + 0x12], data[p + 0x13]],
            version: Version::spec_decode(data, p + 0x60),
            packed_size: spec_u32_at(data, p + 0x6C),
        }
    }

    pub fn decode(data: &[u8], p: usize) -> (r: PspEntryHeader)
        requires
            p + PSP_ENTRY_HEADER_SIZE <= data@.len(),
        ensures
            r == PspEntryHeader::spec_decode(data@, p as int),
    {
        PspEntryHeader {
            fallback_version: Version::decode(data, p),
            signature: [data[p + 0x10], data[p + 0x11], data[p + 0x12], data[p + 0x13]],
            version: Version::decode(data, p + 0x60),
            packed_size: u32_at(data, p + 0x6C),
        }
    }

    /// Reads a leaf header from the start of `data`; rejects a window shorter
    /// than the full 256-byte record instead of reading past it.
    pub fn new(data: &[u8]) -> (r: Result<PspEntryHeader, PspError>)
        ensures
            data@.len() >= PSP_ENTRY_HEADER_SIZE ==> r == Ok::<_, PspError>(
                PspEntryHeader::spec_decode(data@, 0),
            ),
            data@.len() < PSP_ENTRY_HEADER_SIZE ==> r == Err::<PspEntryHeader, _>(
                PspError::TruncatedData,
            ),
    {
        if data.len() < PSP_ENTRY_HEADER_SIZE {
            return Err(PspError::TruncatedData);
        }
        Ok(PspEntryHeader::decode(data, 0))
    }

    /// The version this leaf reports: the packed field, unless it is the
    /// all-zero sentinel, in which case the legacy fallback bytes stand in.
    pub open spec fn spec_get_version(&self) -> Version {
        if self.version.is_zero_spec() {
            self.fallback_version
        } else {
            self.version
        }
    }

    pub fn get_version(&self) -> (r: Version)
        ensures
            r == self.spec_get_version(),
    {
        if self.version.is_zero() {
            self.fallback_version
        } else {
            self.version
        }
    }

    /// The all-zero packed version, and only it, makes the fallback bytes
    /// stand in for the reported version.
    pub proof fn lemma_version_fallback(&self)
        ensures
            self.version.is_zero_spec() ==> self.spec_get_version() == self.fallback_version,
            !self.version.is_zero_spec() ==> self.spec_get_version() == self.version,
    {
    }

    /// The processor codename that a (major, minor) version pair is known to
    /// belong to, if any.
    pub open spec fn spec_arch(major: u8, minor: u8) -> Option<Seq<char>> {
        if major == 0x00 && minor == 0x38 {
            Some("Vermeer"@)
        } else if major == 0x00 && minor == 0x2E {
            Some("Matisse"@)
        } else if major == 0x00 && minor == 0x2B {
            Some("Pinnacle Ridge"@)
        } else if major == 0x00 && minor == 0x19 {
            Some("Summit Ridge"@)
        } else if major == 0x00 && minor == 0x40 {
            Some("Cezanne"@)
        } else if major == 0x00 && minor == 0x37 {
            Some("Renoir"@)
        } else if major == 0x04 && minor == 0x1E {
            Some("Picasso"@)
        } else if major == 0x00 && minor == 0x25 {
            Some("Raven Ridge 2"@)
        } else if major == 0x00 && minor == 0x1E {
            Some("Raven Ridge"@)
        } else if major == 0x04 && minor == 0x24 {
            Some("Castle Peak"@)
        } else if major == 0x04 && minor == 0x2B {
            Some("Colfax"@)
        } else if major == 0x04 && minor == 0x19 {
            Some("Whitehaven"@)
        } else if major == 0x00 && minor == 0x24 {
            Some("Rome"@)
        } else if major == 0x00 && minor == 0x2D {
            Some("Milan"@)
        } else {
            None
        }
    }

    pub fn try_get_processor_arch(&self) -> (r: Option<&'static str>)
        ensures
            match r {
                Some(s) => Self::spec_arch(
                    self.spec_get_version().major,
                    self.spec_get_version().minor,
                ) == Some(s@),
                None => Self::spec_arch(
                    self.spec_get_version().major,
                    self.spec_get_version().minor,
                ) is None,
            },
    {
        let v = self.get_version();
        match (v.major, v.minor) {
            (0x00, 0x38) => Some("Vermeer"),  // Ryzen 5XXX
            (0x00, 0x2E) => Some("Matisse"),  // Ryzen 3XXX
            (0x00, 0x2B) => Some("Pinnacle Ridge"),  // Ryzen 2XXX
            (0x00, 0x19) => Some("Summit Ridge"),  // Ryzen 1XXX
            (0x00, 0x40) => Some("Cezanne"),  // Ryzen 5XXX (APU)
            (0x00, 0x37) => Some("Renoir"),  // Ryzen 4XXX (APU)
            (0x04, 0x1E) => Some("Picasso"),  // Ryzen 3XXX (APU)
            (0x00, 0x25) => Some("Raven Ridge 2"),  // Ryzen 2XXX (APU refresh)
            (0x00, 0x1E) => Some("Raven Ridge"),  // Ryzen 2XXX (APU)
            (0x04, 0x24) => Some("Castle Peak"),  // Threadripper 3XXX
            (0x04, 0x2B) => Some("Colfax"),  // Threadripper 2XXX
            (0x04, 0x19) => Some("Whitehaven"),  // Threadripper 1XXX
            (0x00, 0x24) => Some("Rome"),  // EPYC 7003
            (0x00, 0x2D) => Some("Milan"),  // EPYC 7002
            _ => None,
        }
    }
}

/// Header of an EFI GUID-defined section holding an LZMA-compressed firmware
/// volume; the three size bytes give the little-endian total section size.
#[derive(Clone, Copy, Debug)]
pub struct EfiGuidDefinedSection {
    pub size: [u8; 3],
    pub guid: [u8; 16],
}

impl EfiGuidDefinedSection {
    pub open spec fn spec_decode(data: Seq<u8>, p: int) -> EfiGuidDefinedSection {
        EfiGuidDefinedSection {
            size: [data[p], data[p + 1], data[p + 2]],
            guid: [
                data[p + 4],
                data[p + 5],
                data[p + 6],
                data[p + 7],
                data[p + 8],
                data[p + 9],
                data[p + 10],
                data[p + 11],
                data[p + 12],
                data[p + 13],
                data[p + 14],
                data[p + 15],
                data[p + 16],
                data[p + 17],
                data[p + 18],
                data[p + 19],
            ],
        }
    }

    /// Reads a section header from the start of `data`; rejects a window
    /// shorter than the record instead of reading past it.
    pub fn new(data: &[u8]) -> (r: Result<EfiGuidDefinedSection, PspError>)
        ensures
            data@.len() >= EFI_GUID_SECTION_SIZE ==> r == Ok::<_, PspError>(
                EfiGuidDefinedSection::spec_decode(data@, 0),
            ),
            data@.len() < EFI_GUID_SECTION_SIZE ==> r == Err::<EfiGuidDefinedSection, _>(
                PspError::TruncatedData,
            ),
    {
        if data.len() < EFI_GUID_SECTION_SIZE {
            return Err(PspError::TruncatedData);
        }
        Ok(EfiGuidDefinedSection {
            size: [data[0], data[1], data[2]],
            guid: [
                data[4],
                data[5],
                data[6],
                data[7],
                data[8],
                data[9],
                data[10],
                data[11],
                data[12],
                data[13],
                data[14],
                data[15],
                data[16],
                data[17],
                data[18],
                data[19],
            ],
        })
    }

    /// The declared total size of the section, header included.
    pub open spec fn spec_full_size(&self) -> int {
        self.size[0] + self.size[1] * 0x100 + self.size[2] * 0x10000
    }

    pub fn get_full_size(&self) -> (r: usize)
        ensures
            r == self.spec_full_size(),
            r <= 0xFFFFFF,
    {
        (self.size[0] as usize) + (self.size[1] as usize) * 0x100 + (self.size[2] as usize)
            * 0x10000
    }

    /// The size of the compressed body that follows the header; meaningful
    /// only when the declared total covers at least the header itself.
    pub fn get_body_size(&self) -> (r: usize)
        requires
            self.spec_full_size() >= EFI_GUID_SECTION_SIZE,
        ensures
            r == self.spec_full_size() - EFI_GUID_SECTION_SIZE,
    {
        self.get_full_size() - EFI_GUID_SECTION_SIZE
    }
}

} // verus!
