//! The magic number and version at the start of a GGML file.

use crate::bytes::{lemma_integers_in_subrange, read_u32, u32_at};
use crate::ggml::error::{LoadError, LoadFailure};
use vstd::prelude::*;
use vstd::slice::slice_subrange;

verus! {

pub const MAGIC_GGML: u32 = 0x67676d6c;

pub const MAGIC_GGJT: u32 = 0x67676a74;

pub const MAGIC_GGLA: u32 = 0x67676c61;

pub const MAGIC_GGMF: u32 = 0x67676d66;

pub const MAGIC_GGSN: u32 = 0x6767736e;

/// The format of a file: its magic number and, in all but the oldest format, its version.
#[derive(Debug, Copy, Clone, PartialEq, Eq, Structural)]
pub enum GGMLFormat {
    GGML(u32),
    GGJT(u32, u32),
    GGLA(u32, u32),
    GGMF(u32, u32),
    GGSN(u32, u32),
}

/// The format with the given magic number and version, if it is supported.
pub open spec fn versioned_format(magic: u32, version: u32) -> Option<GGMLFormat> {
    if magic == MAGIC_GGJT && 1 <= version <= 3 {
        Some(GGMLFormat::GGJT(magic, version))
    } else if magic == MAGIC_GGLA && version == 1 {
        Some(GGMLFormat::GGLA(magic, version))
    } else if magic == MAGIC_GGMF && version == 1 {
        Some(GGMLFormat::GGMF(magic, version))
    } else {
        None
    }
}

/// The format of a file and the number of bytes that state it. A version is read after every magic
/// number but the oldest, before the magic number is judged.
pub open spec fn format_of(data: Seq<u8>) -> Result<(GGMLFormat, int), LoadFailure> {
    let magic = u32_at(data, 0);
    if data.len() < 4 {
        Err(LoadFailure::UnexpectedEof)
    } else if magic == MAGIC_GGML {
        Ok((GGMLFormat::GGML(magic), 4))
    } else if data.len() < 8 {
        Err(LoadFailure::UnexpectedEof)
    } else {
        match versioned_format(magic, u32_at(data, 4)) {
            Some(format) => Ok((format, 8)),
            None => Err(LoadFailure::InvalidFormat(magic)),
        }
    }
}

/// What the magic number tells.
#[derive(Debug, Copy, Clone, PartialEq, Eq, Structural)]
pub enum MagicStep {
    /// The format has no version.
    Complete(GGMLFormat),
    /// Four bytes of version follow this magic number.
    NeedsVersion(u32),
}

impl GGMLFormat {
    /// The format of the file with the given contents, and the number of bytes that state it.
    pub fn read(data: &[u8]) -> (res: Result<(GGMLFormat, usize), LoadError>)
        ensures
            match res {
                Ok((format, n)) => format_of(data@) == Ok::<_, LoadFailure>((format, n as int)),
                Err(e) => format_of(data@) == Err::<(GGMLFormat, int), _>(e@),
            },
    {
        if data.len() < 4 {
            return Err(LoadError::UnexpectedEof);
        }
        match Self::read_magic(slice_subrange(data, 0, 4)) {
            MagicStep::Complete(format) => Ok((format, 4)),
            MagicStep::NeedsVersion(magic) => {
                if data.len() < 8 {
                    return Err(LoadError::UnexpectedEof);
                }
                proof {
                    lemma_integers_in_subrange(data@, 4, 8, 0);
                }
                match Self::read_version(magic, slice_subrange(data, 4, 8)) {
                    Ok(format) => Ok((format, 8)),
                    Err(e) => Err(e),
                }
            },
        }
    }

    /// What the first four bytes of a file tell of its format.
    pub fn read_magic(bytes: &[u8]) -> (step: MagicStep)
        requires
            bytes@.len() == 4,
        ensures
            step == (if u32_at(bytes@, 0) == MAGIC_GGML {
                MagicStep::Complete(GGMLFormat::GGML(MAGIC_GGML))
            } else {
                MagicStep::NeedsVersion(u32_at(bytes@, 0))
            }),
    {
        let magic = read_u32(bytes);
        if magic == MAGIC_GGML {
            MagicStep::Complete(GGMLFormat::GGML(magic))
        } else {
            MagicStep::NeedsVersion(magic)
        }
    }

    /// The format with the given magic number and the version in the four bytes after it.
    pub fn read_version(magic: u32, bytes: &[u8]) -> (res: Result<GGMLFormat, LoadError>)
        requires
            bytes@.len() == 4,
        ensures
            match versioned_format(magic, u32_at(bytes@, 0)) {
                Some(format) => res == Ok::<_, LoadError>(format),
                None => res == Err::<GGMLFormat, _>(LoadError::InvalidFormat(magic)),
            },
    {
        let version = read_u32(bytes);
        if magic == MAGIC_GGJT && 1 <= version && version <= 3 {
            Ok(GGMLFormat::GGJT(magic, version))
        } else if magic == MAGIC_GGLA && version == 1 {
            Ok(GGMLFormat::GGLA(magic, version))
        } else if magic == MAGIC_GGMF && version == 1 {
            Ok(GGMLFormat::GGMF(magic, version))
        } else {
            Err(LoadError::InvalidFormat(magic))
        }
    }

    /// Whether tensor data is aligned to 32 bytes.
    pub fn align32(&self) -> (aligned: bool)
        requires
            self is GGML || self is GGJT,
        ensures
            aligned == (self is GGJT),
    {
        match self {
            GGMLFormat::GGJT(_, _) => true,
            _ => false,
        }
    }
}

/// A format that was read repeats the magic number and version of the file, and is one of those
/// that are supported.
pub proof fn law_format_repeats_file(data: Seq<u8>)
    ensures
        format_of(data) matches Ok((format, n)) ==> {
            &&& n <= data.len()
            &&& match format {
                GGMLFormat::GGML(magic) => n == 4 && magic == MAGIC_GGML == u32_at(data, 0),
                GGMLFormat::GGJT(magic, version) => n == 8 && magic == MAGIC_GGJT == u32_at(data, 0)
                    && version == u32_at(data, 4) && 1 <= version <= 3,
                GGMLFormat::GGLA(magic, version) => n == 8 && magic == MAGIC_GGLA == u32_at(data, 0)
                    && version == 1 == u32_at(data, 4),
                GGMLFormat::GGMF(magic, version) => n == 8 && magic == MAGIC_GGMF == u32_at(data, 0)
                    && version == 1 == u32_at(data, 4),
                GGMLFormat::GGSN(_, _) => false,
            }
        },
{
}

/// What follows the bytes that state the format has no bearing on it.
pub proof fn law_format_is_a_prefix(data: Seq<u8>, tail: Seq<u8>)
    requires
        format_of(data) is Ok,
    ensures
        format_of(data + tail) == format_of(data),
{
}

/// Of all magic numbers and versions these are supported, each as the format that is named after
/// the magic number.
pub proof fn law_supported_versions(magic: u32, version: u32)
    ensures
        versioned_format(magic, version) is Some <==> {
            ||| magic == MAGIC_GGJT && (version == 1 || version == 2 || version == 3)
            ||| magic == MAGIC_GGLA && version == 1
            ||| magic == MAGIC_GGMF && version == 1
        },
        versioned_format(magic, version) matches Some(format) ==> match format {
            GGMLFormat::GGML(_) => false,
            GGMLFormat::GGJT(m, v) => m == magic == MAGIC_GGJT && v == version,
            GGMLFormat::GGLA(m, v) => m == magic == MAGIC_GGLA && v == version,
            GGMLFormat::GGMF(m, v) => m == magic == MAGIC_GGMF && v == version,
            GGMLFormat::GGSN(_, _) => false,
        },
{
}

/// A format is read from every file that states a supported one, with a version after every magic
/// number but the oldest. A file that ends before that is reported as such, and any other as not
/// supported, with its magic number.
pub proof fn law_every_supported_format_is_read(data: Seq<u8>)
    ensures
        ({
            let magic = u32_at(data, 0);
            let version = u32_at(data, 4);
            let oldest = data.len() >= 4 && magic == MAGIC_GGML;
            let later = data.len() >= 8 && {
                ||| magic == MAGIC_GGJT && 1 <= version <= 3
                ||| magic == MAGIC_GGLA && version == 1
                ||| magic == MAGIC_GGMF && version == 1
            };
            let cut_short = data.len() < 4 || data.len() < 8 && magic != MAGIC_GGML;
            match format_of(data) {
                Ok((_, n)) => oldest && n == 4 || later && n == 8,
                Err(LoadFailure::UnexpectedEof) => cut_short,
                Err(LoadFailure::InvalidFormat(stated)) => !oldest && !later && !cut_short
                    && stated == magic,
                Err(_) => false,
            }
        }),
{
}

/// The magic numbers spell the names of their formats, from the last byte to the first.
pub proof fn law_magic_numbers_spell_names(data: Seq<u8>)
    ensures
        ({
            let magic = u32_at(data, 0);
            let spells = |c: char, d: char|
                data[3] as int == 'g' as int && data[2] as int == 'g' as int && data[1] as int
                    == c as int && data[0] as int == d as int;
            &&& magic == MAGIC_GGML <==> spells('m', 'l')
            &&& magic == MAGIC_GGJT <==> spells('j', 't')
            &&& magic == MAGIC_GGLA <==> spells('l', 'a')
            &&& magic == MAGIC_GGMF <==> spells('m', 'f')
            &&& magic == MAGIC_GGSN <==> spells('s', 'n')
        }),
{
}

} // verus!
