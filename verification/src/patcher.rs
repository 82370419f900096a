//! Format detection, the patch orchestrator, the universal overlay
//! strategy, and post-patch verification.

use vstd::prelude::*;

use crate::util::{has_substring, spec_starts_with_chars};
use vstd::string::StringSliceAdditionalSpecFns;

verus! {

/// The container formats the engine can classify.
#[derive(Debug, Clone, Copy, PartialEq, Eq, Structural)]
pub enum BinaryFormat {
    PE32,
    PE64,
    ELF32,
    ELF64,
    MachO32,
    MachO64,
    MachOFat,
    Unknown,
}

impl BinaryFormat {
    /// Human-readable name of the format.
    pub fn name(&self) -> (r: String)
        ensures
            self is PE32 ==> r@ == "PE32"@,
            self is PE64 ==> r@ == "PE64"@,
            self is ELF32 ==> r@ == "ELF32"@,
            self is ELF64 ==> r@ == "ELF64"@,
            self is MachO32 ==> r@ == "Mach-O 32-bit"@,
            self is MachO64 ==> r@ == "Mach-O 64-bit"@,
            self is MachOFat ==> r@ == "Mach-O Fat/Universal"@,
            self is Unknown ==> r@ == "Unknown"@,
    {
        match self {
            BinaryFormat::PE32 => "PE32".to_owned(),
            BinaryFormat::PE64 => "PE64".to_owned(),
            BinaryFormat::ELF32 => "ELF32".to_owned(),
            BinaryFormat::ELF64 => "ELF64".to_owned(),
            BinaryFormat::MachO32 => "Mach-O 32-bit".to_owned(),
            BinaryFormat::MachO64 => "Mach-O 64-bit".to_owned(),
            BinaryFormat::MachOFat => "Mach-O Fat/Universal".to_owned(),
            BinaryFormat::Unknown => "Unknown".to_owned(),
        }
    }
}

/// How the tracking string is placed into the binary.
#[derive(Debug, Clone, Copy, PartialEq, Eq, Structural)]
pub enum PatchStrategy {
    /// Reuse an existing run of zero bytes.
    Cave,
    /// Register new space past the last structural element.
    Section,
    /// Grow the last section or segment in place.
    Extend,
    /// Append past the end of the file, outside any section.
    Overlay,
}

impl PatchStrategy {
    /// Human-readable name of the strategy.
    pub fn name(&self) -> (r: String)
        ensures
            self is Cave ==> r@ == "cave"@,
            self is Section ==> r@ == "section"@,
            self is Extend ==> r@ == "extend"@,
            self is Overlay ==> r@ == "overlay"@,
    {
        match self {
            PatchStrategy::Cave => "cave".to_owned(),
            PatchStrategy::Section => "section".to_owned(),
            PatchStrategy::Extend => "extend".to_owned(),
            PatchStrategy::Overlay => "overlay".to_owned(),
        }
    }
}

/// Where and how a successful patch placed the tracking string.
#[derive(Debug, Clone)]
pub struct PatchResult {
    pub format: BinaryFormat,
    pub strategy_used: String,
    pub virtual_address: Option<u64>,
    pub file_offset: Option<u64>,
}

/// Why a patch failed.
#[derive(Debug)]
pub enum PatchError {
    /// The input file could not be read (file-based callers only).
    ReadError(String),
    /// The container's headers could not be parsed.
    ParseError(String),
    /// The detected format has no patcher.
    UnsupportedFormat,
    /// The cave strategy found no run of zero bytes of `needed` bytes;
    /// `found` is the largest run available.
    NoCaveFound { needed: usize, found: usize },
    /// Reserved for a length-limit check; no patch algorithm raises it.
    StringTooLong,
    /// A structural precondition of the chosen strategy was missing.
    PatchFailed(String),
    /// The patched buffer did not contain the string afterwards.
    VerificationFailed,
}

impl PatchError {
    /// Human-readable description of the error.
    pub fn message(&self) -> (r: String)
        ensures
            self matches PatchError::ReadError(m) ==> r@ == "failed to read binary: "@ + m@,
            self matches PatchError::ParseError(m) ==> r@ == "failed to parse binary: "@ + m@,
            self is UnsupportedFormat ==> r@ == "unsupported binary format"@,
            self matches PatchError::NoCaveFound { needed, found } ==> r@
                == "no suitable code cave found (need "@ + crate::strutil::dec_str(needed as nat)
                + " bytes, largest found: "@ + crate::strutil::dec_str(found as nat) + ")"@,
            self is StringTooLong ==> r@ == "string too long for available space"@,
            self matches PatchError::PatchFailed(m) ==> r@ == "failed to patch binary: "@ + m@,
            self is VerificationFailed ==> r@ == "binary verification failed"@,
    {
        match self {
            PatchError::ReadError(m) => "failed to read binary: ".to_owned().concat(m.as_str()),
            PatchError::ParseError(m) => "failed to parse binary: ".to_owned().concat(m.as_str()),
            PatchError::UnsupportedFormat => "unsupported binary format".to_owned(),
            PatchError::NoCaveFound { needed, found } => {
                let mut m = "no suitable code cave found (need ".to_owned();
                m.append(crate::strutil::usize_to_string(*needed).as_str());
                m.append(" bytes, largest found: ");
                m.append(crate::strutil::usize_to_string(*found).as_str());
                m.append(")");
                m
            },
            PatchError::StringTooLong => "string too long for available space".to_owned(),
            PatchError::PatchFailed(m) => "failed to patch binary: ".to_owned().concat(m.as_str()),
            PatchError::VerificationFailed => "binary verification failed".to_owned(),
        }
    }
}

/// The coarse classification of a byte buffer by the parsing collaborator.
#[derive(Debug, Clone, Copy, PartialEq, Eq, Structural)]
pub enum ParsedKind {
    Pe { is_64: bool },
    Elf { is_64: bool },
    MachBinary { is_64: bool },
    MachFat,
    Other,
}

/// What `goblin::Object::parse` classifies a given byte sequence as:
/// `None` when parsing fails, otherwise the container family and
/// bit-width. The classification depends on the bytes alone.
pub uninterp spec fn parse_kind(data: Seq<u8>) -> Option<ParsedKind>;

/// Relies on `goblin::Object::parse`: classifies a buffer as PE, ELF,
/// Mach-O (thin or fat), or something else, deterministically from the
/// bytes; parse failures are reported as errors. The dispatcher itself
/// runs `PE::parse`, `Elf::parse`, or `MachO::parse` (at offset zero) on
/// the same bytes and returns that parser's value, so a successful
/// classification implies the matching per-format parse succeeds and
/// agrees on the bit-width.
#[verifier::external_body]
fn parse_object_kind(data: &[u8]) -> (r: Result<ParsedKind, PatchError>)
    ensures
        match r {
            Ok(k) => parse_kind(data@) == Some(k) && match k {
                ParsedKind::Pe { is_64 } => crate::pe::pe_view_of(data@) matches Some(v)
                    && v.is_64 == is_64,
                ParsedKind::Elf { is_64 } => crate::elf::elf_view_of(data@) matches Some(v)
                    && v.is_64 == is_64,
                ParsedKind::MachBinary { is_64 } => crate::macho::mach_view_of(data@) matches Some(
                    v,
                ) && v.is_64 == is_64,
                ParsedKind::MachFat => true,
                ParsedKind::Other => true,
            },
            Err(e) => parse_kind(data@) is None && e is ParseError,
        },
{
    match goblin::Object::parse(data) {
        Ok(goblin::Object::PE(pe)) => Ok(ParsedKind::Pe { is_64: pe.is_64 }),
        Ok(goblin::Object::Elf(elf)) => Ok(ParsedKind::Elf { is_64: elf.is_64 }),
        Ok(goblin::Object::Mach(goblin::mach::Mach::Binary(m))) => Ok(ParsedKind::MachBinary {
            is_64: m.is_64,
        }),
        Ok(goblin::Object::Mach(goblin::mach::Mach::Fat(_))) => Ok(ParsedKind::MachFat),
        Ok(_) => Ok(ParsedKind::Other),
        Err(e) => Err(PatchError::ParseError(e.to_string())),
    }
}

/// The format tag assigned to each classification.
pub open spec fn format_of_kind(k: ParsedKind) -> BinaryFormat {
    match k {
        ParsedKind::Pe { is_64 } => if is_64 {
            BinaryFormat::PE64
        } else {
            BinaryFormat::PE32
        },
        ParsedKind::Elf { is_64 } => if is_64 {
            BinaryFormat::ELF64
        } else {
            BinaryFormat::ELF32
        },
        ParsedKind::MachBinary { is_64 } => if is_64 {
            BinaryFormat::MachO64
        } else {
            BinaryFormat::MachO32
        },
        ParsedKind::MachFat => BinaryFormat::MachOFat,
        ParsedKind::Other => BinaryFormat::Unknown,
    }
}

/// The format `detect_format` assigns to a byte sequence: `None` when the
/// parser rejects the bytes, otherwise the classification's format tag.
pub open spec fn detect_spec(data: Seq<u8>) -> Option<BinaryFormat> {
    match parse_kind(data) {
        Some(k) => Some(format_of_kind(k)),
        None => None,
    }
}

/// Detection is a function of the input bytes alone: two detections of
/// equal byte sequences classify identically.
pub proof fn lemma_detect_deterministic(d1: Seq<u8>, d2: Seq<u8>)
    requires
        d1 == d2,
    ensures
        detect_spec(d1) == detect_spec(d2),
{
}

/// The reported offset points into the output at the written string,
/// immediately followed by one null terminator.
pub open spec fn placed_at(out: Seq<u8>, bytes: Seq<u8>, res: PatchResult) -> bool {
    res.file_offset matches Some(off) && {
        &&& off + bytes.len() + 1 <= out.len()
        &&& out.subrange(off as int, off + bytes.len()) == bytes
        &&& out[off + bytes.len()] == 0
    }
}

/// The word that opens a strategy's human-readable label.
pub open spec fn strategy_prefix(strategy: PatchStrategy) -> Seq<char> {
    match strategy {
        PatchStrategy::Cave => "cave"@,
        PatchStrategy::Section => "section"@,
        PatchStrategy::Extend => "extend"@,
        PatchStrategy::Overlay => "overlay"@,
    }
}

/// A successful in-place cave patch: the buffer keeps its length, the
/// string and its null terminator overwrite zero bytes starting at `off`,
/// and every other byte is untouched.
pub open spec fn cave_patch_ok(
    data: Seq<u8>,
    bytes: Seq<u8>,
    out: Seq<u8>,
    res: PatchResult,
    off: int,
) -> bool {
    &&& out.len() == data.len()
    &&& 0 <= off
    &&& off + bytes.len() + 1 <= data.len()
    &&& crate::cave::all_zero(data, off, off + bytes.len() + 1)
    &&& out.subrange(off, off + bytes.len()) == bytes
    &&& out[off + bytes.len()] == 0
    &&& forall|k: int|
        0 <= k < out.len() && !(off <= k < off + bytes.len() + 1) ==> out[k] == data[k]
    &&& res.file_offset == Some(off as u64)
}

/// `found` is the size of the largest cave in `data` (zero when the buffer
/// holds no zero byte), as reported in a `NoCaveFound` error.
pub open spec fn largest_cave_report(data: Seq<u8>, found: int) -> bool {
    &&& forall|off: int, sz: int| #[trigger] crate::cave::is_maximal_run(data, off, sz) ==> sz
        <= found
    &&& (found != 0 ==> exists|off: int| crate::cave::is_maximal_run(data, off, found))
    &&& (found == 0 ==> forall|k: int| 0 <= k < data.len() ==> data[k] != 0)
}

/// A buffer with no zero byte at all has no cave: an exhausted cave
/// search reports zero as the largest size found, and no cave of any size
/// is available.
pub proof fn lemma_no_zero_no_cave(data: Seq<u8>, found: int)
    requires
        forall|k: int| 0 <= k < data.len() ==> data[k] != 0,
        largest_cave_report(data, found),
    ensures
        found == 0,
        !crate::cave::cave_available(data, 1),
{
    if found != 0 {
        let off = choose|off: int| crate::cave::is_maximal_run(data, off, found);
        assert(data[off] == 0);
    }
    if crate::cave::cave_available(data, 1) {
        let (off, sz) = choose|off: int, sz: int|
            crate::cave::is_maximal_run(data, off, sz) && sz >= 1;
        assert(data[off] == 0);
    }
}

pub struct BinaryPatcher;

impl BinaryPatcher {
    /// Detect the binary format from raw bytes. A recognized but unhandled
    /// container keeps its own tag; unrecognized bytes yield `Unknown`;
    /// malformed headers yield a parse error.
    pub fn detect_format(data: &[u8]) -> (r: Result<BinaryFormat, PatchError>)
        ensures
            match r {
                Ok(f) => {
                    &&& detect_spec(data@) == Some(f)
                    &&& (f == BinaryFormat::PE32 || f == BinaryFormat::PE64) ==> (
                    crate::pe::pe_view_of(data@) matches Some(v) && v.is_64 == (f
                        == BinaryFormat::PE64))
                    &&& (f == BinaryFormat::ELF32 || f == BinaryFormat::ELF64) ==> (
                    crate::elf::elf_view_of(data@) matches Some(v) && v.is_64 == (f
                        == BinaryFormat::ELF64))
                    &&& (f == BinaryFormat::MachO32 || f == BinaryFormat::MachO64) ==> (
                    crate::macho::mach_view_of(data@) matches Some(v) && v.is_64 == (f
                        == BinaryFormat::MachO64))
                },
                Err(e) => detect_spec(data@) is None && e is ParseError,
            },
    {
        match parse_object_kind(data) {
            Ok(k) => Ok(
                match k {
                    ParsedKind::Pe { is_64 } => if is_64 {
                        BinaryFormat::PE64
                    } else {
                        BinaryFormat::PE32
                    },
                    ParsedKind::Elf { is_64 } => if is_64 {
                        BinaryFormat::ELF64
                    } else {
                        BinaryFormat::ELF32
                    },
                    ParsedKind::MachBinary { is_64 } => if is_64 {
                        BinaryFormat::MachO64
                    } else {
                        BinaryFormat::MachO32
                    },
                    ParsedKind::MachFat => BinaryFormat::MachOFat,
                    ParsedKind::Other => BinaryFormat::Unknown,
                },
            ),
            Err(e) => Err(e),
        }
    }

    /// Verify that the string's raw bytes occur as a contiguous sequence
    /// somewhere in `data`.
    pub fn verify_patch(data: &[u8], string: &str) -> (r: bool)
        ensures
            r <==> has_substring(data@, string.spec_bytes()),
    {
        crate::util::contains_bytes(data, string.as_bytes())
    }

    /// Patch an in-memory buffer: detect the format, reject containers the
    /// engine has no patcher for, run the requested strategy (overlay is
    /// universal and handled before format dispatch), and verify that the
    /// string's bytes are present in the output. A buffer that fails
    /// verification is never returned; with these patchers that case is
    /// unreachable.
    pub fn patch_buffer(data: &[u8], string: &str, strategy: PatchStrategy) -> (r: Result<
        (Vec<u8>, PatchResult),
        PatchError,
    >)
        ensures
            match r {
                Ok((out, res)) => {
                    &&& detect_spec(data@) matches Some(f) && f != BinaryFormat::Unknown && f
                        != BinaryFormat::MachOFat && res.format == f
                    &&& has_substring(out@, string.spec_bytes())
                    &&& placed_at(out@, string.spec_bytes(), res)
                    &&& spec_starts_with_chars(res.strategy_used@, strategy_prefix(strategy))
                    &&& strategy == PatchStrategy::Cave ==> {
                        &&& out@.len() == data@.len()
                        &&& exists|off: int| #[trigger] cave_patch_ok(
                            data@,
                            string.spec_bytes(),
                            out@,
                            res,
                            off,
                        )
                        &&& crate::cave::cave_available(
                            data@,
                            string.spec_bytes().len() + 1 as int,
                        )
                    }
                    &&& (strategy == PatchStrategy::Section || strategy == PatchStrategy::Extend
                        || strategy == PatchStrategy::Overlay) ==> out@.len() >= data@.len()
                        + string.spec_bytes().len() + 1
                    &&& strategy == PatchStrategy::Overlay ==> {
                        &&& out@ == data@ + string.spec_bytes() + seq![0u8]
                        &&& res.virtual_address is None
                        &&& res.file_offset == Some(data@.len() as u64)
                        &&& res.format == detect_spec(data@)->Some_0
                        &&& res.strategy_used@ == "overlay"@
                    }
                },
                Err(e) => {
                    &&& (e is UnsupportedFormat <==> detect_spec(data@) == Some(
                        BinaryFormat::Unknown,
                    ))
                    &&& e matches PatchError::NoCaveFound { needed, found } ==> {
                        &&& strategy == PatchStrategy::Cave
                        &&& needed == string.spec_bytes().len() + 1
                        &&& largest_cave_report(data@, found as int)
                    }
                    &&& detect_spec(data@) == Some(BinaryFormat::MachOFat) ==> e is PatchFailed
                    &&& e is VerificationFailed ==> false
                    &&& (strategy == PatchStrategy::Overlay && (detect_spec(data@) matches Some(f)
                        && f != BinaryFormat::Unknown && f != BinaryFormat::MachOFat)
                        && string.spec_bytes().len() < usize::MAX) ==> false
                    &&& (strategy == PatchStrategy::Cave && (detect_spec(data@) matches Some(f)
                        && f != BinaryFormat::Unknown && f != BinaryFormat::MachOFat)
                        && string.spec_bytes().len() < usize::MAX && !crate::cave::cave_available(
                        data@,
                        string.spec_bytes().len() + 1 as int,
                    )) ==> (e matches PatchError::NoCaveFound { needed, found } && needed
                        == string.spec_bytes().len() + 1 && largest_cave_report(
                        data@,
                        found as int,
                    ))
                },
            },
    {
        let format = match Self::detect_format(data) {
            Ok(f) => f,
            Err(e) => {
                return Err(e);
            },
        };
        if format == BinaryFormat::Unknown {
            return Err(PatchError::UnsupportedFormat);
        }
        if format == BinaryFormat::MachOFat {
            return Err(PatchError::PatchFailed("fat/universal binaries not supported".to_owned()));
        }
        let n = string.as_bytes().len();
        if n == usize::MAX {
            return Err(PatchError::PatchFailed("string too large".to_owned()));
        }
        if strategy == PatchStrategy::Overlay {
            let dl = data.len();
            let (out, res) = Self::patch_overlay(data, string, format);
            proof {
                assert(out@.subrange(data@.len() as int, data@.len() + string.spec_bytes().len()
                    as int) =~= string.spec_bytes());
                assert(crate::util::has_sub_at(out@, string.spec_bytes(), data@.len() as int));
                assert((data@.len() as u64) as int == data@.len() as int);
                assert(out@[data@.len() + string.spec_bytes().len() as int] == 0);
                assert(placed_at(out@, string.spec_bytes(), res));
                assert(res.strategy_used@.subrange(0, "overlay"@.len() as int)
                    =~= res.strategy_used@);
            }
            if !Self::verify_patch(out.as_slice(), string) {
                return Err(PatchError::VerificationFailed);
            }
            return Ok((out, res));
        }
        let result = match format {
            BinaryFormat::PE32 | BinaryFormat::PE64 => crate::pe::patch_pe(data, string, strategy),
            BinaryFormat::ELF32 | BinaryFormat::ELF64 => crate::elf::patch_elf(
                data,
                string,
                strategy,
            ),
            BinaryFormat::MachO32 | BinaryFormat::MachO64 => crate::macho::patch_macho(
                data,
                string,
                strategy,
            ),
            BinaryFormat::MachOFat | BinaryFormat::Unknown => vstd::pervasive::unreached(),
        };
        match result {
            Ok((out, res)) => {
                proof {
                    if strategy == PatchStrategy::Cave {
                        let off = choose|off: int|
                            cave_patch_ok(data@, string.spec_bytes(), out@, res, off);
                        assert(out@.len() == data@.len());
                        crate::cave::lemma_zero_run_extends(
                            data@,
                            off,
                            string.spec_bytes().len() + 1 as int,
                        );
                    }
                }
                if !Self::verify_patch(out.as_slice(), string) {
                    return Err(PatchError::VerificationFailed);
                }
                Ok((out, res))
            },
            Err(e) => Err(e),
        }
    }

    /// Append the string and a null terminator past the end of the file,
    /// touching no structural field; overlay data is never memory-mapped.
    fn patch_overlay(data: &[u8], string: &str, format: BinaryFormat) -> (r: (
        Vec<u8>,
        PatchResult,
    ))
        ensures
            r.0@ == data@ + string.spec_bytes() + seq![0u8],
            r.1.format == format,
            r.1.virtual_address is None,
            r.1.file_offset == Some(data@.len() as u64),
            r.1.strategy_used@ == "overlay"@,
    {
        let file_offset = data.len();
        let mut patched: Vec<u8> = Vec::new();
        patched.extend_from_slice(data);
        patched.extend_from_slice(string.as_bytes());
        patched.push(0);
        proof {
            assert(patched@ =~= data@ + string.spec_bytes() + seq![0u8]);
        }
        let result = PatchResult {
            format,
            strategy_used: "overlay".to_owned(),
            virtual_address: None,
            file_offset: Some(file_offset as u64),
        };
        (patched, result)
    }
}

} // verus!
