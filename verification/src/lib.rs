//! Injects a caller-supplied tracking string into an executable binary
//! without breaking its container format, and reports where the string was
//! placed.
//!
//! The engine detects the container format (PE, ELF, Mach-O), locates or
//! creates space for the string (an existing zero-byte cave, a new section,
//! an extension of the last section or segment, or a trailing overlay),
//! writes the string followed by one null terminator, updates the minimal
//! on-disk bookkeeping the growth invalidates, and verifies that the bytes
//! are present in the output buffer.
//!
//! Container parsing is delegated to `goblin`; everything the patching
//! logic reads from a parsed binary is first copied into plain view types
//! so that the algorithms themselves are verified.
//!
//! Around the engine sit small generators: random tracking strings, YARA
//! rules that recognize a string, and source snippets that embed one.

pub mod cave;
pub mod codegen;
pub mod elf;
pub mod generator;
pub mod macho;
pub mod patcher;
pub mod pe;
pub mod strutil;
pub mod util;
pub mod yara;

pub use cave::{CaveFinder, CodeCave};
pub use codegen::{
    CCodeGenerator, CSharpCodeGenerator, CodeGenerator, GoCodeGenerator, JavaCodeGenerator,
    JavaScriptCodeGenerator, Language, PowerShellCodeGenerator, PythonCodeGenerator,
    RustCodeGenerator,
};
pub use generator::StringGenerator;
pub use patcher::{BinaryFormat, BinaryPatcher, PatchError, PatchResult, PatchStrategy};
pub use yara::{YaraGenerator, YaraOptions};
