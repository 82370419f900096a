//! Source-code snippet generation: embeds a tracking string into a small
//! snippet for each supported target language, escaping it as the
//! language's string literals require.

pub mod c_cpp;
pub mod csharp;
pub mod go;
pub mod java;
pub mod javascript;
pub mod powershell;
pub mod python;
pub mod rust;

pub use c_cpp::CCodeGenerator;
pub use csharp::CSharpCodeGenerator;
pub use go::GoCodeGenerator;
pub use java::JavaCodeGenerator;
pub use javascript::JavaScriptCodeGenerator;
pub use powershell::PowerShellCodeGenerator;
pub use python::PythonCodeGenerator;
pub use rust::RustCodeGenerator;

use vstd::prelude::*;

verus! {

/// A snippet generator for one target language.
pub trait CodeGenerator {
    /// The snippet with the tracking string embedded.
    fn generate(&self, string: &str) -> String;
}

/// The target languages of the code command.
#[derive(Debug, Clone, Copy, PartialEq, Eq, Structural)]
pub enum Language {
    C,
    Cpp,
    Go,
    Rust,
    Csharp,
    Java,
}

impl Language {
    /// The language's command-line name.
    pub fn name(&self) -> (r: String)
        ensures
            self is C ==> r@ == "c"@,
            self is Cpp ==> r@ == "cpp"@,
            self is Go ==> r@ == "go"@,
            self is Rust ==> r@ == "rust"@,
            self is Csharp ==> r@ == "csharp"@,
            self is Java ==> r@ == "java"@,
    {
        match self {
            Language::C => "c".to_owned(),
            Language::Cpp => "cpp".to_owned(),
            Language::Go => "go".to_owned(),
            Language::Rust => "rust".to_owned(),
            Language::Csharp => "csharp".to_owned(),
            Language::Java => "java".to_owned(),
        }
    }
}

/// Generate the snippet for the chosen language.
pub fn generate_code(string: &str, language: Language) -> (r: String)
    ensures
        r@ == match language {
            Language::C => c_cpp::c_code_spec(string@, false),
            Language::Cpp => c_cpp::c_code_spec(string@, true),
            Language::Go => go::go_code_spec(string@),
            Language::Rust => rust::rust_code_spec(string@),
            Language::Csharp => csharp::csharp_code_spec(string@),
            Language::Java => java::java_code_spec(string@),
        },
{
    match language {
        Language::C => CCodeGenerator::new(false).generate(string),
        Language::Cpp => CCodeGenerator::new(true).generate(string),
        Language::Go => GoCodeGenerator.generate(string),
        Language::Rust => RustCodeGenerator.generate(string),
        Language::Csharp => CSharpCodeGenerator.generate(string),
        Language::Java => JavaCodeGenerator.generate(string),
    }
}

} // verus!
