//! The failures of code generation and linking, with their messages.

use vstd::prelude::*;

verus! {

/// A failure reported by the code generation backend.
#[derive(Debug)]
pub enum CodegenError {
    BackendError(String),
}

/// A failure to link an executable.
#[derive(Debug)]
pub enum LinkerError {
    LinkerNotFound,
    WindowsSdkNotFound,
    LinkFailed { message: String },
}

pub open spec fn codegen_error_text(e: CodegenError) -> Seq<char> {
    match e {
        CodegenError::BackendError(detail) => "Cranelift codegen error: "@ + detail@,
    }
}

pub open spec fn linker_error_text(e: LinkerError) -> Seq<char> {
    match e {
        LinkerError::LinkerNotFound => "Linker executable not found. Ensure rust-lld.exe or MSVC link.exe is available."@,
        LinkerError::WindowsSdkNotFound => "Windows SDK / kernel32.lib not found."@,
        LinkerError::LinkFailed { message } => "Linking failed: "@ + message@,
    }
}

impl CodegenError {
    /// The message the error is reported with.
    pub fn message(&self) -> (s: String)
        ensures
            s@ == codegen_error_text(*self),
    {
        match self {
            CodegenError::BackendError(detail) => {
                let mut s = String::from_str("Cranelift codegen error: ");
                s.append(detail.as_str());
                s
            },
        }
    }
}

impl LinkerError {
    /// The message the error is reported with.
    pub fn message(&self) -> (s: String)
        ensures
            s@ == linker_error_text(*self),
    {
        match self {
            LinkerError::LinkerNotFound => String::from_str(
                "Linker executable not found. Ensure rust-lld.exe or MSVC link.exe is available.",
            ),
            LinkerError::WindowsSdkNotFound => String::from_str("Windows SDK / kernel32.lib not found."),
            LinkerError::LinkFailed { message } => {
                let mut s = String::from_str("Linking failed: ");
                s.append(message.as_str());
                s
            },
        }
    }
}

} // verus!
