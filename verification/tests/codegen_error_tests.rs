use numlang::codegen::errors::{CodegenError, LinkerError};

#[test]
fn codegen_error_message() {
    let e = CodegenError::BackendError("bad ISA".to_string());
    assert_eq!(e.message(), "Cranelift codegen error: bad ISA");
}

#[test]
fn linker_error_messages() {
    assert_eq!(
        LinkerError::LinkerNotFound.message(),
        "Linker executable not found. Ensure rust-lld.exe or MSVC link.exe is available."
    );
    assert_eq!(LinkerError::WindowsSdkNotFound.message(), "Windows SDK / kernel32.lib not found.");
    assert_eq!(
        LinkerError::LinkFailed { message: "exit code 1".to_string() }.message(),
        "Linking failed: exit code 1"
    );
}
