//! The entry-point dispatcher: backend list, symbol names, call planning,
//! and the superseded single-backend variant.

use rustc_llvm_proxy::init::{
    arch2backend, backend_names, dispatch_plan, get_native_arch, get_native_backend,
    initialization_symbols, symbol_name,
};

#[test]
fn backend_list_is_fixed_and_ordered() {
    let names = backend_names();
    assert_eq!(
        names,
        vec![
            "AArch64".to_owned(),
            "AMDGPU".to_owned(),
            "ARM".to_owned(),
            "BPF".to_owned(),
            "Hexagon".to_owned(),
            "Lanai".to_owned(),
            "Mips".to_owned(),
            "MSP430".to_owned(),
            "NVPTX".to_owned(),
            "PowerPC".to_owned(),
            "Sparc".to_owned(),
            "SystemZ".to_owned(),
            "X86".to_owned(),
            "XCore".to_owned(),
        ]
    );
    assert_eq!(names.len(), 14);
}

#[test]
fn symbol_names_wrap_the_backend() {
    assert_eq!(symbol_name("X86"), "LLVMInitializeX86Target");
    assert_eq!(symbol_name("AArch64"), "LLVMInitializeAArch64Target");
}

#[test]
fn initialization_symbols_follow_the_backend_order() {
    let symbols = initialization_symbols();
    let names = backend_names();
    assert_eq!(symbols.len(), names.len());
    for (s, n) in symbols.iter().zip(names.iter()) {
        assert_eq!(*s, format!("LLVMInitialize{}Target", n));
    }
    assert_eq!(symbols[12], "LLVMInitializeX86Target");
}

#[test]
fn plan_keeps_exactly_the_available_symbols_in_order() {
    let symbols = initialization_symbols();
    let mut available = vec![false; symbols.len()];
    available[0] = true; // AArch64
    available[6] = true; // Mips
    available[12] = true; // X86
    let plan = dispatch_plan(&symbols, &available);
    assert_eq!(
        plan,
        vec![
            "LLVMInitializeAArch64Target".to_owned(),
            "LLVMInitializeMipsTarget".to_owned(),
            "LLVMInitializeX86Target".to_owned(),
        ]
    );
}

#[test]
fn plan_with_nothing_available_is_empty() {
    let symbols = initialization_symbols();
    let available = vec![false; symbols.len()];
    assert_eq!(dispatch_plan(&symbols, &available), Vec::<String>::new());
}

#[test]
fn plan_with_everything_available_is_everything() {
    let symbols = initialization_symbols();
    let available = vec![true; symbols.len()];
    assert_eq!(dispatch_plan(&symbols, &available), symbols);
}

#[test]
fn native_arch_from_configuration_report() {
    let report = "debug_assertions\ntarget_arch=\"x86_64\"\ntarget_os=\"linux\"";
    assert_eq!(get_native_arch(report), "x86_64");
}

#[test]
fn native_arch_takes_the_first_target_arch_line() {
    let report = "target_arch=\"sparc\"\ntarget_arch=\"x86_64\"";
    assert_eq!(get_native_arch(report), "sparc");
}

#[test]
fn arch2backend_maps_the_known_architecture() {
    assert_eq!(arch2backend("x86_64"), "X86");
}

#[test]
fn native_backend_composes_report_and_mapping() {
    let report = "target_arch=\"x86_64\"";
    assert_eq!(get_native_backend(report), "X86");
}
