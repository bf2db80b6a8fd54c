use cdm_linker::target::{target, Endian, LinkerFlavor, PanicStrategy, RelocModel};

#[test]
fn cdm_target_description() {
    let t = target();
    assert_eq!(
        t.data_layout,
        "e-S16-p:16:16-i8:8-i16:16-i32:16-i64:16-f16:16-f32:16-f64:16-f128:16-m:C-n16"
    );
    assert_eq!(t.llvm_target, "cdm-unknown-unknown");
    assert_eq!(t.metadata.description.as_deref(), Some("CdM-16"));
    assert_eq!(t.metadata.tier, Some(3));
    assert_eq!(t.metadata.host_tools, Some(false));
    assert_eq!(t.metadata.std, Some(false));
    assert_eq!(t.pointer_width, 16);
    assert_eq!(t.arch, "cdm");
    assert_eq!(t.options.endian, Endian::Little);
    assert_eq!(t.options.cpu, "cdm");
    assert_eq!(t.options.c_int_width, 16);
    assert_eq!(t.options.max_atomic_width, Some(0));
    assert_eq!(t.options.panic_strategy, PanicStrategy::Abort);
    assert_eq!(t.options.relocation_model, RelocModel::Static);
    assert!(!t.options.eh_frame_header);
    assert!(!t.options.allow_asm);
    assert!(t.options.obj_is_bitcode);
    assert!(t.options.dynamic_linking);
    assert!(t.options.only_cdylib);
    assert_eq!(t.options.linker_flavor, LinkerFlavor::Llbc);
    assert_eq!(t.options.linker.as_deref(), Some("cdm-linker"));
    assert_eq!(t.options.dll_suffix, ".o");
}
