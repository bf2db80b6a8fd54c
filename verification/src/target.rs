//! The `cdm-none` compiler target: the CdM-16 processor without an
//! operating system.
use vstd::prelude::*;

verus! {

/// How a panic ends.
#[derive(Debug, Clone, Copy, PartialEq, Eq, Structural)]
pub enum PanicStrategy {
    Unwind,
    Abort,
}

/// How code and data are placed in memory.
#[derive(Debug, Clone, Copy, PartialEq, Eq, Structural)]
pub enum RelocModel {
    Static,
    Pic,
    Pie,
    DynamicNoPic,
    Ropi,
    Rwpi,
    RopiRwpi,
}

/// The kind of program that links the compiled code.
#[derive(Debug, Clone, Copy, PartialEq, Eq, Structural)]
pub enum LinkerFlavor {
    Gnu,
    Darwin,
    WasmLld,
    Unix,
    Msvc,
    EmCc,
    Bpf,
    Ptx,
    /// The LLVM bitcode linker.
    Llbc,
}

/// Byte order.
#[derive(Debug, Clone, Copy, PartialEq, Eq, Structural)]
pub enum Endian {
    Little,
    Big,
}

/// What a target tells about itself.
pub struct TargetMetadata {
    pub description: Option<String>,
    pub tier: Option<u64>,
    pub host_tools: Option<bool>,
    pub std: Option<bool>,
}

/// Code generation and linking options of a target.
pub struct TargetOptions {
    pub endian: Endian,
    pub cpu: String,
    pub c_int_width: u16,
    pub max_atomic_width: Option<u64>,
    pub panic_strategy: PanicStrategy,
    pub relocation_model: RelocModel,
    pub eh_frame_header: bool,
    pub allow_asm: bool,
    pub obj_is_bitcode: bool,
    pub dynamic_linking: bool,
    pub only_cdylib: bool,
    pub linker_flavor: LinkerFlavor,
    pub linker: Option<String>,
    pub dll_suffix: String,
}

/// A compiler target.
pub struct Target {
    pub data_layout: String,
    pub llvm_target: String,
    pub metadata: TargetMetadata,
    pub pointer_width: u32,
    pub arch: String,
    pub options: TargetOptions,
}

/// The LLVM data layout of CdM-16: little endian, 16-bit stack alignment,
/// 16-bit pointers, every scalar wider than a byte aligned to 16 bits, native
/// integers of 16 bits.
pub open spec fn cdm_data_layout() -> Seq<char> {
    "e-S16-p:16:16-i8:8-i16:16-i32:16-i64:16-f16:16-f32:16-f64:16-f128:16-m:C-n16"@
}

/// Whether the data layout `l` declares little-endian byte order (a leading `e`).
pub open spec fn layout_little_endian(l: Seq<char>) -> bool {
    l.len() > 0 && l[0] == 'e'
}

/// Whether the data layout `l` declares 16-bit pointers with 16-bit alignment
/// (the `p:16:16` specification after the byte order and stack alignment).
pub open spec fn layout_pointers_16(l: Seq<char>) -> bool {
    l.len() >= 13 && l.subrange(6, 13) == "p:16:16"@
}

/// The data layout of CdM-16 declares little-endian byte order and 16-bit
/// pointers.
pub proof fn lemma_cdm_layout_little_endian_16_bit()
    ensures
        layout_little_endian(cdm_data_layout()),
        layout_pointers_16(cdm_data_layout()),
{
    reveal_strlit("e-S16-p:16:16-i8:8-i16:16-i32:16-i64:16-f16:16-f32:16-f64:16-f128:16-m:C-n16");
    reveal_strlit("p:16:16");
    assert(cdm_data_layout().subrange(6, 13) =~= "p:16:16"@);
}

/// The `cdm-none` target: a 16-bit tier 3 target without host tools or
/// `std`, whose code is emitted as LLVM bitcode and linked by `cdm-linker`.
/// Byte order is left at the default, little endian, as the data layout
/// declares.
pub fn target() -> (t: Target)
    ensures
        t.data_layout@ == cdm_data_layout(),
        t.options.endian == Endian::Little,
        layout_little_endian(t.data_layout@) <==> t.options.endian == Endian::Little,
        layout_pointers_16(t.data_layout@) && t.pointer_width == 16,
        t.llvm_target@ == "cdm-unknown-unknown"@,
        t.metadata.description matches Some(d) && d@ == "CdM-16"@,
        t.metadata.tier == Some(3u64),
        t.metadata.host_tools == Some(false),
        t.metadata.std == Some(false),
        t.pointer_width == 16,
        t.arch@ == "cdm"@,
        t.options.cpu@ == "cdm"@,
        t.options.c_int_width == 16,
        t.options.max_atomic_width == Some(0u64),
        t.options.panic_strategy == PanicStrategy::Abort,
        t.options.relocation_model == RelocModel::Static,
        !t.options.eh_frame_header,
        !t.options.allow_asm,
        t.options.obj_is_bitcode,
        t.options.dynamic_linking,
        t.options.only_cdylib,
        t.options.linker_flavor == LinkerFlavor::Llbc,
        t.options.linker matches Some(l) && l@ == "cdm-linker"@,
        t.options.dll_suffix@ == ".o"@,
{
    proof {
        lemma_cdm_layout_little_endian_16_bit();
    }
    Target {
        data_layout: String::from_str(
            "e-S16-p:16:16-i8:8-i16:16-i32:16-i64:16-f16:16-f32:16-f64:16-f128:16-m:C-n16",
        ),
        llvm_target: String::from_str("cdm-unknown-unknown"),
        metadata: TargetMetadata {
            description: Some(String::from_str("CdM-16")),
            tier: Some(3),
            host_tools: Some(false),
            std: Some(false),
        },
        pointer_width: 16,
        arch: String::from_str("cdm"),
        options: TargetOptions {
            endian: Endian::Little,
            cpu: String::from_str("cdm"),
            c_int_width: 16,
            max_atomic_width: Some(0),
            panic_strategy: PanicStrategy::Abort,
            relocation_model: RelocModel::Static,
            eh_frame_header: false,
            allow_asm: false,
            obj_is_bitcode: true,
            dynamic_linking: true,
            only_cdylib: true,
            linker_flavor: LinkerFlavor::Llbc,
            linker: Some(String::from_str("cdm-linker")),
            dll_suffix: String::from_str(".o"),
        },
    }
}

} // verus!
