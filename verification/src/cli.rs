//! The command line of the linker and the session it describes.
use vstd::prelude::*;
use crate::linker::{CompilationOptions, Session, SessionView, build_dir_for};
use crate::optimization::Optimization;
use crate::out_type::OutputType;

verus! {

/// The arguments of `cdm-linker`.
pub struct Args {
    /// Input files: Rust rlibs, LLVM bitcode files, CdM-16 assembly files
    /// (`*.s`, `*.asm`) and CdM-16 object files (`*.obj`).
    pub files: Vec<String>,
    /// Input file directories.
    pub input_dir: Vec<String>,
    /// The output file.
    pub output: String,
    /// The type of the output file.
    pub output_type: OutputType,
    /// The optimization level.
    pub optimization: Optimization,
}

/// The session `s` after adding `files`, in order.
pub open spec fn with_files(s: SessionView, files: Seq<Seq<char>>) -> SessionView
    decreases files.len(),
{
    if files.len() == 0 {
        s
    } else {
        with_files(s, files.drop_last()).with_file(files.last())
    }
}

/// The empty session that links into `out_file`.
pub open spec fn new_session(out_file: Seq<char>, out_type: OutputType) -> SessionView {
    SessionView {
        out_type,
        archive_files: seq![],
        bitcode_files: seq![],
        assembly_files: seq![],
        object_files: seq![],
        out_file,
        build_dir: build_dir_for(out_file),
    }
}

/// The session and the compilation options that the command line asks for:
/// a session into the output file with every input file added in order.
pub fn session_from_args(args: Args) -> (r: (Session, CompilationOptions))
    ensures
        r.0@ == with_files(new_session(args.output@, args.output_type), args.files.deep_view()),
        r.1@ == args.optimization,
{
    let ghost files = args.files.deep_view();
    let mut session = Session::new(args.output, args.output_type);
    let ghost start = session@;
    let files_vec = args.files;
    let mut i: usize = 0;
    assert(files.take(0) =~= seq![]);
    while i < files_vec.len()
        invariant
            i <= files_vec.len(),
            files == files_vec.deep_view(),
            session@ == with_files(start, files.take(i as int)),
        decreases files_vec.len() - i,
    {
        session.add_file(files_vec[i].clone());
        assert(files.take(i + 1).drop_last() =~= files.take(i as int));
        i = i + 1;
    }
    assert(files.take(i as int) =~= files);
    (session, CompilationOptions::new(args.optimization))
}

/// Every input file on the command line is kept, in exactly one list of the
/// session.
pub proof fn lemma_every_file_kept(s: SessionView, files: Seq<Seq<char>>)
    ensures
        with_files(s, files).input_count() == s.input_count() + files.len(),
        with_files(s, files).out_file == s.out_file,
        with_files(s, files).out_type == s.out_type,
    decreases files.len(),
{
    if files.len() > 0 {
        lemma_every_file_kept(s, files.drop_last());
        crate::linker::lemma_add_file_places_once(with_files(s, files.drop_last()), files.last());
    }
}

} // verus!
