//! The linker session: which input files go through which tool, where the
//! intermediate files are put, and the command lines of `llc` and `cocas`.
use vstd::prelude::*;
use crate::hashing::{
    base64_url_safe_no_pad, encode_base64_url_safe_no_pad, is_url_safe_base64_char,
    sip_hash_128, stable_sip_hash_128,
};
use crate::optimization::{optimization_name, Optimization};
use crate::out_type::OutputType;
use crate::path::{
    extension, file_name, join, path_extension, path_file_name, path_join, path_with_extension,
    with_extension,
};
use crate::string_utils::{indented, Indent};
use crate::text::{ascii_lower, eq_ignore_ascii_case, str_eq_ignore_ascii_case};
use crate::tool_output::{ansi_stripped, string_from_utf8, strip_ansi};
use vstd::utf8::{valid_utf8, encode_utf8, decode_utf8};

verus! {

/// The byte `k` (0 for the least significant) of `x`.
pub open spec fn le_byte(x: u64, k: u64) -> u8 {
    ((x >> (8 * k)) & 0xff) as u8
}

/// The 16 bytes made of a stable hash: the little-endian bytes of the first
/// word, twice.
pub open spec fn hash128_bytes(hash: (u64, u64)) -> Seq<u8> {
    Seq::new(16, |i: int| le_byte(hash.0, (i % 8) as u64))
}

/// A 128-bit digest of a path, used to tell intermediate files apart.
pub struct Hash128(pub [u8; 16]);

impl Hash128 {
    /// Builds the digest from the two words of a stable hash: both halves are
    /// the little-endian bytes of the first word; the second word is not used.
    pub fn from(hash: (u64, u64)) -> (r: Hash128)
        ensures
            r.0@ == hash128_bytes(hash),
    {
        let mut res: [u8; 16] = [0; 16];
        let word = hash.0;
        let mut k: usize = 0;
        while k < 8
            invariant
                k <= 8,
                res@.len() == 16,
                word == hash.0,
                forall|i: int| 0 <= i < k ==> #[trigger] res@[i] == le_byte(word, i as u64),
                forall|i: int| 0 <= i < k ==> #[trigger] res@[i + 8] == le_byte(word, i as u64),
            decreases 8 - k,
        {
            let shift = (8 * k) as u64;
            let b = ((word >> shift) & 0xff) as u8;
            assert(b == le_byte(word, k as u64));
            res[k] = b;
            res[k + 8] = b;
            k = k + 1;
        }
        assert forall|i: int| 0 <= i < 16 implies res@[i] == le_byte(word, (i % 8) as u64) by {
            if i >= 8 {
                assert(res@[(i - 8) + 8] == le_byte(word, (i - 8) as u64));
            }
        }
        assert(res@ =~= hash128_bytes(hash));
        Hash128(res)
    }
}

/// The URL-safe Base64 text of the digest of the path `p`, taken over the
/// whole path as UTF-8.
pub open spec fn digest_text(p: Seq<char>) -> Seq<char> {
    base64_url_safe_no_pad(hash128_bytes(sip_hash_128(encode_utf8(p))))
}

/// The name of the intermediate file made from `in_file` with the extension
/// `ext`: the input's file name, the Base64 text of its hash and `ext`,
/// separated by dots.
pub open spec fn artifact_name(in_file: Seq<char>, ext: Seq<char>) -> Seq<char> {
    let name = match file_name(in_file) {
        Some(n) => n,
        None => seq![],
    };
    name + seq!['.'] + digest_text(in_file) + seq!['.'] + ext
}

/// The path of that intermediate file inside `build_dir`.
pub open spec fn artifact_path(build_dir: Seq<char>, in_file: Seq<char>, ext: Seq<char>) -> Seq<char> {
    join(build_dir, artifact_name(in_file, ext))
}

/// The tool that an input file goes through first.
#[derive(Debug, Clone, Copy, PartialEq, Eq, Structural)]
pub enum FileKind {
    /// CdM-16 assembly, assembled by `cocas`.
    Assembly,
    /// CdM-16 object, handed to the final `cocas` link.
    Object,
    /// Archive whose members are LLVM bitcode.
    Archive,
    /// LLVM bitcode, compiled by `llc`.
    Bitcode,
}

/// The kind of a file, by its extension in any ASCII case: `s` and `asm` are
/// assembly, `obj` and `lib` objects, `rlib` and `a` archives, anything else
/// (or no extension) bitcode.
pub open spec fn file_kind(p: Seq<char>) -> FileKind {
    match extension(p) {
        Some(e) => if eq_ignore_ascii_case(e, "s"@) || eq_ignore_ascii_case(e, "asm"@) {
            FileKind::Assembly
        } else if eq_ignore_ascii_case(e, "obj"@) || eq_ignore_ascii_case(e, "lib"@) {
            FileKind::Object
        } else if eq_ignore_ascii_case(e, "rlib"@) || eq_ignore_ascii_case(e, "a"@) {
            FileKind::Archive
        } else {
            FileKind::Bitcode
        },
        None => FileKind::Bitcode,
    }
}

/// The kind of the file at `path` (see `file_kind`).
pub fn file_kind_of(path: &str) -> (k: FileKind)
    ensures
        k == file_kind(path@),
{
    match path_extension(path) {
        Some(ext) => {
            let e = ext.as_str();
            if str_eq_ignore_ascii_case(e, "s") || str_eq_ignore_ascii_case(e, "asm") {
                FileKind::Assembly
            } else if str_eq_ignore_ascii_case(e, "obj") || str_eq_ignore_ascii_case(e, "lib") {
                FileKind::Object
            } else if str_eq_ignore_ascii_case(e, "rlib") || str_eq_ignore_ascii_case(e, "a") {
                FileKind::Archive
            } else {
                FileKind::Bitcode
            }
        },
        None => FileKind::Bitcode,
    }
}

/// What a session holds.
pub struct SessionView {
    pub out_type: OutputType,
    pub archive_files: Seq<Seq<char>>,
    pub bitcode_files: Seq<Seq<char>>,
    pub assembly_files: Seq<Seq<char>>,
    pub object_files: Seq<Seq<char>>,
    pub out_file: Seq<char>,
    pub build_dir: Seq<char>,
}

impl SessionView {
    /// The session with `p` added to the list of its kind.
    pub open spec fn with_file(self, p: Seq<char>) -> SessionView {
        match file_kind(p) {
            FileKind::Assembly => SessionView { assembly_files: self.assembly_files.push(p), ..self },
            FileKind::Object => SessionView { object_files: self.object_files.push(p), ..self },
            FileKind::Archive => SessionView { archive_files: self.archive_files.push(p), ..self },
            FileKind::Bitcode => SessionView { bitcode_files: self.bitcode_files.push(p), ..self },
        }
    }

    /// Number of input files.
    pub open spec fn input_count(self) -> nat {
        self.archive_files.len() + self.bitcode_files.len() + self.assembly_files.len()
            + self.object_files.len()
    }
}

/// The directory for intermediate files of the output `out_file`.
pub open spec fn build_dir_for(out_file: Seq<char>) -> Seq<char> {
    with_extension(out_file, "cdm.build"@)
}

/// A link of input files into one output file.
#[derive(Debug)]
pub struct Session {
    /// Output file type
    out_type: OutputType,
    /// Archives to extract bitcode from
    archive_files: Vec<String>,
    /// LLVM bitcode files to pass to `llc`
    bitcode_files: Vec<String>,
    /// Assembly files to pass to `cocas`
    assembly_files: Vec<String>,
    /// Object files to pass to `cocas`
    object_files: Vec<String>,
    /// Output file path
    out_file: String,
    /// Directory for intermediate build files
    build_dir: String,
}

impl View for Session {
    type V = SessionView;

    closed spec fn view(&self) -> SessionView {
        SessionView {
            out_type: self.out_type,
            archive_files: self.archive_files.deep_view(),
            bitcode_files: self.bitcode_files.deep_view(),
            assembly_files: self.assembly_files.deep_view(),
            object_files: self.object_files.deep_view(),
            out_file: self.out_file@,
            build_dir: self.build_dir@,
        }
    }
}

/// Options for compiling bitcode.
pub struct CompilationOptions {
    opt_level: Optimization,
}

impl View for CompilationOptions {
    type V = Optimization;

    closed spec fn view(&self) -> Optimization {
        self.opt_level
    }
}

impl CompilationOptions {
    pub fn new(opt_level: Optimization) -> (r: Self)
        ensures
            r@ == opt_level,
    {
        CompilationOptions { opt_level }
    }
}


impl Session {
    /// A session that links into `out_file`; its intermediate files go to
    /// `out_file` with the extension `cdm.build`.
    pub fn new(out_file: String, out_type: OutputType) -> (r: Session)
        ensures
            r@ == (SessionView {
                out_type,
                archive_files: seq![],
                bitcode_files: seq![],
                assembly_files: seq![],
                object_files: seq![],
                out_file: out_file@,
                build_dir: build_dir_for(out_file@),
            }),
    {
        let build_dir = path_with_extension(out_file.as_str(), "cdm.build");
        let r = Session {
            out_type,
            archive_files: Vec::new(),
            bitcode_files: Vec::new(),
            assembly_files: Vec::new(),
            object_files: Vec::new(),
            out_file,
            build_dir,
        };
        assert(r.archive_files.deep_view() =~= seq![]);
        assert(r.bitcode_files.deep_view() =~= seq![]);
        assert(r.assembly_files.deep_view() =~= seq![]);
        assert(r.object_files.deep_view() =~= seq![]);
        r
    }

    /// Adds a file to link, to the list that its extension selects.
    pub fn add_file(&mut self, path: String)
        ensures
            final(self)@ == old(self)@.with_file(path@),
    {
        let ghost p = path@;
        match file_kind_of(path.as_str()) {
            FileKind::Assembly => {
                self.assembly_files.push(path);
                assert(self.assembly_files.deep_view() =~= old(self)@.assembly_files.push(p));
            },
            FileKind::Object => {
                self.object_files.push(path);
                assert(self.object_files.deep_view() =~= old(self)@.object_files.push(p));
            },
            FileKind::Archive => {
                self.archive_files.push(path);
                assert(self.archive_files.deep_view() =~= old(self)@.archive_files.push(p));
            },
            FileKind::Bitcode => {
                self.bitcode_files.push(path);
                assert(self.bitcode_files.deep_view() =~= old(self)@.bitcode_files.push(p));
            },
        }
    }

    /// The directory that holds intermediate files.
    pub fn build_dir(&self) -> (r: &String)
        ensures
            r@ == self@.build_dir,
    {
        &self.build_dir
    }

    /// The archives to extract.
    pub fn archive_files(&self) -> (r: &Vec<String>)
        ensures
            r.deep_view() == self@.archive_files,
    {
        &self.archive_files
    }

    /// Path of the intermediate file made from `in_file` with the extension `ext`.
    pub fn out_file_name(&self, in_file: &str, ext: &str) -> (r: String)
        ensures
            r@ == artifact_path(self@.build_dir, in_file@, ext@),
            ({
                let hash = base64_url_safe_no_pad(hash128_bytes(sip_hash_128(encode_utf8(in_file@))));
                &&& hash.len() == 22
                &&& forall|i: int| 0 <= i < hash.len() ==> is_url_safe_base64_char(#[trigger] hash[i])
            }),
            (forall|i: int| 0 <= i < ext@.len() ==> ext@[i] != '/') ==> {
                &&& forall|i: int|
                    0 <= i < artifact_name(in_file@, ext@).len() ==> artifact_name(in_file@, ext@)[i]
                        != '/'
                &&& r@ == if self@.build_dir.len() > 0 && self@.build_dir.last() != '/' {
                    self@.build_dir + seq!['/'] + artifact_name(in_file@, ext@)
                } else {
                    self@.build_dir + artifact_name(in_file@, ext@)
                }
            },
    {
        let hash = Hash128::from(stable_sip_hash_128(in_file.as_bytes()));
        let string_hash = encode_base64_url_safe_no_pad(hash.0.as_slice());
        let mut out_string = String::new();
        let name = path_file_name(in_file);
        match &name {
            Some(n) => out_string.append(n.as_str()),
            None => {},
        }
        out_string.append(".");
        out_string.append(string_hash.as_str());
        out_string.append(".");
        out_string.append(ext);
        proof {
            reveal_strlit(".");
            assert(out_string@ =~= artifact_name(in_file@, ext@));
            if forall|i: int| 0 <= i < ext@.len() ==> ext@[i] != '/' {
                lemma_artifact_name_has_no_separator(in_file@, ext@);
                lemma_artifact_in_build_dir(self@.build_dir, in_file@, ext@);
            }
        }
        path_join(self.build_dir.as_str(), out_string.as_str())
    }
}

/// One tool run: `input` is turned into `output`.
pub struct BuildStep {
    pub input: String,
    pub output: String,
}

/// The tool runs of a link, in order: `llc` on every bitcode file, `cocas`
/// on every assembly file, then one `cocas` link of `link`.
pub struct RunPlan {
    pub compile: Vec<BuildStep>,
    pub assemble: Vec<BuildStep>,
    pub link: Vec<String>,
}

/// `steps` turn the `inputs`, in order, into intermediate files of `build_dir`
/// with the extension `ext`.
pub open spec fn steps_for(
    steps: Seq<BuildStep>,
    inputs: Seq<Seq<char>>,
    build_dir: Seq<char>,
    ext: Seq<char>,
) -> bool {
    &&& steps.len() == inputs.len()
    &&& forall|i: int|
        0 <= i < steps.len() ==> {
            &&& (#[trigger] steps[i]).input@ == inputs[i]
            &&& steps[i].output@ == artifact_path(build_dir, inputs[i], ext)
        }
}

/// The outputs of `steps`.
pub open spec fn outputs_of(steps: Seq<BuildStep>) -> Seq<Seq<char>> {
    steps.map_values(|s: BuildStep| s.output@)
}

/// The plan of a session whose archives held the bitcode members `extracted`.
pub open spec fn is_run_plan(s: SessionView, extracted: Seq<Seq<char>>, p: RunPlan) -> bool {
    &&& steps_for(p.compile@, s.bitcode_files + extracted, s.build_dir, "asm"@)
    &&& steps_for(p.assemble@, s.assembly_files + outputs_of(p.compile@), s.build_dir, "obj"@)
    &&& p.link.deep_view() == s.object_files + outputs_of(p.assemble@)
}

/// Why a link cannot go on.
#[derive(Debug, Clone, Copy, PartialEq, Eq, Structural)]
pub enum LinkError {
    /// The name of an archive member is not UTF-8.
    InvalidMemberName,
}

/// Where the member of an archive named by `identifier` is extracted to,
/// within `content_dir`: `None` for a member with an extension other than `o`
/// (in any ASCII case).
pub open spec fn member_destination(content_dir: Seq<char>, identifier: Seq<u8>) -> Result<
    Option<Seq<char>>,
    LinkError,
> {
    if !valid_utf8(identifier) {
        Err(LinkError::InvalidMemberName)
    } else {
        let name = decode_utf8(identifier);
        match extension(name) {
            Some(e) => if eq_ignore_ascii_case(e, "o"@) {
                Ok(Some(join(content_dir, name)))
            } else {
                Ok(None)
            },
            None => Ok(Some(join(content_dir, name))),
        }
    }
}

/// Appends to `steps` one step per input, in order, each with an output of
/// extension `ext` in `build_dir`.
fn push_steps(session: &Session, steps: &mut Vec<BuildStep>, inputs: &Vec<String>, ext: &str)
    ensures
        final(steps)@.len() == old(steps)@.len() + inputs@.len(),
        forall|i: int| 0 <= i < old(steps)@.len() ==> final(steps)@[i] == old(steps)@[i],
        steps_for(
            final(steps)@.subrange(old(steps)@.len() as int, final(steps)@.len() as int),
            inputs.deep_view(),
            session@.build_dir,
            ext@,
        ),
{
    let ghost start = steps@.len();
    let mut i: usize = 0;
    while i < inputs.len()
        invariant
            i <= inputs.len(),
            steps@.len() == start + i,
            start == old(steps)@.len(),
            forall|j: int| 0 <= j < start ==> steps@[j] == old(steps)@[j],
            forall|j: int|
                0 <= j < i ==> {
                    &&& (#[trigger] steps@[start + j]).input@ == inputs@[j]@
                    &&& steps@[start + j].output@ == artifact_path(
                        session@.build_dir,
                        inputs@[j]@,
                        ext@,
                    )
                },
        decreases inputs.len() - i,
    {
        let input = &inputs[i];
        let output = session.out_file_name(input.as_str(), ext);
        steps.push(BuildStep { input: input.clone(), output });
        i = i + 1;
    }
    let ghost added = steps@.subrange(start as int, steps@.len() as int);
    assert forall|j: int| 0 <= j < added.len() implies {
        &&& (#[trigger] added[j]).input@ == inputs.deep_view()[j]
        &&& added[j].output@ == artifact_path(session@.build_dir, inputs.deep_view()[j], ext@)
    } by {
        assert(added[j] == steps@[start + j]);
    }
}

/// The outputs of `steps`.
fn collect_outputs(steps: &Vec<BuildStep>) -> (r: Vec<String>)
    ensures
        r.deep_view() == outputs_of(steps@),
{
    let mut r: Vec<String> = Vec::new();
    let mut i: usize = 0;
    while i < steps.len()
        invariant
            i <= steps.len(),
            r.deep_view() =~= outputs_of(steps@).take(i as int),
        decreases steps.len() - i,
    {
        let ghost prev = r.deep_view();
        r.push(steps[i].output.clone());
        assert(r.deep_view() =~= prev.push(steps@[i as int].output@));
        assert(outputs_of(steps@).take(i + 1) =~= outputs_of(steps@).take(i as int).push(
            steps@[i as int].output@,
        ));
        i = i + 1;
    }
    assert(outputs_of(steps@).take(i as int) =~= outputs_of(steps@));
    r
}

/// `a` followed by `b`.
fn concat_strings(a: &Vec<String>, b: &Vec<String>) -> (r: Vec<String>)
    ensures
        r.deep_view() == a.deep_view() + b.deep_view(),
{
    let mut r: Vec<String> = Vec::new();
    let mut i: usize = 0;
    while i < a.len()
        invariant
            i <= a.len(),
            r.deep_view() =~= a.deep_view().take(i as int),
        decreases a.len() - i,
    {
        let ghost prev = r.deep_view();
        r.push(a[i].clone());
        assert(r.deep_view() =~= prev.push(a@[i as int]@));
        assert(a.deep_view().take(i + 1) =~= a.deep_view().take(i as int).push(a@[i as int]@));
        i = i + 1;
    }
    let mut j: usize = 0;
    while j < b.len()
        invariant
            j <= b.len(),
            r.deep_view() =~= a.deep_view() + b.deep_view().take(j as int),
        decreases b.len() - j,
    {
        let ghost prev = r.deep_view();
        r.push(b[j].clone());
        assert(r.deep_view() =~= prev.push(b@[j as int]@));
        assert(b.deep_view().take(j + 1) =~= b.deep_view().take(j as int).push(b@[j as int]@));
        j = j + 1;
    }
    assert(b.deep_view().take(j as int) =~= b.deep_view());
    r
}

proof fn lemma_steps_concat(
    s1: Seq<BuildStep>,
    s2: Seq<BuildStep>,
    in1: Seq<Seq<char>>,
    in2: Seq<Seq<char>>,
    build_dir: Seq<char>,
    ext: Seq<char>,
)
    requires
        steps_for(s1, in1, build_dir, ext),
        steps_for(s2, in2, build_dir, ext),
    ensures
        steps_for(s1 + s2, in1 + in2, build_dir, ext),
{
    assert forall|i: int| 0 <= i < (s1 + s2).len() implies {
        &&& (#[trigger] (s1 + s2)[i]).input@ == (in1 + in2)[i]
        &&& (s1 + s2)[i].output@ == artifact_path(build_dir, (in1 + in2)[i], ext)
    } by {
        if i >= s1.len() {
            assert(s2[i - s1.len()] == (s1 + s2)[i]);
        } else {
            assert(s1[i] == (s1 + s2)[i]);
        }
    }
}

/// Builds the steps of `inputs1` then `inputs2`.
fn steps_of_two(
    session: &Session,
    inputs1: &Vec<String>,
    inputs2: &Vec<String>,
    ext: &str,
) -> (r: Vec<BuildStep>)
    ensures
        steps_for(r@, inputs1.deep_view() + inputs2.deep_view(), session@.build_dir, ext@),
{
    let mut steps: Vec<BuildStep> = Vec::new();
    push_steps(session, &mut steps, inputs1, ext);
    let ghost first = steps@;
    push_steps(session, &mut steps, inputs2, ext);
    proof {
        assert(first.subrange(0, first.len() as int) =~= first);
        assert(steps@.subrange(0, first.len() as int) =~= first);
        assert(steps@ =~= first + steps@.subrange(first.len() as int, steps@.len() as int));
        lemma_steps_concat(
            first,
            steps@.subrange(first.len() as int, steps@.len() as int),
            inputs1.deep_view(),
            inputs2.deep_view(),
            session@.build_dir,
            ext@,
        );
    }
    steps
}

impl Session {
    /// The directory that the members of `archive` are extracted to.
    pub fn extraction_dir(&self, archive: &str) -> (r: String)
        ensures
            r@ == artifact_path(self@.build_dir, archive@, "x"@),
    {
        self.out_file_name(archive, "x")
    }

    /// The tool runs of the link, once the archives have been extracted to the
    /// bitcode files `extracted`: every bitcode file of the session, then every
    /// extracted one, is compiled to assembly; every assembly file of the
    /// session, then every compiled one, is assembled; the objects of the
    /// session, then the assembled ones, are linked.
    pub fn plan_run(&self, extracted: &Vec<String>) -> (p: RunPlan)
        ensures
            is_run_plan(self@, extracted.deep_view(), p),
    {
        let compile = steps_of_two(self, &self.bitcode_files, extracted, "asm");
        let compiled = collect_outputs(&compile);
        let assemble = steps_of_two(self, &self.assembly_files, &compiled, "obj");
        let assembled = collect_outputs(&assemble);
        let link = concat_strings(&self.object_files, &assembled);
        RunPlan { compile, assemble, link }
    }

    /// The arguments of the final `cocas` run, which links `objects` into the
    /// output file (`-m` asks for an object file rather than an image).
    pub fn link_arguments(&self, objects: &Vec<String>) -> (r: Vec<String>)
        ensures
            r.deep_view() == seq!["-o"@, self@.out_file] + (if self@.out_type == OutputType::Object {
                seq!["-m"@]
            } else {
                seq![]
            }) + objects.deep_view(),
    {
        let mut head: Vec<String> = Vec::new();
        head.push(String::from_str("-o"));
        head.push(self.out_file.clone());
        if self.out_type == OutputType::Object {
            head.push(String::from_str("-m"));
        }
        let r = concat_strings(&head, objects);
        assert(head.deep_view() =~= seq!["-o"@, self@.out_file] + (if self@.out_type
            == OutputType::Object {
            seq!["-m"@]
        } else {
            seq![]
        }));
        r
    }
}

/// The arguments of the `llc` run of `step`.
pub fn llc_arguments(options: &CompilationOptions, step: &BuildStep) -> (r: Vec<String>)
    ensures
        r.deep_view() == seq![
            seq!['-'] + optimization_name(options@),
            "-o"@,
            step.output@,
            step.input@,
        ],
{
    let mut flag = String::from_str("-");
    let level = options.opt_level.to_string();
    flag.append(level.as_str());
    proof {
        reveal_strlit("-");
        assert("-"@ =~= seq!['-']);
        assert(flag@ =~= seq!['-'] + optimization_name(options@));
    }
    let mut r: Vec<String> = Vec::new();
    r.push(flag);
    r.push(String::from_str("-o"));
    r.push(step.output.clone());
    r.push(step.input.clone());
    assert(r.deep_view() =~= seq![
        seq!['-'] + optimization_name(options@),
        "-o"@,
        step.output@,
        step.input@,
    ]);
    r
}

/// The arguments of the `cocas` run that assembles `step`.
pub fn assemble_arguments(step: &BuildStep) -> (r: Vec<String>)
    ensures
        r.deep_view() == seq!["-o"@, step.output@, "-c"@, step.input@],
{
    let mut r: Vec<String> = Vec::new();
    r.push(String::from_str("-o"));
    r.push(step.output.clone());
    r.push(String::from_str("-c"));
    r.push(step.input.clone());
    assert(r.deep_view() =~= seq!["-o"@, step.output@, "-c"@, step.input@]);
    r
}

/// Where the archive member named by `identifier` is extracted to in
/// `content_dir` (see `member_destination`).
pub fn member_destination_of(content_dir: &str, identifier: &[u8]) -> (r: Result<
    Option<String>,
    LinkError,
>)
    ensures
        match (r, member_destination(content_dir@, identifier@)) {
            (Ok(Some(p)), Ok(Some(q))) => p@ == q,
            (Ok(None), Ok(None)) => true,
            (Err(e), Err(f)) => e == f,
            _ => false,
        },
{
    let mut bytes: Vec<u8> = Vec::new();
    let mut i: usize = 0;
    while i < identifier.len()
        invariant
            i <= identifier.len(),
            bytes@ =~= identifier@.take(i as int),
        decreases identifier.len() - i,
    {
        bytes.push(identifier[i]);
        i = i + 1;
        assert(bytes@ =~= identifier@.take(i as int));
    }
    assert(identifier@.take(i as int) =~= identifier@);
    match string_from_utf8(bytes) {
        None => Err(LinkError::InvalidMemberName),
        Some(name) => {
            proof {
                vstd::utf8::encode_utf8_decode_utf8(name@);
            }
            match path_extension(name.as_str()) {
                Some(ext) => if str_eq_ignore_ascii_case(ext.as_str(), "o") {
                    Ok(Some(path_join(content_dir, name.as_str())))
                } else {
                    Ok(None)
                },
                None => Ok(Some(path_join(content_dir, name.as_str()))),
            }
        },
    }
}

/// The error output of a tool made readable: ANSI escapes removed and every
/// line indented by four spaces.
pub fn tool_stderr_report(stderr: &[u8]) -> (r: String)
    ensures
        valid_utf8(ansi_stripped(stderr@)),
        r@ == indented(decode_utf8(ansi_stripped(stderr@)), 4),
{
    let stripped = strip_ansi(stderr);
    match string_from_utf8(stripped) {
        Some(text) => {
            proof {
                vstd::utf8::encode_utf8_decode_utf8(text@);
            }
            text.as_str().indent_lines(4)
        },
        None => {
            proof {
                assert(false);
            }
            String::new()
        },
    }
}

/// Whether an output whose modification time is `out_modified` is up to date
/// with an input modified at `in_modified` (times in nanoseconds from the Unix
/// epoch; `None` where the time could not be read): both times are known and
/// the output is not older.
pub fn is_up_to_date(in_modified: Option<i128>, out_modified: Option<i128>) -> (r: bool)
    ensures
        r == (in_modified matches Some(i) && out_modified matches Some(o) && o >= i),
{
    match (in_modified, out_modified) {
        (Some(i), Some(o)) => o >= i,
        _ => false,
    }
}

/// The `cocas` executable: the value of the `COCAS` variable when it is set,
/// otherwise `cocas`.
pub fn cocas_program(var: Option<String>) -> (r: String)
    ensures
        r@ == match var {
            Some(v) => v@,
            None => "cocas"@,
        },
{
    match var {
        Some(v) => v,
        None => String::from_str("cocas"),
    }
}

/// Adding a file puts it, last, into exactly one list of the session and
/// leaves the other lists, the output and the build directory as they were.
pub proof fn lemma_add_file_places_once(s: SessionView, p: Seq<char>)
    ensures
        s.with_file(p).input_count() == s.input_count() + 1,
        s.with_file(p).out_type == s.out_type,
        s.with_file(p).out_file == s.out_file,
        s.with_file(p).build_dir == s.build_dir,
        match file_kind(p) {
            FileKind::Assembly => s.with_file(p).assembly_files == s.assembly_files.push(p),
            FileKind::Object => s.with_file(p).object_files == s.object_files.push(p),
            FileKind::Archive => s.with_file(p).archive_files == s.archive_files.push(p),
            FileKind::Bitcode => s.with_file(p).bitcode_files == s.bitcode_files.push(p),
        },
{
}

/// Every object, assembly, bitcode and extracted file of a run reaches the
/// final link exactly once, objects first, then in the order of the plan.
pub proof fn lemma_run_plan_links_every_input(s: SessionView, extracted: Seq<Seq<char>>, p: RunPlan)
    requires
        is_run_plan(s, extracted, p),
    ensures
        p.link.deep_view().len() == s.object_files.len() + s.assembly_files.len()
            + s.bitcode_files.len() + extracted.len(),
        p.link.deep_view().subrange(0, s.object_files.len() as int) == s.object_files,
        forall|i: int|
            0 <= i < p.assemble@.len() ==> #[trigger] p.link.deep_view()[s.object_files.len() + i]
                == p.assemble@[i].output@,
{
    let objs = s.object_files;
    let outs = outputs_of(p.assemble@);
    assert(p.link.deep_view().subrange(0, objs.len() as int) =~= objs);
    assert forall|i: int| 0 <= i < p.assemble@.len() implies #[trigger] p.link.deep_view()[objs.len()
        + i] == p.assemble@[i].output@ by {
        assert((objs + outs)[objs.len() + i] == outs[i]);
    }
}

/// The final component of a path holds no separator.
proof fn lemma_file_name_has_no_separator(p: Seq<char>)
    ensures
        file_name(p) matches Some(n) ==> forall|i: int| 0 <= i < n.len() ==> n[i] != '/',
{
    let t = crate::path::trim_end(p);
    crate::path::lemma_last_index_of_bounds(t, '/');
    if let Some(n) = file_name(p) {
        assert forall|i: int| 0 <= i < n.len() implies n[i] != '/' by {
            assert(n[i] == t[crate::path::name_start(p) + i]);
        }
    }
}

/// The name of an intermediate file never starts with a separator and ends in
/// `.` and the extension.
proof fn lemma_artifact_name_shape(in_file: Seq<char>, ext: Seq<char>)
    ensures
        ({
            let name = artifact_name(in_file, ext);
            &&& name.len() > ext.len()
            &&& name[0] != '/'
            &&& name.subrange(name.len() - ext.len() - 1, name.len() as int) == seq!['.'] + ext
        }),
{
    let name = artifact_name(in_file, ext);
    let n = match file_name(in_file) {
        Some(n) => n,
        None => seq![],
    };
    let hash = base64_url_safe_no_pad(hash128_bytes(sip_hash_128(encode_utf8(in_file))));
    lemma_file_name_has_no_separator(in_file);
    assert(name =~= n + seq!['.'] + hash + seq!['.'] + ext);
    if n.len() > 0 {
        assert(name[0] == n[0]);
    } else {
        assert(name[0] == '.');
    }
    assert(name.subrange(name.len() - ext.len() - 1, name.len() as int) =~= seq!['.'] + ext);
}

/// An intermediate file is an entry of the build directory: its path is the
/// build directory, a separator unless the directory is empty or already ends
/// in one, and a name that ends in `.` and the extension.
pub proof fn lemma_artifact_in_build_dir(build_dir: Seq<char>, in_file: Seq<char>, ext: Seq<char>)
    ensures
        ({
            let name = artifact_name(in_file, ext);
            &&& name.subrange(name.len() - ext.len() - 1, name.len() as int) == seq!['.'] + ext
            &&& artifact_path(build_dir, in_file, ext) == if build_dir.len() > 0
                && build_dir.last() != '/' {
                build_dir + seq!['/'] + name
            } else {
                build_dir + name
            }
        }),
{
    lemma_artifact_name_shape(in_file, ext);
}

/// The intermediate files of one input for two different extensions are
/// different files.
pub proof fn lemma_artifact_paths_differ_by_extension(
    build_dir: Seq<char>,
    in_file: Seq<char>,
    ext1: Seq<char>,
    ext2: Seq<char>,
)
    requires
        ext1 != ext2,
    ensures
        artifact_path(build_dir, in_file, ext1) != artifact_path(build_dir, in_file, ext2),
{
    lemma_artifact_name_shape(in_file, ext1);
    lemma_artifact_name_shape(in_file, ext2);
    let n1 = artifact_name(in_file, ext1);
    let n2 = artifact_name(in_file, ext2);
    let n = match file_name(in_file) {
        Some(n) => n,
        None => seq![],
    };
    let hash = base64_url_safe_no_pad(hash128_bytes(sip_hash_128(encode_utf8(in_file))));
    let pre = n + seq!['.'] + hash + seq!['.'];
    assert(n1 =~= pre + ext1);
    assert(n2 =~= pre + ext2);
    if artifact_path(build_dir, in_file, ext1) == artifact_path(build_dir, in_file, ext2) {
        let head = if build_dir.len() > 0 && build_dir.last() != '/' {
            build_dir + seq!['/']
        } else {
            build_dir
        };
        assert(artifact_path(build_dir, in_file, ext1) =~= head + n1);
        assert(artifact_path(build_dir, in_file, ext2) =~= head + n2);
        assert(n1 =~= (head + n1).subrange(head.len() as int, (head + n1).len() as int));
        assert(n2 =~= (head + n2).subrange(head.len() as int, (head + n2).len() as int));
        assert(ext1 =~= n1.subrange(pre.len() as int, n1.len() as int));
        assert(ext2 =~= n2.subrange(pre.len() as int, n2.len() as int));
    }
}

/// The Base64 text of a digest holds no separator, nor does a file name, so
/// neither does the name of an intermediate file when its extension holds none.
proof fn lemma_artifact_name_has_no_separator(in_file: Seq<char>, ext: Seq<char>)
    requires
        forall|i: int| 0 <= i < ext.len() ==> ext[i] != '/',
        forall|i: int|
            0 <= i < base64_url_safe_no_pad(hash128_bytes(sip_hash_128(encode_utf8(in_file)))).len()
                ==> is_url_safe_base64_char(
                base64_url_safe_no_pad(hash128_bytes(sip_hash_128(encode_utf8(in_file))))[i],
            ),
    ensures
        forall|i: int|
            0 <= i < artifact_name(in_file, ext).len() ==> artifact_name(in_file, ext)[i] != '/',
{
    let name = artifact_name(in_file, ext);
    let n = match file_name(in_file) {
        Some(n) => n,
        None => seq![],
    };
    let hash = base64_url_safe_no_pad(hash128_bytes(sip_hash_128(encode_utf8(in_file))));
    lemma_file_name_has_no_separator(in_file);
    assert(name =~= n + seq!['.'] + hash + seq!['.'] + ext);
    assert forall|i: int| 0 <= i < name.len() implies name[i] != '/' by {
        if i < n.len() {
            assert(name[i] == n[i]);
        } else if i == n.len() {
        } else if i < n.len() + 1 + hash.len() {
            assert(name[i] == hash[i - n.len() - 1]);
            assert(is_url_safe_base64_char(hash[i - n.len() - 1]));
        } else if i == n.len() + 1 + hash.len() {
        } else {
            assert(name[i] == ext[i - n.len() - 2 - hash.len()]);
        }
    }
}

/// A file whose extension, in any ASCII case, is none of `s`, `asm`, `obj`,
/// `lib`, `rlib` and `a`, or that has no extension, is bitcode.
pub proof fn lemma_other_files_are_bitcode(p: Seq<char>)
    requires
        extension(p) matches Some(e) ==> {
            &&& !eq_ignore_ascii_case(e, "s"@)
            &&& !eq_ignore_ascii_case(e, "asm"@)
            &&& !eq_ignore_ascii_case(e, "obj"@)
            &&& !eq_ignore_ascii_case(e, "lib"@)
            &&& !eq_ignore_ascii_case(e, "rlib"@)
            &&& !eq_ignore_ascii_case(e, "a"@)
        },
    ensures
        file_kind(p) == FileKind::Bitcode,
{
}

/// A file named by a non-empty `q` that does not end in a separator,
/// followed by `.o` or `.O`, is bitcode: `rustc` writes the bitcode of this
/// target to such files.
pub proof fn lemma_dot_o_files_are_bitcode(q: Seq<char>)
    requires
        q.len() > 0,
        q.last() != '/',
    ensures
        file_kind(q + seq!['.', 'o']) == FileKind::Bitcode,
        file_kind(q + seq!['.', 'O']) == FileKind::Bitcode,
{
    reveal_strlit("s");
    reveal_strlit("asm");
    reveal_strlit("obj");
    reveal_strlit("lib");
    reveal_strlit("rlib");
    reveal_strlit("a");
    crate::path::lemma_extension_of_suffix(q, seq!['o']);
    crate::path::lemma_extension_of_suffix(q, seq!['O']);
    assert(q + seq!['.', 'o'] =~= q + seq!['.'] + seq!['o']);
    assert(q + seq!['.', 'O'] =~= q + seq!['.'] + seq!['O']);
    assert(ascii_lower('o') != ascii_lower('s'));
    assert(ascii_lower('o') != ascii_lower('a'));
    assert(ascii_lower('O') != ascii_lower('s'));
    assert(ascii_lower('O') != ascii_lower('a'));
    assert(!eq_ignore_ascii_case(seq!['o'], "s"@));
    assert(!eq_ignore_ascii_case(seq!['o'], "a"@));
    assert(!eq_ignore_ascii_case(seq!['O'], "s"@));
    assert(!eq_ignore_ascii_case(seq!['O'], "a"@));
}

/// An archive member whose UTF-8 name is a non-empty `q` that does not end in
/// a separator, followed by `.o` or `.O`, is extracted into `content_dir`
/// under its own name, however many dots `q` holds.
pub proof fn lemma_dot_o_members_extracted(content_dir: Seq<char>, identifier: Seq<u8>, q: Seq<char>)
    requires
        valid_utf8(identifier),
        decode_utf8(identifier) == q + seq!['.', 'o'] || decode_utf8(identifier) == q + seq![
            '.',
            'O',
        ],
        q.len() > 0,
        q.last() != '/',
    ensures
        member_destination(content_dir, identifier) == Ok::<Option<Seq<char>>, LinkError>(
            Some(join(content_dir, decode_utf8(identifier))),
        ),
{
    reveal_strlit("o");
    crate::path::lemma_extension_of_suffix(q, seq!['o']);
    crate::path::lemma_extension_of_suffix(q, seq!['O']);
    assert(q + seq!['.', 'o'] =~= q + seq!['.'] + seq!['o']);
    assert(q + seq!['.', 'O'] =~= q + seq!['.'] + seq!['O']);
    assert(ascii_lower('O') == ascii_lower('o'));
    assert(eq_ignore_ascii_case(seq!['o'], "o"@));
    assert(eq_ignore_ascii_case(seq!['O'], "o"@));
}

/// Intermediate files of two inputs whose digest texts differ (and have the
/// same length, as every digest text has) are different files, whatever the
/// inputs' file names are.
pub proof fn lemma_artifact_paths_differ_by_digest(
    build_dir: Seq<char>,
    in1: Seq<char>,
    in2: Seq<char>,
    ext: Seq<char>,
)
    requires
        digest_text(in1) != digest_text(in2),
        digest_text(in1).len() == digest_text(in2).len(),
    ensures
        artifact_path(build_dir, in1, ext) != artifact_path(build_dir, in2, ext),
{
    lemma_artifact_name_shape(in1, ext);
    lemma_artifact_name_shape(in2, ext);
    let n1 = artifact_name(in1, ext);
    let n2 = artifact_name(in2, ext);
    if artifact_path(build_dir, in1, ext) == artifact_path(build_dir, in2, ext) {
        let head = if build_dir.len() > 0 && build_dir.last() != '/' {
            build_dir + seq!['/']
        } else {
            build_dir
        };
        assert(artifact_path(build_dir, in1, ext) =~= head + n1);
        assert(artifact_path(build_dir, in2, ext) =~= head + n2);
        assert(n1 =~= (head + n1).subrange(head.len() as int, (head + n1).len() as int));
        assert(n2 =~= (head + n2).subrange(head.len() as int, (head + n2).len() as int));
        let f1 = match file_name(in1) {
            Some(n) => n,
            None => seq![],
        };
        let f2 = match file_name(in2) {
            Some(n) => n,
            None => seq![],
        };
        let h1 = digest_text(in1);
        let h2 = digest_text(in2);
        let tail = seq!['.'] + ext;
        assert(n1 =~= f1 + seq!['.'] + h1 + tail);
        assert(n2 =~= f2 + seq!['.'] + h2 + tail);
        let end = n1.len() - tail.len();
        assert(h1 =~= n1.subrange(end - h1.len(), end));
        assert(h2 =~= n2.subrange(end - h2.len(), end));
    }
}

/// Every tool run of a plan writes the intermediate file named after its own
/// full input path: the input's file name, the digest text of the whole input
/// path and the extension (`asm` for `llc`, `obj` for `cocas`), in the build
/// directory. So two runs whose inputs have different digest texts never write
/// the same file, even where the inputs share their file name.
pub proof fn lemma_plan_outputs_name_full_inputs(s: SessionView, extracted: Seq<Seq<char>>, p: RunPlan)
    requires
        is_run_plan(s, extracted, p),
    ensures
        p.compile@.len() == s.bitcode_files.len() + extracted.len(),
        p.assemble@.len() == s.assembly_files.len() + p.compile@.len(),
        forall|i: int|
            0 <= i < p.compile@.len() ==> {
                let x = (#[trigger] p.compile@[i]).input@;
                &&& x == (s.bitcode_files + extracted)[i]
                &&& p.compile@[i].output@ == join(
                    s.build_dir,
                    (match file_name(x) {
                        Some(n) => n,
                        None => seq![],
                    }) + seq!['.'] + digest_text(x) + seq!['.'] + "asm"@,
                )
            },
        forall|i: int|
            0 <= i < p.assemble@.len() ==> {
                let x = (#[trigger] p.assemble@[i]).input@;
                &&& x == if i < s.assembly_files.len() {
                    s.assembly_files[i]
                } else {
                    p.compile@[i - s.assembly_files.len()].output@
                }
                &&& p.assemble@[i].output@ == join(
                    s.build_dir,
                    (match file_name(x) {
                        Some(n) => n,
                        None => seq![],
                    }) + seq!['.'] + digest_text(x) + seq!['.'] + "obj"@,
                )
            },
        forall|i: int, j: int|
            0 <= i < p.compile@.len() && 0 <= j < p.compile@.len() && digest_text(
                p.compile@[i].input@,
            ) != digest_text(p.compile@[j].input@) && digest_text(p.compile@[i].input@).len()
                == digest_text(p.compile@[j].input@).len() ==> #[trigger] p.compile@[i].output@
                != #[trigger] p.compile@[j].output@,
        forall|i: int, j: int|
            0 <= i < p.assemble@.len() && 0 <= j < p.assemble@.len() && digest_text(
                p.assemble@[i].input@,
            ) != digest_text(p.assemble@[j].input@) && digest_text(p.assemble@[i].input@).len()
                == digest_text(p.assemble@[j].input@).len() ==> #[trigger] p.assemble@[i].output@
                != #[trigger] p.assemble@[j].output@,
{
    let outs = outputs_of(p.compile@);
    assert forall|i: int| 0 <= i < p.assemble@.len() implies (#[trigger] p.assemble@[i]).input@
        == if i < s.assembly_files.len() {
        s.assembly_files[i]
    } else {
        p.compile@[i - s.assembly_files.len()].output@
    } by {
        if i >= s.assembly_files.len() {
            assert((s.assembly_files + outs)[i] == outs[i - s.assembly_files.len()]);
        }
    }
    assert forall|i: int, j: int|
        0 <= i < p.compile@.len() && 0 <= j < p.compile@.len() && digest_text(
            p.compile@[i].input@,
        ) != digest_text(p.compile@[j].input@) && digest_text(p.compile@[i].input@).len()
            == digest_text(p.compile@[j].input@).len() implies #[trigger] p.compile@[i].output@
            != #[trigger] p.compile@[j].output@ by {
        lemma_artifact_paths_differ_by_digest(
            s.build_dir,
            p.compile@[i].input@,
            p.compile@[j].input@,
            "asm"@,
        );
    }
    assert forall|i: int, j: int|
        0 <= i < p.assemble@.len() && 0 <= j < p.assemble@.len() && digest_text(
            p.assemble@[i].input@,
        ) != digest_text(p.assemble@[j].input@) && digest_text(p.assemble@[i].input@).len()
            == digest_text(p.assemble@[j].input@).len() implies #[trigger] p.assemble@[i].output@
            != #[trigger] p.assemble@[j].output@ by {
        lemma_artifact_paths_differ_by_digest(
            s.build_dir,
            p.assemble@[i].input@,
            p.assemble@[j].input@,
            "obj"@,
        );
    }
}

/// Files named by a non-empty `q` that does not end in a separator, followed
/// by `.s` or `.asm` are assembly, by `.obj` or `.lib` objects, and by `.rlib`
/// or `.a` archives, in lower and in upper case alike.
pub proof fn lemma_known_extensions(q: Seq<char>)
    requires
        q.len() > 0,
        q.last() != '/',
    ensures
        file_kind(q + seq!['.', 's']) == FileKind::Assembly,
        file_kind(q + seq!['.', 'S']) == FileKind::Assembly,
        file_kind(q + seq!['.', 'a', 's', 'm']) == FileKind::Assembly,
        file_kind(q + seq!['.', 'A', 'S', 'M']) == FileKind::Assembly,
        file_kind(q + seq!['.', 'o', 'b', 'j']) == FileKind::Object,
        file_kind(q + seq!['.', 'O', 'B', 'J']) == FileKind::Object,
        file_kind(q + seq!['.', 'l', 'i', 'b']) == FileKind::Object,
        file_kind(q + seq!['.', 'L', 'I', 'B']) == FileKind::Object,
        file_kind(q + seq!['.', 'r', 'l', 'i', 'b']) == FileKind::Archive,
        file_kind(q + seq!['.', 'R', 'L', 'I', 'B']) == FileKind::Archive,
        file_kind(q + seq!['.', 'a']) == FileKind::Archive,
        file_kind(q + seq!['.', 'A']) == FileKind::Archive,
{
    reveal_strlit("s");
    reveal_strlit("asm");
    reveal_strlit("obj");
    reveal_strlit("lib");
    reveal_strlit("rlib");
    reveal_strlit("a");
    let exts = seq![
        seq!['s'],
        seq!['S'],
        seq!['a', 's', 'm'],
        seq!['A', 'S', 'M'],
        seq!['o', 'b', 'j'],
        seq!['O', 'B', 'J'],
        seq!['l', 'i', 'b'],
        seq!['L', 'I', 'B'],
        seq!['r', 'l', 'i', 'b'],
        seq!['R', 'L', 'I', 'B'],
        seq!['a'],
        seq!['A'],
    ];
    assert forall|k: int| 0 <= k < exts.len() implies extension(q + seq!['.'] + #[trigger] exts[k])
        == Some(exts[k]) by {
        crate::path::lemma_extension_of_suffix(q, exts[k]);
    }
    assert(q + seq!['.', 's'] =~= q + seq!['.'] + exts[0]);
    assert(q + seq!['.', 'S'] =~= q + seq!['.'] + exts[1]);
    assert(q + seq!['.', 'a', 's', 'm'] =~= q + seq!['.'] + exts[2]);
    assert(q + seq!['.', 'A', 'S', 'M'] =~= q + seq!['.'] + exts[3]);
    assert(q + seq!['.', 'o', 'b', 'j'] =~= q + seq!['.'] + exts[4]);
    assert(q + seq!['.', 'O', 'B', 'J'] =~= q + seq!['.'] + exts[5]);
    assert(q + seq!['.', 'l', 'i', 'b'] =~= q + seq!['.'] + exts[6]);
    assert(q + seq!['.', 'L', 'I', 'B'] =~= q + seq!['.'] + exts[7]);
    assert(q + seq!['.', 'r', 'l', 'i', 'b'] =~= q + seq!['.'] + exts[8]);
    assert(q + seq!['.', 'R', 'L', 'I', 'B'] =~= q + seq!['.'] + exts[9]);
    assert(q + seq!['.', 'a'] =~= q + seq!['.'] + exts[10]);
    assert(q + seq!['.', 'A'] =~= q + seq!['.'] + exts[11]);
    assert(eq_ignore_ascii_case(exts[0], "s"@));
    assert(eq_ignore_ascii_case(exts[1], "s"@));
    assert(eq_ignore_ascii_case(exts[2], "asm"@));
    assert(eq_ignore_ascii_case(exts[3], "asm"@));
    assert(!eq_ignore_ascii_case(exts[4], "asm"@));
    assert(!eq_ignore_ascii_case(exts[5], "asm"@));
    assert(eq_ignore_ascii_case(exts[4], "obj"@));
    assert(eq_ignore_ascii_case(exts[5], "obj"@));
    assert(!eq_ignore_ascii_case(exts[6], "asm"@));
    assert(!eq_ignore_ascii_case(exts[7], "asm"@));
    assert(!eq_ignore_ascii_case(exts[6], "obj"@));
    assert(!eq_ignore_ascii_case(exts[7], "obj"@));
    assert(eq_ignore_ascii_case(exts[6], "lib"@));
    assert(eq_ignore_ascii_case(exts[7], "lib"@));
    assert(eq_ignore_ascii_case(exts[8], "rlib"@));
    assert(eq_ignore_ascii_case(exts[9], "rlib"@));
    assert(!eq_ignore_ascii_case(exts[10], "s"@));
    assert(!eq_ignore_ascii_case(exts[11], "s"@));
    assert(eq_ignore_ascii_case(exts[10], "a"@));
    assert(eq_ignore_ascii_case(exts[11], "a"@));
}

/// An archive member whose UTF-8 name is a non-empty `q` that does not end in
/// a separator, a `.` and an extension `e` (free of separators and dots)
/// other than `o` in any ASCII case is not extracted.
pub proof fn lemma_other_members_skipped(
    content_dir: Seq<char>,
    identifier: Seq<u8>,
    q: Seq<char>,
    e: Seq<char>,
)
    requires
        valid_utf8(identifier),
        decode_utf8(identifier) == q + seq!['.'] + e,
        q.len() > 0,
        q.last() != '/',
        e.len() > 0,
        forall|i: int| 0 <= i < e.len() ==> e[i] != '/' && e[i] != '.',
        !eq_ignore_ascii_case(e, seq!['o']),
    ensures
        member_destination(content_dir, identifier) == Ok::<Option<Seq<char>>, LinkError>(None),
{
    reveal_strlit("o");
    assert("o"@ =~= seq!['o']);
    crate::path::lemma_extension_of_suffix(q, e);
}

/// An archive member whose UTF-8 name holds no `.` is extracted into
/// `content_dir` under its own name.
pub proof fn lemma_dotless_members_extracted(content_dir: Seq<char>, identifier: Seq<u8>)
    requires
        valid_utf8(identifier),
        forall|i: int|
            0 <= i < decode_utf8(identifier).len() ==> decode_utf8(identifier)[i] != '.',
    ensures
        member_destination(content_dir, identifier) == Ok::<Option<Seq<char>>, LinkError>(
            Some(join(content_dir, decode_utf8(identifier))),
        ),
{
    crate::path::lemma_no_dot_no_extension(decode_utf8(identifier));
}

} // verus!
