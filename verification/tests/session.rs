use cdm_linker::cli::session_from_args;
use cdm_linker::linker::{
    assemble_arguments, cocas_program, file_kind_of, is_up_to_date, llc_arguments, member_destination_of,
    tool_stderr_report, BuildStep, FileKind, LinkError,
};
use cdm_linker::optimization::Optimization;
use cdm_linker::{Args, CompilationOptions, OutputType, Session};

fn strings(v: &[&str]) -> Vec<String> {
    v.iter().map(|s| s.to_string()).collect()
}

#[test]
fn file_kinds_by_extension() {
    assert_eq!(file_kind_of("main.s"), FileKind::Assembly);
    assert_eq!(file_kind_of("main.S"), FileKind::Assembly);
    assert_eq!(file_kind_of("dir/start.ASM"), FileKind::Assembly);
    assert_eq!(file_kind_of("crt.obj"), FileKind::Object);
    assert_eq!(file_kind_of("libc.LIB"), FileKind::Object);
    assert_eq!(file_kind_of("libcore-1234.rlib"), FileKind::Archive);
    assert_eq!(file_kind_of("libm.a"), FileKind::Archive);
    assert_eq!(file_kind_of("prog.bc"), FileKind::Bitcode);
    assert_eq!(file_kind_of("prog"), FileKind::Bitcode);
    assert_eq!(file_kind_of(".s"), FileKind::Bitcode);
}

#[test]
fn new_session_build_dir() {
    let s = Session::new("out/prog.img".to_string(), OutputType::Image);
    assert_eq!(s.build_dir(), "out/prog.cdm.build");
    let s = Session::new("prog".to_string(), OutputType::Object);
    assert_eq!(s.build_dir(), "prog.cdm.build");
    assert!(s.archive_files().is_empty());
}

#[test]
fn out_file_name_uses_name_hash_and_extension() {
    let s = Session::new("out/prog.img".to_string(), OutputType::Image);
    assert_eq!(
        s.out_file_name("dir/foo.bc", "asm"),
        "out/prog.cdm.build/foo.bc.lrtmjFcSTzaWu2aMVxJPNg.asm"
    );
    assert_eq!(
        s.out_file_name("foo.bc", "asm"),
        "out/prog.cdm.build/foo.bc.fDSzygUgLUh8NLPKBSAtSA.asm"
    );
    assert_eq!(
        s.extraction_dir("/tmp/x/lib.rlib"),
        "out/prog.cdm.build/lib.rlib.WLCdPq43fYpYsJ0-rjd9ig.x"
    );
}

#[test]
fn out_file_names_differ_by_extension() {
    let s = Session::new("prog.img".to_string(), OutputType::Image);
    let a = s.out_file_name("src/main.s", "asm");
    let o = s.out_file_name("src/main.s", "obj");
    assert_ne!(a, o);
    assert_eq!(o, "prog.cdm.build/main.s.gCSx7rrqkWCAJLHuuuqRYA.obj");
    assert!(a.ends_with(".asm"));
    let hash = a.rsplit('.').nth(1).unwrap();
    assert_eq!(hash.len(), 22);
    assert!(hash.chars().all(|c| c.is_ascii_alphanumeric() || c == '-' || c == '_'));
    assert!(a.starts_with("prog.cdm.build/"));
    assert!(!a["prog.cdm.build/".len()..].contains('/'));
}

#[test]
fn add_file_sorts_by_kind() {
    let mut s = Session::new("prog.img".to_string(), OutputType::Object);
    for f in ["a.s", "b.obj", "c.rlib", "d.bc", "e.a"] {
        s.add_file(f.to_string());
    }
    assert_eq!(s.archive_files(), &strings(&["c.rlib", "e.a"]));
    let plan = s.plan_run(&Vec::new());
    let compile: Vec<&str> = plan.compile.iter().map(|st| st.input.as_str()).collect();
    assert_eq!(compile, vec!["d.bc"]);
    let assemble: Vec<&str> = plan.assemble.iter().map(|st| st.input.as_str()).collect();
    assert_eq!(assemble, vec!["a.s", plan.compile[0].output.as_str()]);
    assert_eq!(plan.link.len(), 3);
    assert_eq!(plan.link[0], "b.obj");
}

#[test]
fn run_plan_orders_steps() {
    let mut s = Session::new("out.img".to_string(), OutputType::Image);
    s.add_file("x.bc".to_string());
    s.add_file("y.asm".to_string());
    s.add_file("z.obj".to_string());
    let extracted = strings(&["out.cdm.build/lib.rlib.H.x/m1.o"]);
    let plan = s.plan_run(&extracted);
    assert_eq!(plan.compile.len(), 2);
    assert_eq!(plan.compile[0].input, "x.bc");
    assert_eq!(plan.compile[1].input, extracted[0]);
    assert_eq!(plan.compile[0].output, s.out_file_name("x.bc", "asm"));
    assert_eq!(plan.assemble.len(), 3);
    assert_eq!(plan.assemble[0].input, "y.asm");
    assert_eq!(plan.assemble[1].input, plan.compile[0].output);
    assert_eq!(plan.assemble[2].input, plan.compile[1].output);
    assert_eq!(plan.assemble[0].output, s.out_file_name("y.asm", "obj"));
    let mut expected_link = vec!["z.obj".to_string()];
    expected_link.extend(plan.assemble.iter().map(|st| st.output.clone()));
    assert_eq!(plan.link, expected_link);
}

#[test]
fn tool_arguments() {
    let step = BuildStep { input: "in.bc".to_string(), output: "out.asm".to_string() };
    let opts = CompilationOptions::new(Optimization::O2);
    assert_eq!(llc_arguments(&opts, &step), strings(&["-O2", "-o", "out.asm", "in.bc"]));
    let step = BuildStep { input: "in.s".to_string(), output: "out.obj".to_string() };
    assert_eq!(assemble_arguments(&step), strings(&["-o", "out.obj", "-c", "in.s"]));
}

#[test]
fn link_arguments_by_output_type() {
    let objects = strings(&["a.obj", "b.obj"]);
    let s = Session::new("prog.obj".to_string(), OutputType::Object);
    assert_eq!(s.link_arguments(&objects), strings(&["-o", "prog.obj", "-m", "a.obj", "b.obj"]));
    let s = Session::new("prog.img".to_string(), OutputType::Image);
    assert_eq!(s.link_arguments(&objects), strings(&["-o", "prog.img", "a.obj", "b.obj"]));
}

#[test]
fn archive_member_destinations() {
    assert_eq!(member_destination_of("cd", b"foo.o"), Ok(Some("cd/foo.o".to_string())));
    assert_eq!(member_destination_of("cd", b"foo.O"), Ok(Some("cd/foo.O".to_string())));
    assert_eq!(member_destination_of("cd", b"lib.rmeta"), Ok(None));
    assert_eq!(member_destination_of("cd/", b"noext"), Ok(Some("cd/noext".to_string())));
    assert_eq!(member_destination_of("cd", &[0x66, 0xff, 0x6f]), Err(LinkError::InvalidMemberName));
}

#[test]
fn stderr_report_strips_escapes_and_indents() {
    let report = tool_stderr_report(b"\x1b[31merror\x1b[0m: bad\nline2\n");
    assert_eq!(report, "    error: bad\n    line2");
    assert_eq!(tool_stderr_report(b""), "");
    assert_eq!(tool_stderr_report(b"a\tb\r\nc"), "    ab\n    c");
    assert_eq!(tool_stderr_report(&[0x61, 0xff, 0x62]), "    a\u{fffd}b");
}

#[test]
fn cocas_program_default() {
    assert_eq!(cocas_program(None), "cocas");
    assert_eq!(cocas_program(Some("/opt/cdm/cocas".to_string())), "/opt/cdm/cocas");
}

#[test]
fn session_from_command_line() {
    let args = Args {
        files: strings(&["start.asm", "libcore.rlib", "prog.bc"]),
        input_dir: Vec::new(),
        output: "build/prog.img".to_string(),
        output_type: OutputType::Image,
        optimization: Optimization::O1,
    };
    let (session, opts) = session_from_args(args);
    assert_eq!(session.build_dir(), "build/prog.cdm.build");
    assert_eq!(session.archive_files(), &strings(&["libcore.rlib"]));
    let plan = session.plan_run(&Vec::new());
    assert_eq!(plan.compile.len(), 1);
    assert_eq!(plan.assemble[0].input, "start.asm");
    let step = BuildStep { input: "i".to_string(), output: "o".to_string() };
    assert_eq!(llc_arguments(&opts, &step)[0], "-O1");
}

#[test]
fn every_command_line_file_is_linked() {
    let args = Args {
        files: strings(&["a.s", "b.obj", "c.bc", "d.ASM", "e.lib"]),
        input_dir: Vec::new(),
        output: "p.img".to_string(),
        output_type: OutputType::Image,
        optimization: Optimization::O0,
    };
    let (session, _) = session_from_args(args);
    let plan = session.plan_run(&Vec::new());
    assert_eq!(plan.link.len(), 5);
    assert_eq!(plan.link[0], "b.obj");
    assert_eq!(plan.link[1], "e.lib");
}

#[test]
fn up_to_date_needs_both_times_and_a_newer_output() {
    assert!(is_up_to_date(Some(10), Some(10)));
    assert!(is_up_to_date(Some(-5), Some(3)));
    assert!(!is_up_to_date(Some(11), Some(10)));
    assert!(!is_up_to_date(None, Some(10)));
    assert!(!is_up_to_date(Some(1), None));
}
