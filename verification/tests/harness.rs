use brainfuck::runner::{
    Bench, HarnessError, LangType, Opt, Program, ProgramStdin, ProgramStdinType,
};
use brainfuck::text::{file_stem, join_path, str_eq, usize_to_string};

fn opt() -> Opt {
    Opt { build_output: String::from("build/out"), target: String::from("bench/dir") }
}

#[test]
fn binary_name_combines_stem_tag_and_impl() {
    assert_eq!(LangType::Rust.binary_name("brainfuck/bf.rs", "rustc"), "bf-rs-rustc");
    assert_eq!(LangType::Cpp.binary_name("src/bf.cpp", "g++"), "bf-cpp-g++");
    assert_eq!(LangType::Python.binary_name("bf.py", "pypy"), "bf-python-pypy");
    assert_eq!(LangType::JavaScript.binary_name("js/bf.js", "node"), "bf-js-node");
}

#[test]
fn binary_name_keeps_dotless_names_whole() {
    assert_eq!(LangType::Rust.binary_name("dir/bf", "rustc"), "bf-rs-rustc");
    assert_eq!(LangType::Rust.binary_name("a.b/bf.tar.gz", "rustc"), "bf.tar-rs-rustc");
}

#[test]
fn hyperfine_arg_interpreted_languages_use_their_runtime() {
    assert_eq!(
        LangType::JavaScript.hyperfine_arg(&opt(), "js/bf.js", "node").unwrap(),
        "node js/bf.js"
    );
    assert_eq!(LangType::Python.hyperfine_arg(&opt(), "bf.py", "pypy").unwrap(), "pypy bf.py");
    assert_eq!(
        LangType::Python.hyperfine_arg(&opt(), "bf.py", "python").unwrap(),
        "python bf.py"
    );
}

#[test]
fn hyperfine_arg_compiled_languages_use_the_built_binary() {
    assert_eq!(
        LangType::Rust.hyperfine_arg(&opt(), "brainfuck/bf.rs", "rustc").unwrap(),
        "build/out/bf-rs-rustc"
    );
    assert_eq!(
        LangType::Cpp.hyperfine_arg(&opt(), "bf.cpp", "clang++").unwrap(),
        "build/out/bf-cpp-clang++"
    );
}

#[test]
fn hyperfine_arg_rejects_unknown_runtimes() {
    assert_eq!(
        LangType::JavaScript.hyperfine_arg(&opt(), "bf.js", "deno").unwrap_err(),
        HarnessError::UnknownImpl(String::from("deno"))
    );
    assert_eq!(
        LangType::Python.hyperfine_arg(&opt(), "bf.py", "jython").unwrap_err(),
        HarnessError::UnknownImpl(String::from("jython"))
    );
}

#[test]
fn unknown_impl_carries_the_name_back() {
    let r: Result<(), HarnessError> = brainfuck::runner::unknown_impl("mystery");
    assert_eq!(r.unwrap_err(), HarnessError::UnknownImpl(String::from("mystery")));
}

#[test]
fn get_bytes_encodes_literal_text() {
    let stdin = ProgramStdin { ty: ProgramStdinType::Text, content: String::from("a\u{e9}z") };
    assert_eq!(stdin.get_bytes().unwrap(), "a\u{e9}z".as_bytes().to_vec());
}

#[test]
fn get_bytes_defers_file_reads_to_the_caller() {
    let stdin = ProgramStdin { ty: ProgramStdinType::File, content: String::from("input.txt") };
    assert!(stdin.get_bytes().is_none());
}

#[test]
fn resolved_args_substitutes_the_content_length_placeholder() {
    let bench = Bench {
        name: String::from("bf"),
        args: vec![
            String::from("$CONTENT_LENGTH$"),
            String::from("fixed"),
            String::from("$CONTENT_LENGTH$"),
        ],
        stdin: None,
        stdout: String::new(),
        programs: Vec::<Program>::new(),
    };
    assert_eq!(bench.resolved_args(12345), vec!["12345", "fixed", "12345"]);
    assert_eq!(bench.resolved_args(0), vec!["0", "fixed", "0"]);
}

#[test]
fn usize_to_string_writes_decimal() {
    assert_eq!(usize_to_string(0), "0");
    assert_eq!(usize_to_string(7), "7");
    assert_eq!(usize_to_string(10), "10");
    assert_eq!(usize_to_string(90807), "90807");
    assert_eq!(usize_to_string(usize::MAX), usize::MAX.to_string());
}

#[test]
fn file_stem_takes_the_last_component_before_its_last_dot() {
    assert_eq!(file_stem("brainfuck/bf.rs"), "bf");
    assert_eq!(file_stem("bf.rs"), "bf");
    assert_eq!(file_stem("a/b/c.d.e"), "c.d");
    assert_eq!(file_stem("nodots"), "nodots");
    assert_eq!(file_stem("dir.withdot/nodots"), "nodots");
    assert_eq!(file_stem(""), "");
}

#[test]
fn join_path_inserts_exactly_one_separator() {
    assert_eq!(join_path("build", "bf-rs-rustc"), "build/bf-rs-rustc");
    assert_eq!(join_path("build/", "bf"), "build/bf");
    assert_eq!(join_path("", "bf"), "bf");
}

#[test]
fn str_eq_compares_by_characters() {
    assert!(str_eq("", ""));
    assert!(str_eq("abc", "abc"));
    assert!(!str_eq("abc", "abd"));
    assert!(!str_eq("abc", "ab"));
    assert!(str_eq("\u{1f600}", "\u{1f600}"));
}
