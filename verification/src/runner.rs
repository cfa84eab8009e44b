//! The pure decision logic of the benchmark harness that compares
//! interpreter implementations: which implementation names each language
//! accepts, what the compiled binaries are called, the command fragment the
//! external timing tool is handed, and how a bench description's arguments
//! and input bytes are resolved. Compiling, spawning and timing the
//! processes is I/O and lives in the binary around the library.

use crate::text::{
    dec_str, file_stem, file_stem_of, join_path, joined, str_eq, usize_to_string,
};
use vstd::prelude::*;
use vstd::string::{StrSliceExecFns, StringExecFns};
use vstd::utf8::encode_utf8;

verus! {

/// The failure of the harness logic: an implementation name no language
/// knows how to compile or run.
#[derive(Clone, Debug, PartialEq, Eq)]
pub enum HarnessError {
    UnknownImpl(String),
}

/// The rejection every unrecognized implementation name receives: an error
/// carrying that name.
pub fn unknown_impl<T>(implementation: &str) -> (r: Result<T, HarnessError>)
    ensures
        r matches Err(HarnessError::UnknownImpl(s)) && s@ == implementation@,
{
    Err(HarnessError::UnknownImpl(implementation.to_owned()))
}

/// The language one benchmarked interpreter is written in.
#[derive(Clone, Copy, Debug, PartialEq, Eq, Structural)]
pub enum LangType {
    Cpp,
    JavaScript,
    Python,
    Rust,
}

/// The short tag a language contributes to the names of its compiled
/// binaries.
pub open spec fn lang_tag(l: LangType) -> Seq<char> {
    match l {
        LangType::Rust => seq!['r', 's'],
        LangType::Cpp => seq!['c', 'p', 'p'],
        LangType::Python => seq!['p', 'y', 't', 'h', 'o', 'n'],
        LangType::JavaScript => seq!['j', 's'],
    }
}

/// Which implementation names a language's bench command recognizes: a
/// fixed runtime name for the interpreted languages, anything for the
/// compiled ones (their compile step does the vetting).
pub open spec fn known_impl(l: LangType, implementation: Seq<char>) -> bool {
    match l {
        LangType::JavaScript => implementation == "node"@,
        LangType::Python => implementation == "pypy"@ || implementation == "python"@,
        LangType::Cpp => true,
        LangType::Rust => true,
    }
}

/// The command fragment the external timing tool runs for one
/// implementation: runtime and source path for the interpreted languages,
/// the compiled binary's path for the rest.
pub open spec fn hyperfine_arg_spec(
    l: LangType,
    build_output: Seq<char>,
    path: Seq<char>,
    implementation: Seq<char>,
) -> Seq<char> {
    match l {
        LangType::JavaScript | LangType::Python => implementation + seq![' '] + path,
        LangType::Rust | LangType::Cpp => joined(
            build_output,
            file_stem_of(path) + seq!['-'] + lang_tag(l) + seq!['-'] + implementation,
        ),
    }
}

impl LangType {
    /// The file name of the binary one implementation compiles a program
    /// to: the source path's file stem, the language tag and the
    /// implementation name, separated by dashes.
    pub fn binary_name(self, program_path: &str, implementation: &str) -> (r: String)
        ensures
            r@ == file_stem_of(program_path@) + seq!['-'] + lang_tag(self) + seq!['-']
                + implementation@,
    {
        let stem = file_stem(program_path);
        let mut r = stem.to_owned();
        r.append("-");
        match self {
            LangType::Rust => r.append("rs"),
            LangType::Cpp => r.append("cpp"),
            LangType::Python => r.append("python"),
            LangType::JavaScript => r.append("js"),
        }
        r.append("-");
        r.append(implementation);
        proof {
            reveal_strlit("-");
            reveal_strlit("rs");
            reveal_strlit("cpp");
            reveal_strlit("python");
            reveal_strlit("js");
            assert("-"@ =~= seq!['-']);
            assert("rs"@ =~= seq!['r', 's']);
            assert("cpp"@ =~= seq!['c', 'p', 'p']);
            assert("python"@ =~= seq!['p', 'y', 't', 'h', 'o', 'n']);
            assert("js"@ =~= seq!['j', 's']);
            assert(r@ =~= file_stem_of(program_path@) + seq!['-'] + lang_tag(self) + seq!['-']
                + implementation@);
        }
        r
    }

    /// The command line the external timing tool is handed for one
    /// implementation of a program, or the implementation name back as an
    /// error when the language does not recognize it.
    pub fn hyperfine_arg(self, opt: &Opt, program_path: &str, implementation: &str) -> (r: Result<
        String,
        HarnessError,
    >)
        ensures
            known_impl(self, implementation@) ==> (r matches Ok(s) && s@ == hyperfine_arg_spec(
                self,
                opt.build_output@,
                program_path@,
                implementation@,
            )),
            !known_impl(self, implementation@) ==> (r matches Err(HarnessError::UnknownImpl(s))
                && s@ == implementation@),
    {
        match self {
            LangType::JavaScript => {
                if str_eq(implementation, "node") {
                    Ok(Self::runtime_invocation(implementation, program_path))
                } else {
                    unknown_impl(implementation)
                }
            },
            LangType::Python => {
                if str_eq(implementation, "pypy") || str_eq(implementation, "python") {
                    Ok(Self::runtime_invocation(implementation, program_path))
                } else {
                    unknown_impl(implementation)
                }
            },
            LangType::Rust | LangType::Cpp => {
                let name = self.binary_name(program_path, implementation);
                Ok(join_path(opt.build_output.as_str(), name.as_str()))
            },
        }
    }

    /// A runtime name and a source path, separated by one space.
    fn runtime_invocation(runtime: &str, program_path: &str) -> (r: String)
        ensures
            r@ == runtime@ + seq![' '] + program_path@,
    {
        let mut r = runtime.to_owned();
        r.append(" ");
        r.append(program_path);
        proof {
            reveal_strlit(" ");
            assert(" "@ =~= seq![' ']);
            assert(r@ =~= runtime@ + seq![' '] + program_path@);
        }
        r
    }
}

/// The harness's own options: where build outputs go and the directory the
/// bench description lives in. Paths are plain text here; the binary
/// around the library takes them from the command line.
#[derive(Clone, Debug)]
pub struct Opt {
    pub build_output: String,
    pub target: String,
}

/// One benchmarked program: its language, a display name, the
/// implementations to build and time it with, whether it is the idiomatic
/// variant, and its source path under the bench target directory.
#[derive(Clone, Debug)]
pub struct Program {
    pub lang: LangType,
    pub name: String,
    pub implementations: Vec<String>,
    pub idiomatic: bool,
    pub path: String,
}

/// Where the bytes fed to a benched program's input stream come from: a
/// file beside the bench description, or literal text inside it.
#[derive(Clone, Copy, Debug, PartialEq, Eq, Structural)]
pub enum ProgramStdinType {
    File,
    Text,
}

/// The input description of one bench: its source kind and its content —
/// a file name for `File`, the literal text for `Text`.
#[derive(Clone, Debug)]
pub struct ProgramStdin {
    pub ty: ProgramStdinType,
    pub content: String,
}

impl ProgramStdin {
    /// The input bytes, where the description carries them itself: the
    /// encoding of the literal text. For file-sourced input the content
    /// names a file to read, which is I/O and the caller's business, so
    /// the answer is `None`.
    pub fn get_bytes(&self) -> (r: Option<Vec<u8>>)
        ensures
            self.ty is Text ==> (r matches Some(v) && v@ == encode_utf8(self.content@)),
            self.ty is File ==> r is None,
    {
        match self.ty {
            ProgramStdinType::Text => Some(self.content.as_str().as_bytes_vec()),
            ProgramStdinType::File => None,
        }
    }
}

/// One bench: its name, the arguments every program under it is run with
/// (one placeholder resolved at run time), its input description, the
/// output text every program must reproduce exactly, and the programs
/// compared.
#[derive(Clone, Debug)]
pub struct Bench {
    pub name: String,
    pub args: Vec<String>,
    pub stdin: Option<ProgramStdin>,
    pub stdout: String,
    pub programs: Vec<Program>,
}

impl Bench {
    /// The bench arguments with the content-length placeholder resolved:
    /// every argument that is exactly `$CONTENT_LENGTH$` becomes the
    /// decimal length of the input bytes, every other argument stays as it
    /// is.
    pub fn resolved_args(&self, stdin_len: usize) -> (r: Vec<String>)
        ensures
            r@.len() == self.args@.len(),
            forall|i: int|
                0 <= i < r@.len() ==> (#[trigger] r@[i])@ == (if self.args@[i]@
                    == "$CONTENT_LENGTH$"@ {
                    dec_str(stdin_len as nat)
                } else {
                    self.args@[i]@
                }),
    {
        let n = self.args.len();
        let mut r: Vec<String> = Vec::with_capacity(n);
        let mut i: usize = 0;
        while i < n
            invariant
                n == self.args@.len(),
                i <= n,
                r@.len() == i,
                forall|k: int|
                    0 <= k < i ==> (#[trigger] r@[k])@ == (if self.args@[k]@
                        == "$CONTENT_LENGTH$"@ {
                        dec_str(stdin_len as nat)
                    } else {
                        self.args@[k]@
                    }),
            decreases n - i,
        {
            if str_eq(self.args[i].as_str(), "$CONTENT_LENGTH$") {
                r.push(usize_to_string(stdin_len));
            } else {
                r.push(self.args[i].clone());
            }
            i = i + 1;
        }
        r
    }
}

} // verus!
