//! The command line: what is asked for, and where output goes.
use vstd::prelude::*;

use crate::collections::option_view;
use crate::text::{chars_of, same};

verus! {

/// What the command line asks for.
#[derive(Debug, PartialEq, Eq)]
pub enum Cli {
    /// `compile <input> [-o <output>] [--module-name <name>]`.
    Compile { input: String, output: Option<String>, module_name: Option<String> },
    /// `--version`, `-V`.
    Version,
    /// `--help`, `-h`, or nothing.
    Help,
    /// Anything else, with what is wrong.
    Unknown(String),
}

/// A [`Cli`] as a mathematical value.
pub ghost enum CliView {
    Compile { input: Seq<char>, output: Option<Seq<char>>, module_name: Option<Seq<char>> },
    Version,
    Help,
    Unknown(Seq<char>),
}

impl View for Cli {
    type V = CliView;

    open spec fn view(&self) -> CliView {
        match self {
            Cli::Compile { input, output, module_name } => CliView::Compile {
                input: input@,
                output: option_view(*output),
                module_name: option_view(*module_name),
            },
            Cli::Version => CliView::Version,
            Cli::Help => CliView::Help,
            Cli::Unknown(what) => CliView::Unknown(what@),
        }
    }
}

/// What the arguments from place `i` on ask for, given what earlier ones said.
/// Options take the next argument as their value; the first other argument
/// that does not start with `-` is the input.
pub open spec fn compile_request(
    args: Seq<String>,
    i: int,
    input: Option<Seq<char>>,
    output: Option<Seq<char>>,
    module_name: Option<Seq<char>>,
) -> CliView
    decreases args.len() - i,
{
    if i >= args.len() {
        match input {
            Some(input) => CliView::Compile { input, output, module_name },
            None => CliView::Unknown("compile: missing input file"@),
        }
    } else if args[i]@ == "-o"@ {
        if i + 1 >= args.len() {
            CliView::Unknown("-o (missing path)"@)
        } else {
            compile_request(args, i + 2, input, Some(args[i + 1]@), module_name)
        }
    } else if args[i]@ == "--module-name"@ {
        if i + 1 >= args.len() {
            CliView::Unknown("--module-name (missing value)"@)
        } else {
            compile_request(args, i + 2, input, output, Some(args[i + 1]@))
        }
    } else if !(args[i]@.len() > 0 && args[i]@[0] == '-') && input is None {
        compile_request(args, i + 1, Some(args[i]@), output, module_name)
    } else {
        CliView::Unknown("compile: unexpected argument `"@ + args[i]@ + "`"@)
    }
}

/// What a command line, without the program's name, asks for.
pub open spec fn request(argv: Seq<String>) -> CliView {
    if argv.len() == 0 || argv[0]@ == "--help"@ || argv[0]@ == "-h"@ {
        CliView::Help
    } else if argv[0]@ == "--version"@ || argv[0]@ == "-V"@ {
        CliView::Version
    } else if argv[0]@ == "compile"@ {
        compile_request(argv, 1, None, None, None)
    } else {
        CliView::Unknown(argv[0]@)
    }
}

fn starts_with_dash(s: &str) -> (r: bool)
    ensures
        r == (s@.len() > 0 && s@[0] == '-'),
{
    let cs = chars_of(s);
    cs.len() > 0 && cs[0] == '-'
}

/// Reads the arguments of `compile`, which start at place `from`.
pub fn parse_compile(args: &Vec<String>, from: usize) -> (r: Cli)
    requires
        from <= args@.len(),
    ensures
        r@ == compile_request(args@, from as int, None, None, None),
{
    let n: usize = args.len();
    let mut input: Option<String> = None;
    let mut output: Option<String> = None;
    let mut module_name: Option<String> = None;
    let mut i: usize = from;
    while i < n
        invariant
            from <= i <= n == args@.len(),
            compile_request(args@, from as int, None, None, None) == compile_request(
                args@,
                i as int,
                option_view(input),
                option_view(output),
                option_view(module_name),
            ),
        decreases n - i,
    {
        let arg = args[i].as_str();
        if same(arg, "-o") {
            if i + 1 >= n {
                return Cli::Unknown("-o (missing path)".to_owned());
            }
            output = Some(args[i + 1].clone());
            i = i + 2;
        } else if same(arg, "--module-name") {
            if i + 1 >= n {
                return Cli::Unknown("--module-name (missing value)".to_owned());
            }
            module_name = Some(args[i + 1].clone());
            i = i + 2;
        } else if !starts_with_dash(arg) && input.is_none() {
            input = Some(arg.to_owned());
            i = i + 1;
        } else {
            let mut what = "compile: unexpected argument `".to_owned();
            what.append(arg);
            what.append("`");
            return Cli::Unknown(what);
        }
    }
    match input {
        Some(input) => Cli::Compile { input, output, module_name },
        None => Cli::Unknown("compile: missing input file".to_owned()),
    }
}

/// Reads a command line, without the program's name.
pub fn parse_argv(argv: &Vec<String>) -> (r: Cli)
    ensures
        r@ == request(argv@),
{
    if argv.len() == 0 {
        return Cli::Help;
    }
    let first = argv[0].as_str();
    if same(first, "--help") || same(first, "-h") {
        Cli::Help
    } else if same(first, "--version") || same(first, "-V") {
        Cli::Version
    } else if same(first, "compile") {
        parse_compile(argv, 1)
    } else {
        Cli::Unknown(first.to_owned())
    }
}

// ─── Paths ─────────────────────────────────────────────────────────────────

/// The character is none that separates the parts of a path on some platform.
pub open spec fn in_name(c: char) -> bool {
    c != '/' && c != '\\' && c != ':'
}

/// A text that can stand as an extension.
pub open spec fn is_extension(s: Seq<char>) -> bool {
    s.len() > 0 && forall|i: int| 0 <= i < s.len() ==> in_name(#[trigger] s[i]) && s[i] != '.'
}

/// A text that is the name of a file in any path syntax.
pub open spec fn is_file_name(s: Seq<char>) -> bool {
    &&& s.len() > 0
    &&& s != "."@
    &&& s != ".."@
    &&& forall|i: int| 0 <= i < s.len() ==> in_name(#[trigger] s[i])
}

/// A directory, up to and with its last `/`, or nothing. It does not start
/// with `//`, which names a host on some platforms.
pub open spec fn is_directory(s: Seq<char>) -> bool {
    &&& s.len() > 0 ==> s.last() == '/'
    &&& !(s.len() >= 2 && s[0] == '/' && s[1] == '/')
    &&& forall|i: int| 0 <= i < s.len() ==> in_name(#[trigger] s[i]) || s[i] == '/'
}

/// What may stand behind a name without meaning: slashes, and dots that stand
/// alone between them.
pub open spec fn is_tail(s: Seq<char>) -> bool {
    &&& s.len() > 0 ==> s[0] == '/'
    &&& forall|i: int| 0 <= i < s.len() ==> #[trigger] s[i] == '/' || s[i] == '.'
    &&& forall|i: int, j: int|
        #![trigger s[i], s[j]]
        0 <= i < s.len() && j == i + 1 && j < s.len() ==> s[i] == '/' || s[j] == '/'
}

/// The place of the last dot, or -1.
pub open spec fn last_dot(name: Seq<char>) -> int
    decreases name.len(),
{
    if name.len() == 0 {
        -1
    } else if name.last() == '.' {
        name.len() - 1
    } else {
        last_dot(name.drop_last())
    }
}

/// The file name up to its last dot; the whole name where it has no dot but
/// perhaps one at its start.
pub open spec fn stem_of(name: Seq<char>) -> Seq<char> {
    if last_dot(name) <= 0 {
        name
    } else {
        name.take(last_dot(name))
    }
}

/// The path leads to the named file in a directory.
pub open spec fn is_path_of(
    path: Seq<char>,
    directory: Seq<char>,
    name: Seq<char>,
    tail: Seq<char>,
) -> bool {
    &&& is_directory(directory)
    &&& is_file_name(name)
    &&& is_tail(tail)
    &&& path == directory + name + tail
}

/// The path ends at a parent directory.
pub open spec fn leads_to_a_parent(path: Seq<char>, directory: Seq<char>, tail: Seq<char>) -> bool {
    is_directory(directory) && is_tail(tail) && path == directory + ".."@ + tail
}

/// The path names no file: it is empty, the root, or leads to a parent.
pub open spec fn names_no_file(path: Seq<char>) -> bool {
    path == ""@ || path == "/"@ || exists|directory: Seq<char>, tail: Seq<char>|
        leads_to_a_parent(path, directory, tail)
}

/// `std::path::PathBuf::set_extension`: the path with the extension of its
/// file name replaced, or `None` where it has no file name.
///
/// Claimed of it: the new extension stands behind a dot after the stem of the
/// file name, in the place of whatever stood behind the stem; a path that names
/// no file gives `None`. Of paths with a backslash, a colon or two slashes at
/// the start nothing is claimed, since how they are read depends on the
/// platform, nor of paths that consist of slashes and single dots alone.
#[verifier::external_body]
fn replace_extension(path: &str, extension: &str) -> (r: Option<String>)
    requires
        is_extension(extension@),
    ensures
        forall|directory: Seq<char>, name: Seq<char>, tail: Seq<char>| #[trigger]
            is_path_of(path@, directory, name, tail) ==> r is Some && r->0@ == directory
                + stem_of(name) + "."@ + extension@,
        names_no_file(path@) ==> r is None,
{
    let mut out = std::path::PathBuf::from(path);
    let replaced = out.set_extension(extension);
    replaced.then_some(out).and_then(|p| p.to_str().map(|s| s.to_owned()))
}

/// `std::path::Path::file_stem`: the file name without its extension, or
/// `None` where the path has no file name.
///
/// Claimed of it: the stem is the file name up to its last dot, or the whole
/// file name where that has no dot but perhaps one at its start; a path that
/// names no file gives `None`. Of paths with a backslash, a colon or two slashes
/// at the start nothing is claimed, since how they are read depends on the
/// platform, nor of paths that consist of slashes and single dots alone.
#[verifier::external_body]
fn path_stem(path: &str) -> (r: Option<String>)
    ensures
        forall|directory: Seq<char>, name: Seq<char>, tail: Seq<char>| #[trigger]
            is_path_of(path@, directory, name, tail) ==> r is Some && r->0@ == stem_of(name),
        names_no_file(path@) ==> r is None,
{
    std::path::Path::new(path).file_stem().and_then(|s| s.to_str()).map(|s| s.to_owned())
}

/// The output path for an input path with its extension replaced, where it has
/// a file name.
pub fn output_path_or_default(replaced: Option<String>) -> (r: String)
    ensures
        r@ == match replaced {
            Some(p) => p@,
            None => "out.ll"@,
        },
{
    match replaced {
        Some(p) => p,
        None => "out.ll".to_owned(),
    }
}

/// The module name for the stem of an input path, where it has one.
pub fn module_name_or_default(stem: Option<String>) -> (r: String)
    ensures
        r@ == match stem {
            Some(s) => s@,
            None => "module"@,
        },
{
    match stem {
        Some(s) => s,
        None => "module".to_owned(),
    }
}

/// Where the output of compiling `input` goes by default: beside it, with the
/// extension `ll`, or to `out.ll` where `input` names no file.
pub fn default_output_path(input: &str) -> (r: String)
    ensures
        forall|directory: Seq<char>, name: Seq<char>, tail: Seq<char>| #[trigger]
            is_path_of(input@, directory, name, tail) ==> r@ == directory + stem_of(name) + "."@
                + "ll"@,
        names_no_file(input@) ==> r@ == "out.ll"@,
{
    proof {
        reveal_strlit("ll");
    }
    output_path_or_default(replace_extension(input, "ll"))
}

/// What the module of `input` is called by default: the file name without its
/// extension, or `module` where `input` names no file.
pub fn default_module_name(input: &str) -> (r: String)
    ensures
        forall|directory: Seq<char>, name: Seq<char>, tail: Seq<char>| #[trigger]
            is_path_of(input@, directory, name, tail) ==> r@ == stem_of(name),
        names_no_file(input@) ==> r@ == "module"@,
{
    module_name_or_default(path_stem(input))
}

// ─── Requests ──────────────────────────────────────────────────────────────

/// The argument is neither an option nor anything that looks like one.
pub open spec fn is_plain(arg: Seq<char>) -> bool {
    arg.len() == 0 || arg[0] != '-'
}

/// Reading on behind arguments that are a whole request by themselves goes on
/// from what they asked for.
proof fn reads_on(
    args: Seq<String>,
    more: Seq<String>,
    i: int,
    input: Option<Seq<char>>,
    output: Option<Seq<char>>,
    module_name: Option<Seq<char>>,
)
    requires
        0 <= i <= args.len(),
    ensures
        compile_request(args, i, input, output, module_name) matches CliView::Compile {
            input: file,
            output: o,
            module_name: m,
        } ==> compile_request(args + more, i, input, output, module_name) == compile_request(
            args + more,
            args.len() as int,
            Some(file),
            o,
            m,
        ),
    decreases args.len() - i,
{
    let all = args + more;
    if i < args.len() {
        assert(all[i] == args[i]);
        if args[i]@ == "-o"@ {
            if i + 1 < args.len() {
                assert(all[i + 1] == args[i + 1]);
                reads_on(args, more, i + 2, input, Some(args[i + 1]@), module_name);
            }
        } else if args[i]@ == "--module-name"@ {
            if i + 1 < args.len() {
                assert(all[i + 1] == args[i + 1]);
                reads_on(args, more, i + 2, input, output, Some(args[i + 1]@));
            }
        } else if is_plain(args[i]@) && input is None {
            reads_on(args, more, i + 1, Some(args[i]@), output, module_name);
        }
    }
}

/// `compile` with a plain argument asks for that file and nothing else.
pub proof fn a_file_alone_is_compiled(argv: Seq<String>)
    requires
        argv.len() == 2,
        argv[0]@ == "compile"@,
        is_plain(argv[1]@),
    ensures
        request(argv) == (CliView::Compile {
            input: argv[1]@,
            output: None,
            module_name: None,
        }),
{
    command_texts();
    reveal_with_fuel(compile_request, 3);
}

proof fn command_texts()
    ensures
        "compile"@ != "--help"@,
        "compile"@ != "-h"@,
        "compile"@ != "--version"@,
        "compile"@ != "-V"@,
        "-o"@ != "--module-name"@,
        "-o"@.len() > 0 && "-o"@[0] == '-',
        "--module-name"@.len() > 0 && "--module-name"@[0] == '-',
{
    reveal_strlit("compile");
    reveal_strlit("--help");
    reveal_strlit("-h");
    reveal_strlit("--version");
    reveal_strlit("-V");
    reveal_strlit("-o");
    reveal_strlit("--module-name");
    assert("compile"@[0] == 'c');
    assert("--help"@[0] == '-' && "-h"@[0] == '-' && "--version"@[0] == '-' && "-V"@[0] == '-');
    assert("-o"@.len() == 2 && "--module-name"@.len() == 13);
}

/// Behind a whole request `-o` and a path change the output and nothing else,
/// `--module-name` and a name change the module name and nothing else, and a
/// further plain argument or any other option is refused by name.
pub proof fn options_change_one_thing(argv: Seq<String>, more: Seq<String>)
    requires
        request(argv) is Compile,
        more.len() == 1 || more.len() == 2,
    ensures
        ({
            let asked = request(argv);
            let (input, output, module_name) = (asked->input, asked->output, asked->module_name);
            let now = request(argv + more);
            &&& more.len() == 2 && more[0]@ == "-o"@ ==> now == (CliView::Compile {
                input,
                output: Some(more[1]@),
                module_name,
            })
            &&& more.len() == 2 && more[0]@ == "--module-name"@ ==> now == (CliView::Compile {
                input,
                output,
                module_name: Some(more[1]@),
            })
            &&& more.len() == 1 && more[0]@ == "-o"@ ==> now == CliView::Unknown(
                "-o (missing path)"@,
            )
            &&& more.len() == 1 && more[0]@ == "--module-name"@ ==> now == CliView::Unknown(
                "--module-name (missing value)"@,
            )
            &&& more[0]@ != "-o"@ && more[0]@ != "--module-name"@ ==> now == CliView::Unknown(
                "compile: unexpected argument `"@ + more[0]@ + "`"@,
            )
        }),
{
    command_texts();
    let all = argv + more;
    let n = argv.len() as int;
    assert(all[0] == argv[0]);
    assert(all[n] == more[0]);
    if more.len() == 2 {
        assert(all[n + 1] == more[1]);
    }
    reads_on(argv, more, 1, None, None, None);
    reveal_with_fuel(compile_request, 3);
}

/// Options may stand before the file as well as behind it.
pub proof fn options_may_stand_first(before: Seq<String>, behind: Seq<String>)
    requires
        before.len() == 4,
        behind.len() == 4,
        before[0]@ == "compile"@,
        behind[0]@ == "compile"@,
        is_plain(before[3]@),
        before[1] == behind[2],
        before[2] == behind[3],
        before[3] == behind[1],
        before[1]@ == "-o"@ || before[1]@ == "--module-name"@,
    ensures
        request(before) is Compile,
        request(before) == request(behind),
{
    command_texts();
    reveal_with_fuel(compile_request, 4);
}

/// Without a file nothing is compiled.
pub proof fn nothing_is_compiled_without_a_file(argv: Seq<String>)
    requires
        request(argv) is Compile,
    ensures
        argv.len() >= 2,
        argv[0]@ == "compile"@,
        exists|i: int|
            1 <= i < argv.len() && #[trigger] argv[i]@ == request(argv)->input && is_plain(
                argv[i]@,
            ),
{
    files_are_arguments(argv, 1, None, None, None);
}

proof fn files_are_arguments(
    args: Seq<String>,
    i: int,
    input: Option<Seq<char>>,
    output: Option<Seq<char>>,
    module_name: Option<Seq<char>>,
)
    requires
        1 <= i,
        compile_request(args, i, input, output, module_name) is Compile,
    ensures
        ({
            let file = compile_request(args, i, input, output, module_name)->input;
            input == Some(file) || exists|k: int|
                i <= k < args.len() && #[trigger] args[k]@ == file && is_plain(args[k]@)
        }),
    decreases args.len() - i,
{
    if i < args.len() {
        if args[i]@ == "-o"@ {
            files_are_arguments(args, i + 2, input, Some(args[i + 1]@), module_name);
        } else if args[i]@ == "--module-name"@ {
            files_are_arguments(args, i + 2, input, output, Some(args[i + 1]@));
        } else if is_plain(args[i]@) && input is None {
            files_are_arguments(args, i + 1, Some(args[i]@), output, module_name);
            assert(args[i]@ == args[i]@);
        }
    }
}

/// Help is given where it is asked for and where nothing is asked, the version
/// where it is asked for, and any other first word than `compile` is refused.
pub proof fn first_words_decide(argv: Seq<String>)
    ensures
        argv.len() == 0 ==> request(argv) == CliView::Help,
        argv.len() > 0 && (argv[0]@ == "--help"@ || argv[0]@ == "-h"@) ==> request(argv)
            == CliView::Help,
        argv.len() > 0 && (argv[0]@ == "--version"@ || argv[0]@ == "-V"@) ==> request(argv)
            == CliView::Version,
        argv.len() > 0 && is_plain(argv[0]@) && argv[0]@ != "compile"@ ==> request(argv)
            == CliView::Unknown(argv[0]@),
        argv.len() == 1 && argv[0]@ == "compile"@ ==> request(argv) == CliView::Unknown(
            "compile: missing input file"@,
        ),
{
    command_texts();
    reveal_strlit("--help");
    reveal_strlit("-h");
    reveal_strlit("--version");
    reveal_strlit("-V");
    assert("--help"@.len() == 6 && "--help"@[0] == '-');
    assert("-h"@.len() == 2 && "-h"@[0] == '-' && "-h"@[1] == 'h');
    assert("--version"@.len() == 9 && "--version"@[0] == '-');
    assert("-V"@.len() == 2 && "-V"@[0] == '-' && "-V"@[1] == 'V');
}

} // verus!
