//! The compiler's command line: the options it reads, and the arguments that it hands on
//! to `clang` (everything it does not know, and everything after `--`).
use vstd::prelude::*;
use crate::text::{starts_with, starts_with_chars, str_chars, strings_view};

verus! {

/// The options of one compiler run.
#[derive(Debug, Clone)]
pub struct CliOptions {
    pub debug: bool,
    pub dump_tokens: bool,
    pub emit_ir: bool,
    pub emit_asm: bool,
    pub just_run: bool,
    pub output_file: Option<String>,
    pub input_file: Option<String>,
    pub clang_args: Vec<String>,
}

/// The options as values.
pub struct CliSpec {
    pub debug: bool,
    pub dump_tokens: bool,
    pub emit_ir: bool,
    pub emit_asm: bool,
    pub just_run: bool,
    pub output_file: Option<Seq<char>>,
    pub input_file: Option<Seq<char>>,
    pub clang_args: Seq<Seq<char>>,
}

pub open spec fn opt_view(o: Option<String>) -> Option<Seq<char>> {
    match o {
        Some(s) => Some(s@),
        None => None,
    }
}

pub open spec fn options_view(o: CliOptions) -> CliSpec {
    CliSpec {
        debug: o.debug,
        dump_tokens: o.dump_tokens,
        emit_ir: o.emit_ir,
        emit_asm: o.emit_asm,
        just_run: o.just_run,
        output_file: opt_view(o.output_file),
        input_file: opt_view(o.input_file),
        clang_args: strings_view(o.clang_args@),
    }
}

pub open spec fn no_options() -> CliSpec {
    CliSpec {
        debug: false,
        dump_tokens: false,
        emit_ir: false,
        emit_asm: false,
        just_run: false,
        output_file: None,
        input_file: None,
        clang_args: seq![],
    }
}

/// Reading the arguments from `i` on into `st`; `fwd` once `--` was read. A known flag
/// sets its option (`-S` is handed on to `clang` too); `-o` takes the next argument as the
/// output file; another argument that starts with `-` is handed on to `clang`; any other
/// argument is the input file (the last one wins).
pub open spec fn cli_from(args: Seq<Seq<char>>, i: nat, fwd: bool, st: CliSpec) -> CliSpec
    decreases args.len() - i,
{
    if i >= args.len() {
        st
    } else if fwd {
        cli_from(args, i + 1, true, CliSpec { clang_args: st.clang_args.push(args[i as int]), ..st })
    } else {
        let a = args[i as int];
        if a == "-d"@ || a == "--debug"@ {
            cli_from(args, i + 1, false, CliSpec { debug: true, ..st })
        } else if a == "--"@ {
            cli_from(args, i + 1, true, st)
        } else if a == "--dump-tokens"@ {
            cli_from(args, i + 1, false, CliSpec { dump_tokens: true, ..st })
        } else if a == "-ir"@ {
            cli_from(args, i + 1, false, CliSpec { emit_ir: true, ..st })
        } else if a == "-S"@ {
            cli_from(args, i + 1, false, CliSpec { emit_asm: true, clang_args: st.clang_args.push(a), ..st })
        } else if a == "--just-run"@ || a == "-jr"@ {
            cli_from(args, i + 1, false, CliSpec { just_run: true, ..st })
        } else if a == "-o"@ {
            if i + 1 < args.len() {
                cli_from(args, i + 2, false, CliSpec { output_file: Some(args[(i + 1) as int]), ..st })
            } else {
                st
            }
        } else if starts_with(a, "-"@) {
            cli_from(args, i + 1, false, CliSpec { clang_args: st.clang_args.push(a), ..st })
        } else {
            cli_from(args, i + 1, false, CliSpec { input_file: Some(a), ..st })
        }
    }
}

fn is_arg(t: &Vec<char>, k: &str) -> (b: bool)
    ensures
        b == (t@ == k@),
{
    let p = str_chars(k);
    if t.len() != p.len() {
        return false;
    }
    let mut i: usize = 0;
    while i < t.len()
        invariant
            t@.len() == p@.len(),
            p@ == k@,
            i <= t@.len(),
            forall|j: int| 0 <= j < i ==> t@[j] == p@[j],
        decreases t@.len() - i,
    {
        if t[i] != p[i] {
            return false;
        }
        i = i + 1;
    }
    assert(t@ =~= p@);
    true
}

proof fn lemma_push_view(v: Seq<String>, s: String)
    ensures
        strings_view(v.push(s)) == strings_view(v).push(s@),
{
    assert(strings_view(v.push(s)) =~= strings_view(v).push(s@));
}

/// Reads the command-line arguments (without the program's name).
pub fn parse_cli_args(args: &Vec<String>) -> (o: CliOptions)
    ensures
        options_view(o) == cli_from(strings_view(args@), 0, false, no_options()),
{
    let ghost av = strings_view(args@);
    let mut o = CliOptions {
        debug: false,
        dump_tokens: false,
        emit_ir: false,
        emit_asm: false,
        just_run: false,
        output_file: None,
        input_file: None,
        clang_args: Vec::new(),
    };
    assert(options_view(o) == no_options()) by {
        assert(strings_view(o.clang_args@) =~= seq![]);
    }
    let mut fwd = false;
    let mut i: usize = 0;
    let n = args.len();
    while i < n
        invariant
            n == args@.len(),
            av == strings_view(args@),
            i <= n,
            cli_from(av, i as nat, fwd, options_view(o)) == cli_from(av, 0, false, no_options()),
        decreases n - i,
    {
        let a = str_chars(args[i].as_str());
        assert(av[i as int] == args@[i as int]@);
        if fwd {
            let ghost before = o.clang_args@;
            o.clang_args.push(args[i].clone());
            proof {
                lemma_push_view(before, args@[i as int]);
            }
            i = i + 1;
            continue;
        }
        if is_arg(&a, "-d") || is_arg(&a, "--debug") {
            o.debug = true;
        } else if is_arg(&a, "--") {
            fwd = true;
        } else if is_arg(&a, "--dump-tokens") {
            o.dump_tokens = true;
        } else if is_arg(&a, "-ir") {
            o.emit_ir = true;
        } else if is_arg(&a, "-S") {
            o.emit_asm = true;
            let ghost before = o.clang_args@;
            o.clang_args.push(args[i].clone());
            proof {
                lemma_push_view(before, args@[i as int]);
            }
        } else if is_arg(&a, "--just-run") || is_arg(&a, "-jr") {
            o.just_run = true;
        } else if is_arg(&a, "-o") {
            i = i + 1;
            if i < n {
                assert(av[i as int] == args@[i as int]@);
                o.output_file = Some(args[i].clone());
            } else {
                return o;
            }
        } else if starts_with_chars(&a, &str_chars("-")) {
            let ghost before = o.clang_args@;
            o.clang_args.push(args[i].clone());
            proof {
                lemma_push_view(before, args@[i as int]);
            }
        } else {
            o.input_file = Some(args[i].clone());
        }
        i = i + 1;
    }
    o
}

/// The `clang` arguments without `-o` and the argument after it, and without `-c`, from
/// `i` on.
pub open spec fn compile_args_from(a: Seq<Seq<char>>, i: nat) -> Seq<Seq<char>>
    decreases a.len() + 1 - i,
{
    if i >= a.len() {
        seq![]
    } else if a[i as int] == "-o"@ {
        compile_args_from(a, i + 2)
    } else if a[i as int] == "-c"@ {
        compile_args_from(a, i + 1)
    } else {
        seq![a[i as int]] + compile_args_from(a, i + 1)
    }
}

/// The `clang` arguments for compiling the generated IR to an object: the user's arguments
/// without the output (`-o` and its argument) and without `-c`.
pub fn compile_stage_args(clang_args: &Vec<String>) -> (r: Vec<String>)
    ensures
        strings_view(r@) == compile_args_from(strings_view(clang_args@), 0),
{
    let ghost av = strings_view(clang_args@);
    let mut r: Vec<String> = Vec::new();
    let mut skip_next = false;
    let mut i: usize = 0;
    let n = clang_args.len();
    assert(strings_view(r@) =~= seq![]);
    while i < n
        invariant
            n == clang_args@.len(),
            av == strings_view(clang_args@),
            i <= n,
            skip_next ==> i >= 1 && av[i - 1] == "-o"@,
            strings_view(r@) + (if skip_next {
                compile_args_from(av, (i + 1) as nat)
            } else {
                compile_args_from(av, i as nat)
            }) == compile_args_from(av, 0),
        decreases n - i,
    {
        let a = str_chars(clang_args[i].as_str());
        assert(av[i as int] == clang_args@[i as int]@);
        if skip_next {
            skip_next = false;
            i = i + 1;
            continue;
        }
        if is_arg(&a, "-o") {
            skip_next = true;
            if i + 1 >= n {
                assert(compile_args_from(av, (i + 2) as nat) =~= seq![]);
            }
            i = i + 1;
            continue;
        }
        if is_arg(&a, "-c") {
            i = i + 1;
            continue;
        }
        let ghost before = r@;
        r.push(clang_args[i].clone());
        proof {
            lemma_push_view(before, clang_args@[i as int]);
            assert(strings_view(r@) + compile_args_from(av, (i + 1) as nat) =~= strings_view(before)
                + (seq![av[i as int]] + compile_args_from(av, (i + 1) as nat)));
        }
        i = i + 1;
    }
    if skip_next {
        assert(compile_args_from(av, (i + 1) as nat) =~= seq![]);
    }
    assert(compile_args_from(av, i as nat) =~= seq![]);
    assert(strings_view(r@) + seq![] =~= strings_view(r@));
    r
}

/// Whether the user asked `clang` to compile only (`-c` among the arguments).
pub fn compile_only(clang_args: &Vec<String>) -> (b: bool)
    ensures
        b == strings_view(clang_args@).contains("-c"@),
{
    let ghost av = strings_view(clang_args@);
    let mut i: usize = 0;
    while i < clang_args.len()
        invariant
            i <= clang_args@.len(),
            av == strings_view(clang_args@),
            forall|j: int| 0 <= j < i ==> av[j] != "-c"@,
        decreases clang_args@.len() - i,
    {
        assert(av[i as int] == clang_args@[i as int]@);
        if is_arg(&str_chars(clang_args[i].as_str()), "-c") {
            return true;
        }
        i = i + 1;
    }
    false
}

/// Once `--` has been read, every argument after it is handed on to `clang` unchanged, in
/// order, and no option changes.
pub proof fn law_arguments_after_double_dash_go_to_clang(args: Seq<Seq<char>>, i: nat, st: CliSpec)
    requires
        i <= args.len(),
    ensures
        cli_from(args, i, true, st) == (CliSpec {
            clang_args: st.clang_args + args.subrange(i as int, args.len() as int),
            ..st
        }),
    decreases args.len() - i,
{
    if i < args.len() {
        law_arguments_after_double_dash_go_to_clang(
            args,
            i + 1,
            CliSpec { clang_args: st.clang_args.push(args[i as int]), ..st },
        );
        assert(st.clang_args.push(args[i as int]) + args.subrange((i + 1) as int, args.len() as int)
            =~= st.clang_args + args.subrange(i as int, args.len() as int));
    } else {
        assert(st.clang_args + args.subrange(i as int, args.len() as int) =~= st.clang_args);
    }
}

} // verus!

verus! {

proof fn lemma_debug_stays(args: Seq<Seq<char>>, i: nat, fwd: bool, st: CliSpec)
    requires
        st.debug,
    ensures
        cli_from(args, i, fwd, st).debug,
    decreases args.len() - i,
{
    reveal_strlit("-d");
    reveal_strlit("--debug");
    reveal_strlit("--");
    reveal_strlit("--dump-tokens");
    reveal_strlit("-ir");
    reveal_strlit("-S");
    reveal_strlit("--just-run");
    reveal_strlit("-jr");
    reveal_strlit("-o");
    reveal_strlit("-");
    if i < args.len() {
        let a = args[i as int];
        if fwd {
            lemma_debug_stays(args, i + 1, true, CliSpec { clang_args: st.clang_args.push(a), ..st });
        } else if a == "-d"@ || a == "--debug"@ {
            lemma_debug_stays(args, i + 1, false, CliSpec { debug: true, ..st });
        } else if a == "--"@ {
            lemma_debug_stays(args, i + 1, true, st);
        } else if a == "--dump-tokens"@ {
            lemma_debug_stays(args, i + 1, false, CliSpec { dump_tokens: true, ..st });
        } else if a == "-ir"@ {
            lemma_debug_stays(args, i + 1, false, CliSpec { emit_ir: true, ..st });
        } else if a == "-S"@ {
            lemma_debug_stays(args, i + 1, false, CliSpec { emit_asm: true, clang_args: st.clang_args.push(a), ..st });
        } else if a == "--just-run"@ || a == "-jr"@ {
            lemma_debug_stays(args, i + 1, false, CliSpec { just_run: true, ..st });
        } else if a == "-o"@ {
            if i + 1 < args.len() {
                lemma_debug_stays(args, i + 2, false, CliSpec { output_file: Some(args[(i + 1) as int]), ..st });
            }
        } else if starts_with(a, "-"@) {
            lemma_debug_stays(args, i + 1, false, CliSpec { clang_args: st.clang_args.push(a), ..st });
        } else {
            lemma_debug_stays(args, i + 1, false, CliSpec { input_file: Some(a), ..st });
        }
    }
}

/// `--debug` is the long form of `-d`: read where options are read (not after `--`), it
/// sets debug mode, hands nothing on to `clang`, and the whole command line reads exactly
/// as it does with `-d` in its place.
pub proof fn law_long_debug_flag_is_d(args: Seq<Seq<char>>, i: nat, st: CliSpec)
    requires
        i < args.len(),
        args[i as int] == seq!['-', '-', 'd', 'e', 'b', 'u', 'g'],
    ensures
        cli_from(args, i, false, st) == cli_from(args.update(i as int, seq!['-', 'd']), i, false, st),
        cli_from(args, i, false, st) == cli_from(args, i + 1, false, CliSpec { debug: true, ..st }),
        cli_from(args, i, false, st).debug,
{
    reveal_strlit("-d");
    reveal_strlit("--debug");
    assert("-d"@ =~= seq!['-', 'd']);
    assert("--debug"@ =~= seq!['-', '-', 'd', 'e', 'b', 'u', 'g']);
    let args2 = args.update(i as int, seq!['-', 'd']);
    lemma_rest_same(args, args2, i + 1, false, CliSpec { debug: true, ..st });
    lemma_debug_stays(args, i + 1, false, CliSpec { debug: true, ..st });
}

proof fn lemma_rest_same(a: Seq<Seq<char>>, b: Seq<Seq<char>>, i: nat, fwd: bool, st: CliSpec)
    requires
        a.len() == b.len(),
        forall|j: int| i <= j < a.len() ==> a[j] == b[j],
    ensures
        cli_from(a, i, fwd, st) == cli_from(b, i, fwd, st),
    decreases a.len() - i,
{
    reveal_strlit("-d");
    reveal_strlit("--debug");
    reveal_strlit("--");
    reveal_strlit("--dump-tokens");
    reveal_strlit("-ir");
    reveal_strlit("-S");
    reveal_strlit("--just-run");
    reveal_strlit("-jr");
    reveal_strlit("-o");
    reveal_strlit("-");
    if i < a.len() {
        let x = a[i as int];
        assert(b[i as int] == x);
        if fwd {
            lemma_rest_same(a, b, i + 1, true, CliSpec { clang_args: st.clang_args.push(x), ..st });
        } else if x == "-d"@ || x == "--debug"@ {
            lemma_rest_same(a, b, i + 1, false, CliSpec { debug: true, ..st });
        } else if x == "--"@ {
            lemma_rest_same(a, b, i + 1, true, st);
        } else if x == "--dump-tokens"@ {
            lemma_rest_same(a, b, i + 1, false, CliSpec { dump_tokens: true, ..st });
        } else if x == "-ir"@ {
            lemma_rest_same(a, b, i + 1, false, CliSpec { emit_ir: true, ..st });
        } else if x == "-S"@ {
            lemma_rest_same(a, b, i + 1, false, CliSpec { emit_asm: true, clang_args: st.clang_args.push(x), ..st });
        } else if x == "--just-run"@ || x == "-jr"@ {
            lemma_rest_same(a, b, i + 1, false, CliSpec { just_run: true, ..st });
        } else if x == "-o"@ {
            if i + 1 < a.len() {
                assert(b[(i + 1) as int] == a[(i + 1) as int]);
                lemma_rest_same(a, b, i + 2, false, CliSpec { output_file: Some(a[(i + 1) as int]), ..st });
            }
        } else if starts_with(x, "-"@) {
            lemma_rest_same(a, b, i + 1, false, CliSpec { clang_args: st.clang_args.push(x), ..st });
        } else {
            lemma_rest_same(a, b, i + 1, false, CliSpec { input_file: Some(x), ..st });
        }
    }
}

} // verus!
