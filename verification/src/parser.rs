//! Shell-style command lines: words and quoted words, `|` and `->` pipelines, output
//! redirection with `>` / `>>`, and `~` and `${NAME}` expansion. The home directory and the
//! environment are handed in by the caller.
use vstd::prelude::*;
use crate::text::{
    alnum, char_is_alphanumeric, is_ascii_digit_char, is_ascii_letter, chars_eq, chars_to_string, is_whitespace, is_ws,
    lemma_strings_view_push, lemma_trim_left_len, lemma_ws_end, split_ws, str_chars, strings_view,
    sub_chars, sub_string, trim, trim_chars, trim_left, ws_end,
};

verus! {

#[derive(Debug, Clone)]
pub struct Command {
    pub argv: Vec<String>,
    pub raw: String,
    pub stdout_redirect: Option<(String, bool)>,
}

#[derive(Debug, Clone, PartialEq)]
pub enum PipelineMode {
    Shell,
    Stream,
}

#[derive(Debug, Clone)]
pub struct Pipeline {
    pub commands: Vec<Command>,
    pub background: bool,
    pub mode: PipelineMode,
}

/// What separates the commands of a pipeline.
pub enum Separator {
    /// `|`
    Pipe,
    /// `->`
    Arrow,
}

// ---------------------------------------------------------------------------
// Mathematical model
// ---------------------------------------------------------------------------

/// A command as texts: its words, its source text, and where its output goes (the file and
/// whether it is appended to).
pub struct CommandSpec {
    pub argv: Seq<Seq<char>>,
    pub raw: Seq<char>,
    pub redirect: Option<(Seq<char>, bool)>,
}

impl View for Command {
    type V = CommandSpec;

    open spec fn view(&self) -> CommandSpec {
        CommandSpec {
            argv: strings_view(self.argv@),
            raw: self.raw@,
            redirect: match self.stdout_redirect {
                Some((f, a)) => Some((f@, a)),
                None => None,
            },
        }
    }
}

pub open spec fn commands_view(v: Seq<Command>) -> Seq<CommandSpec> {
    v.map_values(|c: Command| c@)
}

pub open spec fn is_quote(c: char) -> bool {
    c == '"' || c == '\''
}

/// The first position from `p` on that holds `q`, or the length.
pub open spec fn find_char(s: Seq<char>, p: nat, q: char) -> nat
    decreases s.len() - p,
{
    if p < s.len() && s[p as int] != q {
        find_char(s, p + 1, q)
    } else {
        p
    }
}

pub open spec fn word_stop(c: char) -> bool {
    is_ws(c) || c == '|' || c == '#'
}

/// The first position from `p` on that ends an unquoted word.
pub open spec fn word_end(s: Seq<char>, p: nat) -> nat
    decreases s.len() - p,
{
    if p < s.len() && !word_stop(s[p as int]) {
        word_end(s, p + 1)
    } else {
        p
    }
}

/// The words of `s` from `p` on: runs of characters up to whitespace, `|` or `#`, and quoted
/// runs (without their quotes; an empty quoted run gives no word). A `|` outside quotes is a
/// word of its own; a `#` outside quotes starts a comment, which runs to the end.
pub open spec fn words_from(s: Seq<char>, p: nat) -> Seq<Seq<char>>
    decreases s.len() - p,
{
    if p >= s.len() {
        seq![]
    } else if is_ws(s[p as int]) {
        words_from(s, p + 1)
    } else if is_quote(s[p as int]) {
        let e = find_char(s, p + 1, s[p as int]);
        let tok = s.subrange((p + 1) as int, e as int);
        let next = if e < s.len() {
            e + 1
        } else {
            e
        };
        if p < next <= s.len() && p + 1 <= e {
            if tok.len() > 0 {
                seq![tok] + words_from(s, next)
            } else {
                words_from(s, next)
            }
        } else {
            seq![]
        }
    } else if s[p as int] == '#' {
        seq![]
    } else if s[p as int] == '|' {
        seq![seq!['|']] + words_from(s, p + 1)
    } else {
        let e = word_end(s, p);
        if p < e <= s.len() {
            seq![s.subrange(p as int, e as int)] + words_from(s, e)
        } else {
            seq![]
        }
    }
}

/// Splits `s` at the separators that stand outside quotes; `cur` is the piece being read,
/// `parts` the finished (trimmed) pieces, `quote` the quote that is open.
pub open spec fn split_from(
    s: Seq<char>,
    p: nat,
    sep: Separator,
    cur: Seq<char>,
    parts: Seq<Seq<char>>,
    quote: Option<char>,
) -> Seq<Seq<char>>
    decreases s.len() - p,
{
    if p >= s.len() {
        if trim(cur).len() > 0 {
            parts.push(trim(cur))
        } else {
            parts
        }
    } else {
        let c = s[p as int];
        match quote {
            Some(q) => split_from(
                s,
                p + 1,
                sep,
                cur.push(c),
                parts,
                if c == q {
                    None
                } else {
                    Some(q)
                },
            ),
            None => if is_quote(c) {
                split_from(s, p + 1, sep, cur.push(c), parts, Some(c))
            } else if sep is Pipe && c == '|' {
                split_from(s, p + 1, sep, seq![], parts.push(trim(cur)), None)
            } else if sep is Arrow && c == '-' && p + 1 < s.len() && s[(p + 1) as int] == '>' {
                split_from(s, p + 2, sep, seq![], parts.push(trim(cur)), None)
            } else {
                split_from(s, p + 1, sep, cur.push(c), parts, None)
            },
        }
    }
}

pub open spec fn split_spec(s: Seq<char>, sep: Separator) -> Seq<Seq<char>> {
    split_from(s, 0, sep, seq![], seq![], None)
}

/// `w` with a leading `~` replaced by the home directory, when one is known.
pub open spec fn tilde(w: Seq<char>, home: Option<Seq<char>>) -> Seq<char> {
    match home {
        Some(h) => if w.len() > 0 && w[0] == '~' {
            h + w.drop_first()
        } else {
            w
        },
        None => w,
    }
}

pub open spec fn tilde_all(v: Seq<Seq<char>>, home: Option<Seq<char>>) -> Seq<Seq<char>> {
    v.map_values(|w: Seq<char>| tilde(w, home))
}

pub open spec fn is_redirect(w: Seq<char>) -> bool {
    w == seq!['>'] || w == seq!['>', '>']
}

/// The words without the `>` / `>>` operators and their targets, and the last redirection.
pub open spec fn redirects(
    argv: Seq<Seq<char>>,
    i: nat,
    kept: Seq<Seq<char>>,
    redirect: Option<(Seq<char>, bool)>,
) -> (Seq<Seq<char>>, Option<(Seq<char>, bool)>)
    decreases argv.len() - i,
{
    if i >= argv.len() {
        (kept, redirect)
    } else if is_redirect(argv[i as int]) && i + 1 < argv.len() {
        redirects(argv, i + 2, kept, Some((argv[(i + 1) as int], argv[i as int] == seq!['>', '>'])))
    } else {
        redirects(argv, i + 1, kept.push(argv[i as int]), redirect)
    }
}

/// The command that a piece of a pipeline describes.
pub open spec fn command_of(piece: Seq<char>, home: Option<Seq<char>>) -> CommandSpec {
    let raw = trim(piece);
    let r = redirects(tilde_all(words_from(raw, 0), home), 0, seq![], None);
    CommandSpec { argv: r.0, raw, redirect: r.1 }
}

/// The commands of `pieces[i..]` that have at least one word, appended to `acc`.
pub open spec fn commands_from(
    pieces: Seq<Seq<char>>,
    i: nat,
    home: Option<Seq<char>>,
    acc: Seq<CommandSpec>,
) -> Seq<CommandSpec>
    decreases pieces.len() - i,
{
    if i >= pieces.len() {
        acc
    } else {
        let c = command_of(pieces[i as int], home);
        commands_from(
            pieces,
            i + 1,
            home,
            if c.argv.len() > 0 {
                acc.push(c)
            } else {
                acc
            },
        )
    }
}

pub open spec fn trim_end_amp(t: Seq<char>) -> Seq<char>
    decreases t.len(),
{
    if t.len() > 0 && t.last() == '&' {
        trim_end_amp(t.drop_last())
    } else {
        t
    }
}

pub open spec fn is_background(line: Seq<char>) -> bool {
    trim(line).len() > 0 && trim(line).last() == '&'
}

/// The line without the trailing `&` of a background pipeline.
pub open spec fn pipeline_body(line: Seq<char>) -> Seq<char> {
    if is_background(line) {
        trim(trim_end_amp(line))
    } else {
        line
    }
}

pub open spec fn is_stream(line: Seq<char>) -> bool {
    split_spec(pipeline_body(line), Separator::Arrow).len() > 1
}

pub open spec fn pipeline_pieces(line: Seq<char>) -> Seq<Seq<char>> {
    if is_stream(line) {
        split_spec(pipeline_body(line), Separator::Arrow)
    } else {
        split_spec(pipeline_body(line), Separator::Pipe)
    }
}

/// The commands of a pipeline line.
pub open spec fn pipeline_commands(line: Seq<char>, home: Option<Seq<char>>) -> Seq<CommandSpec> {
    commands_from(pipeline_pieces(line), 0, home, seq![])
}

pub open spec fn env_name_char(c: char) -> bool {
    alnum(c) || c == '_'
}

pub open spec fn env_name_end(s: Seq<char>, p: nat) -> nat
    decreases s.len() - p,
{
    if p < s.len() && env_name_char(s[p as int]) {
        env_name_end(s, p + 1)
    } else {
        p
    }
}

/// The value of the first variable named `name`.
pub open spec fn env_lookup(vars: Seq<(Seq<char>, Seq<char>)>, name: Seq<char>) -> Option<
    Seq<char>,
>
    decreases vars.len(),
{
    if vars.len() == 0 {
        None
    } else if vars[0].0 == name {
        Some(vars[0].1)
    } else {
        env_lookup(vars.drop_first(), name)
    }
}

/// `${NAME}` replaced by the variable's value. Where the braces are not closed right after
/// the name, or the variable is not set, the `$` stays and the `{`, the name and the
/// character after it are dropped.
pub open spec fn expand_from(s: Seq<char>, p: nat, vars: Seq<(Seq<char>, Seq<char>)>) -> Seq<char>
    decreases s.len() - p,
{
    if p >= s.len() {
        seq![]
    } else if s[p as int] == '$' && p + 1 < s.len() && s[(p + 1) as int] == '{' {
        let e = env_name_end(s, p + 2);
        let name = s.subrange((p + 2) as int, e as int);
        if p < e <= s.len() {
            if e < s.len() && s[e as int] == '}' && env_lookup(vars, name) is Some {
                env_lookup(vars, name)->Some_0 + expand_from(s, e + 1, vars)
            } else {
                seq!['$'] + expand_from(
                    s,
                    if e < s.len() {
                        e + 1
                    } else {
                        e
                    },
                    vars,
                )
            }
        } else {
            seq![]
        }
    } else {
        seq![s[p as int]] + expand_from(s, p + 1, vars)
    }
}

pub open spec fn vars_view(v: Seq<(String, String)>) -> Seq<(Seq<char>, Seq<char>)> {
    v.map_values(|e: (String, String)| (e.0@, e.1@))
}

pub open spec fn expand_word(w: Seq<char>, vars: Seq<(Seq<char>, Seq<char>)>) -> Seq<char> {
    if w.contains('$') {
        expand_from(w, 0, vars)
    } else {
        w
    }
}

// ---------------------------------------------------------------------------
// Bounds on the model
// ---------------------------------------------------------------------------

proof fn lemma_find_char(s: Seq<char>, p: nat, q: char)
    requires
        p <= s.len(),
    ensures
        p <= find_char(s, p, q) <= s.len(),
        forall|i: int| p <= i < find_char(s, p, q) ==> s[i] != q,
        find_char(s, p, q) < s.len() ==> s[find_char(s, p, q) as int] == q,
    decreases s.len() - p,
{
    if p < s.len() && s[p as int] != q {
        lemma_find_char(s, p + 1, q);
    }
}

proof fn lemma_word_end(s: Seq<char>, p: nat)
    requires
        p <= s.len(),
    ensures
        p <= word_end(s, p) <= s.len(),
        word_end(s, p) < s.len() ==> word_stop(s[word_end(s, p) as int]),
    decreases s.len() - p,
{
    if p < s.len() && !word_stop(s[p as int]) {
        lemma_word_end(s, p + 1);
    }
}

proof fn lemma_env_name_end(s: Seq<char>, p: nat)
    requires
        p <= s.len(),
    ensures
        p <= env_name_end(s, p) <= s.len(),
    decreases s.len() - p,
{
    if p < s.len() && env_name_char(s[p as int]) {
        lemma_env_name_end(s, p + 1);
    }
}

// ---------------------------------------------------------------------------
// Words
// ---------------------------------------------------------------------------

/// The words of `s` (see `words_from`).
fn words(s: &Vec<char>) -> (r: Vec<String>)
    ensures
        words_from(s@, 0) == strings_view(r@),
{
    let n = s.len();
    let mut argv: Vec<String> = Vec::new();
    let mut p: usize = 0;
    assert(strings_view(argv@) =~= seq![]);
    while p < n
        invariant
            n == s@.len(),
            p <= n,
            strings_view(argv@) + words_from(s@, p as nat) == words_from(s@, 0),
        decreases n - p,
    {
        let c = s[p];
        if is_whitespace(c) {
            assert(words_from(s@, p as nat) == words_from(s@, (p + 1) as nat));
            p = p + 1;
        } else if c == '"' || c == '\'' {
            proof {
                lemma_find_char(s@, (p + 1) as nat, c);
            }
            let mut e = p + 1;
            while e < n && s[e] != c
                invariant
                    n == s@.len(),
                    p + 1 <= e <= n,
                    find_char(s@, e as nat, c) == find_char(s@, (p + 1) as nat, c),
                decreases n - e,
            {
                e = e + 1;
            }
            let ghost tok = s@.subrange(p + 1, e as int);
            let ghost old_argv = strings_view(argv@);
            if e > p + 1 {
                let w = sub_string(s, p + 1, e);
                proof {
                    lemma_strings_view_push(argv@, w);
                }
                argv.push(w);
            }
            p = if e < n {
                e + 1
            } else {
                e
            };
            proof {
                if tok.len() > 0 {
                    assert(old_argv + (seq![tok] + words_from(s@, p as nat)) == old_argv.push(tok)
                        + words_from(s@, p as nat));
                }
            }
        } else if c == '#' {
            assert(strings_view(argv@) + seq![] =~= strings_view(argv@));
            return argv;
        } else if c == '|' {
            let ghost old_argv = strings_view(argv@);
            let bar = vec!['|'];
            assert(bar@ =~= seq!['|']);
            let w = chars_to_string(&bar);
            assert(words_from(s@, p as nat) == seq![seq!['|']] + words_from(s@, (p + 1) as nat));
            proof {
                lemma_strings_view_push(argv@, w);
                assert(old_argv + (seq![seq!['|']] + words_from(s@, (p + 1) as nat)) == old_argv.push(
                    seq!['|'],
                ) + words_from(s@, (p + 1) as nat));
            }
            argv.push(w);
            p = p + 1;
        } else {
            proof {
                lemma_word_end(s@, p as nat);
            }
            let mut e = p;
            while e < n && !(is_whitespace(s[e]) || s[e] == '|' || s[e] == '#')
                invariant
                    n == s@.len(),
                    p <= e <= n,
                    word_end(s@, e as nat) == word_end(s@, p as nat),
                decreases n - e,
            {
                e = e + 1;
            }
            let ghost tok = s@.subrange(p as int, e as int);
            let ghost old_argv = strings_view(argv@);
            let w = sub_string(s, p, e);
            proof {
                lemma_strings_view_push(argv@, w);
            }
            argv.push(w);
            p = e;
            proof {
                assert(old_argv + (seq![tok] + words_from(s@, p as nat)) == old_argv.push(tok)
                    + words_from(s@, p as nat));
            }
        }
    }
    assert(strings_view(argv@) + seq![] =~= strings_view(argv@));
    argv
}

/// The words of a command line: runs of characters up to whitespace, `|` or `#`, and
/// single- or double-quoted runs without their quotes; a `|` outside quotes is a word of its
/// own, and a `#` outside quotes starts a comment that is dropped.
pub fn parse_line(line: &str) -> (argv: Vec<String>)
    ensures
        strings_view(argv@) == words_from(line@, 0),
{
    let s = str_chars(line);
    words(&s)
}

// ---------------------------------------------------------------------------
// Pipelines
// ---------------------------------------------------------------------------

/// Splits `line` at the separators that stand outside quotes; each piece is trimmed and an
/// empty last piece is dropped.
fn split_unquoted(line: &Vec<char>, sep: Separator) -> (parts: Vec<Vec<char>>)
    ensures
        parts@.map_values(|p: Vec<char>| p@) == split_spec(line@, sep),
{
    let n = line.len();
    let mut parts: Vec<Vec<char>> = Vec::new();
    let mut current: Vec<char> = Vec::new();
    let mut in_quote: Option<char> = None;
    let mut i: usize = 0;
    let ghost target = split_spec(line@, sep);
    assert(parts@.map_values(|p: Vec<char>| p@) =~= seq![]);
    while i < n
        invariant
            n == line@.len(),
            i <= n,
            split_from(line@, i as nat, sep, current@, parts@.map_values(|p: Vec<char>| p@), in_quote)
                == target,
        decreases n - i,
    {
        let ch = line[i];
        match in_quote {
            Some(q) => {
                if ch == q {
                    in_quote = None;
                }
                current.push(ch);
                i = i + 1;
            },
            None => {
                if ch == '"' || ch == '\'' {
                    in_quote = Some(ch);
                    current.push(ch);
                    i = i + 1;
                } else if (match sep {
                    Separator::Pipe => true,
                    _ => false,
                }) && ch == '|' {
                    let piece = trim_chars(&current);
                    let ghost old_parts = parts@;
                    parts.push(piece);
                    assert(parts@.map_values(|p: Vec<char>| p@) =~= old_parts.map_values(
                        |p: Vec<char>| p@,
                    ).push(piece@));
                    current = Vec::new();
                    i = i + 1;
                } else if (match sep {
                    Separator::Arrow => true,
                    _ => false,
                }) && ch == '-' && i + 1 < n && line[i + 1] == '>' {
                    let piece = trim_chars(&current);
                    let ghost old_parts = parts@;
                    parts.push(piece);
                    assert(parts@.map_values(|p: Vec<char>| p@) =~= old_parts.map_values(
                        |p: Vec<char>| p@,
                    ).push(piece@));
                    current = Vec::new();
                    i = i + 2;
                } else {
                    current.push(ch);
                    i = i + 1;
                }
            },
        }
    }
    let last = trim_chars(&current);
    if last.len() > 0 {
        let ghost old_parts = parts@;
        parts.push(last);
        assert(parts@.map_values(|p: Vec<char>| p@) =~= old_parts.map_values(|p: Vec<char>| p@).push(
            last@,
        ));
    }
    parts
}

/// The words with the `>` / `>>` operators and their targets taken out, and the last
/// redirection they name.
fn take_redirects(argv: &Vec<String>) -> (r: (Vec<String>, Option<(String, bool)>))
    ensures
        redirects(strings_view(argv@), 0, seq![], None) == (strings_view(r.0@), match r.1 {
            Some((f, a)) => Some((f@, a)),
            None => None,
        }),
{
    let ghost av = strings_view(argv@);
    let mut cleaned: Vec<String> = Vec::new();
    let mut stdout_redirect: Option<(String, bool)> = None;
    let mut i: usize = 0;
    let gt = vec!['>'];
    let gtgt = vec!['>', '>'];
    assert(strings_view(cleaned@) =~= seq![]);
    while i < argv.len()
        invariant
            av == strings_view(argv@),
            i <= argv@.len(),
            gt@ == seq!['>'],
            gtgt@ == seq!['>', '>'],
            redirects(av, i as nat, strings_view(cleaned@), match stdout_redirect {
                Some((f, a)) => Some((f@, a)),
                None => None,
            }) == redirects(av, 0, seq![], None),
        decreases argv@.len() - i,
    {
        let w = str_chars(argv[i].as_str());
        let is_gt = chars_eq(&w, &gt);
        let is_gtgt = chars_eq(&w, &gtgt);
        if (is_gt || is_gtgt) && i + 1 < argv.len() {
            stdout_redirect = Some((argv[i + 1].clone(), is_gtgt));
            i = i + 2;
        } else {
            let a = argv[i].clone();
            proof {
                lemma_strings_view_push(cleaned@, a);
            }
            cleaned.push(a);
            i = i + 1;
        }
    }
    (cleaned, stdout_redirect)
}

/// The command that one piece of a pipeline describes.
fn command_from_piece(piece: &Vec<char>, home: Option<&str>) -> (c: Command)
    ensures
        command_of(piece@, home_view(home)) == c@,
{
    let raw = trim_chars(piece);
    let mut argv = words(&raw);
    expand_tilde(&mut argv, home);
    let (cleaned, stdout_redirect) = take_redirects(&argv);
    Command { argv: cleaned, raw: chars_to_string(&raw), stdout_redirect }
}

pub open spec fn home_view(home: Option<&str>) -> Option<Seq<char>> {
    match home {
        Some(h) => Some(h@),
        None => None,
    }
}

/// Reads a pipeline: a trailing `&` runs it in the background; `->` between commands makes
/// a stream pipeline, else the commands are separated by `|`. Each command's words are read
/// as `parse_line` reads them, `~` is expanded with `home`, and `>` / `>>` redirections are
/// taken out; commands without words are dropped.
pub fn parse_pipeline(line: &str, home: Option<&str>) -> (p: Pipeline)
    ensures
        p.background == is_background(line@),
        (p.mode == PipelineMode::Stream) == is_stream(line@),
        pipeline_commands(line@, home_view(home)) == commands_view(p.commands@),
{
    let chars = str_chars(line);
    let trimmed = trim_chars(&chars);
    let background = trimmed.len() > 0 && trimmed[trimmed.len() - 1] == '&';
    let body = if background {
        let mut k = chars.len();
        assert(chars@.subrange(0, k as int) =~= chars@);
        while k > 0 && chars[k - 1] == '&'
            invariant
                k <= chars@.len(),
                trim_end_amp(chars@.subrange(0, k as int)) == trim_end_amp(chars@),
            decreases k,
        {
            assert(chars@.subrange(0, k - 1) =~= chars@.subrange(0, k as int).drop_last());
            k = k - 1;
        }
        trim_chars(&sub_chars(&chars, 0, k))
    } else {
        chars
    };
    let arrow_parts = split_unquoted(&body, Separator::Arrow);
    let mode = if arrow_parts.len() > 1 {
        PipelineMode::Stream
    } else {
        PipelineMode::Shell
    };
    let pieces = match mode {
        PipelineMode::Stream => arrow_parts,
        PipelineMode::Shell => split_unquoted(&body, Separator::Pipe),
    };
    let ghost pv = pieces@.map_values(|p: Vec<char>| p@);
    let mut commands: Vec<Command> = Vec::new();
    let mut i: usize = 0;
    assert(commands_view(commands@) =~= seq![]);
    while i < pieces.len()
        invariant
            i <= pieces@.len(),
            pv == pieces@.map_values(|p: Vec<char>| p@),
            pv == pipeline_pieces(line@),
            commands_from(pv, i as nat, home_view(home), commands_view(commands@))
                == pipeline_commands(line@, home_view(home)),
        decreases pieces@.len() - i,
    {
        let cmd = command_from_piece(&pieces[i], home);
        if cmd.argv.len() > 0 {
            let ghost old_cmds = commands@;
            commands.push(cmd);
            assert(commands_view(commands@) =~= commands_view(old_cmds).push(cmd@));
        }
        i = i + 1;
    }
    Pipeline { commands, background, mode }
}

/// Replaces a leading `~` of each word with `home`, when `home` is given (the caller reads
/// it from the environment's `HOME`).
pub fn expand_tilde(argv: &mut Vec<String>, home: Option<&str>)
    ensures
        strings_view(final(argv)@) == tilde_all(strings_view(old(argv)@), home_view(home)),
{
    let h = match home {
        Some(h) => str_chars(h),
        None => return,
    };
    let ghost orig = strings_view(argv@);
    let mut i: usize = 0;
    while i < argv.len()
        invariant
            i <= argv@.len(),
            orig.len() == argv@.len(),
            home_view(home) == Some(h@),
            forall|j: int| 0 <= j < i ==> (#[trigger] argv@[j])@ == tilde(orig[j], Some(h@)),
            forall|j: int| i <= j < argv@.len() ==> (#[trigger] argv@[j])@ == orig[j],
        decreases argv@.len() - i,
    {
        let w = str_chars(argv[i].as_str());
        if w.len() > 0 && w[0] == '~' {
            let mut nw: Vec<char> = h.clone();
            let mut rest = sub_chars(&w, 1, w.len());
            nw.append(&mut rest);
            proof {
                assert(w@.drop_first() =~= w@.subrange(1, w@.len() as int));
            }
            let ns = chars_to_string(&nw);
            argv.set(i, ns);
        }
        i = i + 1;
    }
    assert(strings_view(argv@) =~= tilde_all(orig, home_view(home)));
}

/// Expands `${NAME}` in every word that holds a `$`, with the variables `vars` (name and
/// value, as the caller reads them from the environment).
pub fn expand_env_vars(argv: &mut Vec<String>, vars: &Vec<(String, String)>)
    ensures
        strings_view(final(argv)@) == strings_view(old(argv)@).map_values(
            |w: Seq<char>| expand_word(w, vars_view(vars@)),
        ),
{
    let ghost orig = strings_view(argv@);
    let mut i: usize = 0;
    while i < argv.len()
        invariant
            i <= argv@.len(),
            orig.len() == argv@.len(),
            forall|j: int|
                0 <= j < i ==> (#[trigger] argv@[j])@ == expand_word(orig[j], vars_view(vars@)),
            forall|j: int| i <= j < argv@.len() ==> (#[trigger] argv@[j])@ == orig[j],
        decreases argv@.len() - i,
    {
        let w = str_chars(argv[i].as_str());
        if contains_dollar(&w) {
            let e = expand_env_token(&w, vars);
            argv.set(i, e);
        }
        i = i + 1;
    }
    assert(strings_view(argv@) =~= orig.map_values(|w: Seq<char>| expand_word(w, vars_view(vars@))));
}

fn contains_dollar(w: &Vec<char>) -> (b: bool)
    ensures
        b == w@.contains('$'),
{
    let mut i: usize = 0;
    while i < w.len()
        invariant
            i <= w@.len(),
            forall|j: int| 0 <= j < i ==> w@[j] != '$',
        decreases w@.len() - i,
    {
        if w[i] == '$' {
            assert(w@[i as int] == '$');
            return true;
        }
        i = i + 1;
    }
    false
}

/// The value of the first variable in `vars` named `name`.
fn lookup_var(vars: &Vec<(String, String)>, name: &Vec<char>) -> (r: Option<Vec<char>>)
    ensures
        match r {
            Some(v) => env_lookup(vars_view(vars@), name@) == Some(v@),
            None => env_lookup(vars_view(vars@), name@) is None,
        },
{
    let ghost vv = vars_view(vars@);
    let mut i: usize = 0;
    assert(vv.subrange(0, vv.len() as int) =~= vv);
    while i < vars.len()
        invariant
            i <= vars@.len(),
            vv == vars_view(vars@),
            env_lookup(vv.subrange(i as int, vv.len() as int), name@) == env_lookup(vv, name@),
        decreases vars@.len() - i,
    {
        let k = str_chars(vars[i].0.as_str());
        let ghost tail = vv.subrange(i as int, vv.len() as int);
        assert(tail.drop_first() =~= vv.subrange(i + 1, vv.len() as int));
        if chars_eq(&k, name) {
            return Some(str_chars(vars[i].1.as_str()));
        }
        i = i + 1;
    }
    None
}

/// `s` with `${NAME}` replaced as `expand_from` describes.
fn expand_env_token(s: &Vec<char>, vars: &Vec<(String, String)>) -> (r: String)
    ensures
        r@ == expand_from(s@, 0, vars_view(vars@)),
{
    let ghost vv = vars_view(vars@);
    let n = s.len();
    let mut result: Vec<char> = Vec::new();
    let mut p: usize = 0;
    while p < n
        invariant
            n == s@.len(),
            p <= n,
            vv == vars_view(vars@),
            result@ + expand_from(s@, p as nat, vv) == expand_from(s@, 0, vv),
        decreases n - p,
    {
        let c = s[p];
        let ghost old_result = result@;
        if c == '$' && p + 1 < n && s[p + 1] == '{' {
            proof {
                lemma_env_name_end(s@, (p + 2) as nat);
            }
            let mut e = p + 2;
            while e < n && (char_is_alphanumeric(s[e]) || s[e] == '_')
                invariant
                    n == s@.len(),
                    p + 2 <= e <= n,
                    env_name_end(s@, e as nat) == env_name_end(s@, (p + 2) as nat),
                decreases n - e,
            {
                e = e + 1;
            }
            let name = sub_chars(s, p + 2, e);
            let mut expanded = false;
            if e < n && s[e] == '}' {
                match lookup_var(vars, &name) {
                    Some(mut val) => {
                        result.append(&mut val);
                        p = e + 1;
                        expanded = true;
                    },
                    None => {},
                }
            }
            if !expanded {
                result.push('$');
                p = if e < n {
                    e + 1
                } else {
                    e
                };
            }
            proof {
                let tail = expand_from(s@, p as nat, vv);
                if expanded {
                    assert(old_result + (env_lookup(vv, name@)->Some_0 + tail) == result@ + tail);
                } else {
                    assert(old_result + (seq!['$'] + tail) == result@ + tail);
                }
            }
        } else {
            result.push(c);
            p = p + 1;
            proof {
                let tail = expand_from(s@, p as nat, vv);
                assert(old_result + (seq![c] + tail) == result@ + tail);
            }
        }
    }
    assert(result@ + seq![] =~= result@);
    chars_to_string(&result)
}

} // verus!

verus! {

/// Whether `s` holds `${` from position `p` on.
pub open spec fn has_brace_ref(s: Seq<char>, p: nat) -> bool {
    exists|i: int| p <= i && i + 1 < s.len() && #[trigger] s[i] == '$' && s[i + 1] == '{'
}

proof fn lemma_expand_plain(s: Seq<char>, p: nat, vars: Seq<(Seq<char>, Seq<char>)>)
    requires
        p <= s.len(),
        !has_brace_ref(s, p),
    ensures
        expand_from(s, p, vars) == s.subrange(p as int, s.len() as int),
    decreases s.len() - p,
{
    if p < s.len() {
        assert(!(s[p as int] == '$' && p + 1 < s.len() && s[(p + 1) as int] == '{'));
        assert(!has_brace_ref(s, p + 1)) by {
            if has_brace_ref(s, p + 1) {
                let i = choose|i: int|
                    p + 1 <= i && i + 1 < s.len() && #[trigger] s[i] == '$' && s[i + 1] == '{';
                assert(p <= i);
            }
        }
        lemma_expand_plain(s, p + 1, vars);
        assert(seq![s[p as int]] + s.subrange((p + 1) as int, s.len() as int) =~= s.subrange(
            p as int,
            s.len() as int,
        ));
    } else {
        assert(s.subrange(p as int, s.len() as int) =~= seq![]);
    }
}

/// Expanding environment variables changes only words that hold `${`: any other word,
/// with any variables, is left as it is.
pub proof fn law_expand_changes_only_braced_refs(w: Seq<char>, vars: Seq<(Seq<char>, Seq<char>)>)
    requires
        !has_brace_ref(w, 0),
    ensures
        expand_word(w, vars) == w,
{
    lemma_expand_plain(w, 0, vars);
    assert(w.subrange(0, w.len() as int) =~= w);
}

} // verus!

verus! {

// ---------------------------------------------------------------------------
// Laws of words and pipelines
// ---------------------------------------------------------------------------

/// No quote, `#` or `|` in `s`.
pub open spec fn plain_line(s: Seq<char>) -> bool {
    forall|j: int| 0 <= j < s.len() ==> !is_quote(#[trigger] s[j]) && s[j] != '#' && s[j] != '|'
}

proof fn lemma_word_end_plain(s: Seq<char>, p: nat, j: nat)
    requires
        p <= j <= s.len(),
        plain_line(s),
    ensures
        word_end(s, j) == p + ws_end(s.subrange(p as int, s.len() as int), (j - p) as nat),
    decreases s.len() - j,
{
    let x = s.subrange(p as int, s.len() as int);
    if j < s.len() {
        assert(x[j - p] == s[j as int]);
        if !word_stop(s[j as int]) {
            lemma_word_end_plain(s, p, j + 1);
        }
    }
}

proof fn lemma_words_plain(s: Seq<char>, p: nat)
    requires
        p <= s.len(),
        plain_line(s),
    ensures
        words_from(s, p) == split_ws(s.subrange(p as int, s.len() as int)),
    decreases s.len() - p,
{
    let x = s.subrange(p as int, s.len() as int);
    lemma_trim_left_len(x);
    if p >= s.len() {
        assert(x.len() == 0);
    } else if is_ws(s[p as int]) {
        lemma_words_plain(s, p + 1);
        let y = s.subrange((p + 1) as int, s.len() as int);
        assert(x.drop_first() =~= y);
        assert(trim_left(x) == trim_left(y));
        lemma_trim_left_len(y);
    } else {
        assert(trim_left(x) == x);
        lemma_word_end_plain(s, p, p);
        lemma_word_end(s, p);
        lemma_word_end(s, p + 1);
        lemma_ws_end(x, 0);
        let e = word_end(s, p);
        assert(!is_quote(s[p as int]) && s[p as int] != '#' && s[p as int] != '|');
        assert(e > p);
        lemma_words_plain(s, e);
        assert(x.subrange(0, (e - p) as int) =~= s.subrange(p as int, e as int));
        assert(x.subrange((e - p) as int, x.len() as int) =~= s.subrange(e as int, s.len() as int));
    }
}

/// On a line without quotes, `#` or `|`, the words are the runs of non-whitespace
/// characters, as `str::split_whitespace` gives them.
pub proof fn law_plain_words_split_at_whitespace(line: Seq<char>)
    requires
        plain_line(line),
    ensures
        words_from(line, 0) == split_ws(line),
{
    lemma_words_plain(line, 0);
    assert(line.subrange(0, line.len() as int) =~= line);
}

proof fn lemma_word_end_take(s: Seq<char>, k: nat, j: nat)
    requires
        j <= k < s.len(),
        s[k as int] == '#',
    ensures
        word_end(s, j) == word_end(s.take(k as int), j),
        word_end(s, j) <= k,
    decreases k - j,
{
    let t = s.take(k as int);
    if j < k {
        assert(t[j as int] == s[j as int]);
        if !word_stop(s[j as int]) {
            lemma_word_end_take(s, k, j + 1);
        }
    }
}

proof fn lemma_words_take(s: Seq<char>, k: nat, p: nat)
    requires
        p <= k < s.len(),
        s[k as int] == '#',
        forall|j: int| 0 <= j < k ==> !is_quote(#[trigger] s[j]),
    ensures
        words_from(s, p) == words_from(s.take(k as int), p),
    decreases k - p,
{
    let t = s.take(k as int);
    if p < k {
        let c = s[p as int];
        assert(t[p as int] == c);
        if is_ws(c) || c == '|' {
            lemma_words_take(s, k, p + 1);
        } else if c != '#' {
            lemma_word_end_take(s, k, p);
            lemma_word_end(s, p);
            lemma_word_end(s, p + 1);
            let e = word_end(s, p);
            lemma_words_take(s, k, e);
            assert(s.subrange(p as int, e as int) =~= t.subrange(p as int, e as int));
        }
    }
}

/// A `#` outside quotes starts a comment that runs to the end of the line: where no quote
/// comes before the first `#`, the words of the line are those of the text before it.
pub proof fn law_hash_starts_a_comment(line: Seq<char>, k: int)
    requires
        0 <= k < line.len(),
        line[k] == '#',
        forall|j: int| 0 <= j < k ==> !is_quote(#[trigger] line[j]),
    ensures
        words_from(line, 0) == words_from(line.take(k), 0),
{
    lemma_words_take(line, k as nat, 0);
}

proof fn lemma_redirects_kept(
    argv: Seq<Seq<char>>,
    i: nat,
    kept: Seq<Seq<char>>,
    redirect: Option<(Seq<char>, bool)>,
)
    requires
        forall|j: int| 0 <= j < kept.len() ==> !is_redirect(#[trigger] kept[j]),
    ensures
        forall|j: int|
            0 <= j < redirects(argv, i, kept, redirect).0.len() - 1 ==> !is_redirect(
                #[trigger] redirects(argv, i, kept, redirect).0[j],
            ),
    decreases argv.len() - i,
{
    if i >= argv.len() {
        assert(redirects(argv, i, kept, redirect) == (kept, redirect));
    } else if is_redirect(argv[i as int]) && i + 1 < argv.len() {
        let red2 = Some((argv[(i + 1) as int], argv[i as int] == seq!['>', '>']));
        lemma_redirects_kept(argv, i + 2, kept, red2);
        assert(redirects(argv, i, kept, redirect) == redirects(argv, i + 2, kept, red2));
    } else {
        let w = argv[i as int];
        let k2 = kept.push(w);
        assert(redirects(argv, i, kept, redirect) == redirects(argv, i + 1, k2, redirect));
        if !is_redirect(w) {
            assert forall|j: int| 0 <= j < k2.len() implies !is_redirect(#[trigger] k2[j]) by {
                if j < kept.len() {
                    assert(k2[j] == kept[j]);
                }
            }
            lemma_redirects_kept(argv, i + 1, k2, redirect);
        } else {
            assert(redirects(argv, i + 1, k2, redirect) == (k2, redirect));
            assert forall|j: int| 0 <= j < k2.len() - 1 implies !is_redirect(#[trigger] k2[j]) by {
                assert(k2[j] == kept[j]);
            }
        }
    }
}

/// Every command has at least one word, and `>` or `>>` stands only as a last word.
pub open spec fn well_formed_command(c: CommandSpec) -> bool {
    &&& c.argv.len() > 0
    &&& forall|j: int| 0 <= j < c.argv.len() - 1 ==> !is_redirect(#[trigger] c.argv[j])
}

proof fn lemma_commands_from(
    pieces: Seq<Seq<char>>,
    i: nat,
    home: Option<Seq<char>>,
    acc: Seq<CommandSpec>,
)
    requires
        forall|j: int| 0 <= j < acc.len() ==> well_formed_command(#[trigger] acc[j]),
    ensures
        forall|j: int|
            0 <= j < commands_from(pieces, i, home, acc).len() ==> well_formed_command(
                #[trigger] commands_from(pieces, i, home, acc)[j],
            ),
    decreases pieces.len() - i,
{
    if i >= pieces.len() {
        assert(commands_from(pieces, i, home, acc) == acc);
    } else {
        let raw = trim(pieces[i as int]);
        lemma_redirects_kept(tilde_all(words_from(raw, 0), home), 0, seq![], None);
        let c = command_of(pieces[i as int], home);
        assert(c.argv.len() > 0 ==> well_formed_command(c));
        let acc2 = if c.argv.len() > 0 {
            acc.push(c)
        } else {
            acc
        };
        assert forall|j: int| 0 <= j < acc2.len() implies well_formed_command(#[trigger] acc2[j]) by {
            if j < acc.len() {
                assert(acc2[j] == acc[j]);
            }
        }
        lemma_commands_from(pieces, i + 1, home, acc2);
        assert(commands_from(pieces, i, home, acc) == commands_from(pieces, i + 1, home, acc2));
    }
}

/// Every command of a pipeline has at least one word, and `>` or `>>` can stand only as
/// its last word: a redirection with a target is taken out of the words.
pub proof fn law_pipeline_commands_are_well_formed(line: Seq<char>, home: Option<Seq<char>>)
    ensures
        forall|j: int|
            0 <= j < pipeline_commands(line, home).len() ==> well_formed_command(
                #[trigger] pipeline_commands(line, home)[j],
            ),
{
    lemma_commands_from(pipeline_pieces(line), 0, home, seq![]);
}

} // verus!

verus! {

// ---------------------------------------------------------------------------
// Law of `${NAME}` expansion
// ---------------------------------------------------------------------------

/// A name made of ASCII letters, digits and `_`.
pub open spec fn ascii_env_name(n: Seq<char>) -> bool {
    forall|j: int|
        0 <= j < n.len() ==> is_ascii_letter(#[trigger] n[j]) || is_ascii_digit_char(n[j]) || n[j]
            == '_'
}

proof fn lemma_lookup_first(vars: Seq<(Seq<char>, Seq<char>)>, k: int, name: Seq<char>, v: Seq<char>)
    requires
        0 <= k < vars.len(),
        vars[k] == (name, v),
        forall|j: int| 0 <= j < k ==> (#[trigger] vars[j]).0 != name,
    ensures
        env_lookup(vars, name) == Some(v),
    decreases k,
{
    if k > 0 {
        assert(vars[0].0 != name);
        let rest = vars.drop_first();
        assert forall|j: int| 0 <= j < k - 1 implies (#[trigger] rest[j]).0 != name by {
            assert(rest[j] == vars[j + 1]);
        }
        lemma_lookup_first(rest, k - 1, name, v);
    }
}

proof fn lemma_expand_no_dollar(w: Seq<char>, i: nat, m: nat, vars: Seq<(Seq<char>, Seq<char>)>)
    requires
        i <= m <= w.len(),
        forall|j: int| i <= j < m ==> #[trigger] w[j] != '$',
    ensures
        expand_from(w, i, vars) == w.subrange(i as int, m as int) + expand_from(w, m, vars),
    decreases m - i,
{
    if i < m {
        lemma_expand_no_dollar(w, i + 1, m, vars);
        assert(w.subrange(i as int, m as int) =~= seq![w[i as int]] + w.subrange((i + 1) as int, m as int));
    } else {
        assert(w.subrange(i as int, m as int) =~= seq![]);
    }
}

proof fn lemma_env_name_end_at(w: Seq<char>, i: nat, e: nat)
    requires
        i <= e < w.len(),
        forall|k: int| i <= k < e ==> env_name_char(#[trigger] w[k]),
        !env_name_char(w[e as int]),
    ensures
        env_name_end(w, i) == e,
    decreases e - i,
{
    if i < e {
        lemma_env_name_end_at(w, i + 1, e);
    }
}

/// `${NAME}` stands for the variable's value: for a name of ASCII letters, digits and `_`
/// whose first setting in `vars` is `v`, a word `a${NAME}b`, where `a` and `b` hold no `$`,
/// expands to `a`, then `v`, then `b`.
pub proof fn law_braced_reference_expands(
    vars: Seq<(Seq<char>, Seq<char>)>,
    k: int,
    name: Seq<char>,
    v: Seq<char>,
    a: Seq<char>,
    b: Seq<char>,
)
    requires
        0 <= k < vars.len(),
        vars[k] == (name, v),
        forall|j: int| 0 <= j < k ==> (#[trigger] vars[j]).0 != name,
        ascii_env_name(name),
        forall|j: int| 0 <= j < a.len() ==> #[trigger] a[j] != '$',
        forall|j: int| 0 <= j < b.len() ==> #[trigger] b[j] != '$',
    ensures
        expand_word(a + seq!['$', '{'] + name + seq!['}'] + b, vars) == a + v + b,
{
    let w = a + seq!['$', '{'] + name + seq!['}'] + b;
    let m = a.len();
    let e = m + 2 + name.len();
    lemma_lookup_first(vars, k, name, v);
    assert(w[m as int] == '$');
    assert(w.contains('$'));
    assert forall|j: int| 0 <= j < m implies #[trigger] w[j] != '$' by {
        assert(w[j] == a[j]);
    }
    lemma_expand_no_dollar(w, 0, m, vars);
    assert(w.subrange(0, m as int) =~= a);
    assert(w[(m + 1) as int] == '{');
    assert forall|q: int| m + 2 <= q < e implies env_name_char(#[trigger] w[q]) by {
        assert(w[q] == name[q - m - 2]);
    }
    assert(w[e as int] == '}');
    lemma_env_name_end_at(w, m + 2, e);
    assert(w.subrange((m + 2) as int, e as int) =~= name);
    assert forall|j: int| e + 1 <= j < w.len() implies #[trigger] w[j] != '$' by {
        assert(w[j] == b[j - e - 1]);
    }
    lemma_expand_no_dollar(w, e + 1, w.len(), vars);
    assert(w.subrange((e + 1) as int, w.len() as int) =~= b);
    assert(expand_from(w, w.len(), vars) == Seq::<char>::empty());
    assert(a + v + b =~= a + (v + (b + Seq::<char>::empty())));
}

} // verus!
