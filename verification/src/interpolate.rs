//! `$name` references in text: the names they give, the dotted paths those names are, and
//! the text with each reference replaced by its value. Looking a name up is the caller's:
//! it hands back one value (or none) per reference.
use vstd::prelude::*;
use crate::text::{
    alphanumeric, char_is_alphanumeric, chars_to_string, lemma_strings_view_push, push_all,
    split_char, split_on, str_chars, strings_view, sub_chars, sub_string,
};

verus! {

/// A character that continues a reference's name: alphanumeric, `_` or `.`.
pub open spec fn name_char(c: char) -> bool {
    alphanumeric(c) || c == '_' || c == '.'
}

/// The first position from `p` on that does not hold a name character, or the length.
pub open spec fn name_end(s: Seq<char>, p: nat) -> nat
    decreases s.len() - p,
{
    if p < s.len() && name_char(s[p as int]) {
        name_end(s, p + 1)
    } else {
        p
    }
}

pub proof fn lemma_name_end(s: Seq<char>, p: nat)
    requires
        p <= s.len(),
    ensures
        p <= name_end(s, p) <= s.len(),
    decreases s.len() - p,
{
    if p < s.len() && name_char(s[p as int]) {
        lemma_name_end(s, p + 1);
    }
}

/// The names referenced from `p` on: after each `$`, the longest run of name characters
/// that follows it (empty for a bare `$`).
pub open spec fn var_refs_from(s: Seq<char>, p: nat) -> Seq<Seq<char>>
    decreases s.len() - p,
{
    if p >= s.len() {
        seq![]
    } else if s[p as int] == '$' {
        proof {
            lemma_name_end(s, p + 1);
        }
        let e = name_end(s, p + 1);
        seq![s.subrange((p + 1) as int, e as int)] + var_refs_from(s, e)
    } else {
        var_refs_from(s, p + 1)
    }
}

/// The names that the references of `s` give, in order.
pub open spec fn var_refs_spec(s: Seq<char>) -> Seq<Seq<char>> {
    var_refs_from(s, 0)
}

/// The parts of a dotted path (what `str::split('.')` gives).
pub open spec fn split_dots(path: Seq<char>) -> Seq<Seq<char>> {
    split_char(path, '.')
}

/// `s` from `p` on with its references replaced: the reference at `p` is the `k`-th, and it
/// becomes `vals[k]` where that is given; a reference without a value stays as written.
pub open spec fn splice_from(s: Seq<char>, p: nat, vals: Seq<Option<Seq<char>>>, k: nat) -> Seq<
    char,
>
    decreases s.len() - p,
{
    if p >= s.len() {
        seq![]
    } else if s[p as int] == '$' {
        proof {
            lemma_name_end(s, p + 1);
        }
        let e = name_end(s, p + 1);
        let piece = if k < vals.len() && vals[k as int] is Some {
            vals[k as int]->0
        } else {
            seq!['$'] + s.subrange((p + 1) as int, e as int)
        };
        piece + splice_from(s, e, vals, k + 1)
    } else {
        seq![s[p as int]] + splice_from(s, p + 1, vals, k)
    }
}

/// `s` with its `k`-th reference replaced by `vals[k]`, for each one that has a value.
pub open spec fn splice_spec(s: Seq<char>, vals: Seq<Option<Seq<char>>>) -> Seq<char> {
    splice_from(s, 0, vals, 0)
}

/// The texts of a sequence of optional strings.
pub open spec fn opt_strings_view(v: Seq<Option<String>>) -> Seq<Option<Seq<char>>> {
    v.map_values(
        |o: Option<String>|
            match o {
                Some(t) => Some(t@),
                None => None,
            },
    )
}

/// The end of the name that starts at `p`.
fn scan_name(c: &Vec<char>, p: usize) -> (e: usize)
    requires
        p <= c@.len(),
    ensures
        e == name_end(c@, p as nat),
        p <= e <= c@.len(),
{
    proof {
        lemma_name_end(c@, p as nat);
    }
    let n = c.len();
    let mut e = p;
    while e < n && (char_is_alphanumeric(c[e]) || c[e] == '_' || c[e] == '.')
        invariant
            n == c@.len(),
            p <= e <= n,
            name_end(c@, e as nat) == name_end(c@, p as nat),
        decreases n - e,
    {
        e = e + 1;
    }
    e
}

/// The names that the `$` references of `s` give, in order: after each `$`, the longest run
/// of alphanumeric characters, `_` and `.` (empty for a bare `$`).
pub fn var_refs(s: &str) -> (r: Vec<String>)
    ensures
        strings_view(r@) == var_refs_spec(s@),
{
    let c = str_chars(s);
    let n = c.len();
    let mut out: Vec<String> = Vec::new();
    let mut p: usize = 0;
    assert(strings_view(out@) =~= seq![]);
    while p < n
        invariant
            n == c@.len(),
            c@ == s@,
            p <= n,
            strings_view(out@) + var_refs_from(c@, p as nat) == var_refs_spec(s@),
        decreases n - p,
    {
        if c[p] == '$' {
            let e = scan_name(&c, p + 1);
            let w = sub_string(&c, p + 1, e);
            let ghost before = strings_view(out@);
            proof {
                lemma_strings_view_push(out@, w);
                assert(before + (seq![w@] + var_refs_from(c@, e as nat)) == before.push(w@)
                    + var_refs_from(c@, e as nat));
            }
            out.push(w);
            p = e;
        } else {
            p = p + 1;
        }
    }
    assert(strings_view(out@) + seq![] =~= strings_view(out@));
    out
}

/// The parts of a dotted path, as `str::split('.')` gives them: `a.b` has the parts `a` and
/// `b`; a path without a dot is its only part.
pub fn path_segments(path: &str) -> (r: Vec<String>)
    ensures
        strings_view(r@) == split_dots(path@),
{
    let parts = split_on(&str_chars(path), '.');
    let mut out: Vec<String> = Vec::new();
    let mut i: usize = 0;
    while i < parts.len()
        invariant
            i <= parts@.len(),
            parts@.map_values(|v: Vec<char>| v@) == split_dots(path@),
            strings_view(out@) == split_dots(path@).take(i as int),
        decreases parts@.len() - i,
    {
        let w = chars_to_string(&parts[i]);
        proof {
            lemma_strings_view_push(out@, w);
        }
        out.push(w);
        i = i + 1;
        assert(strings_view(out@) =~= split_dots(path@).take(i as int));
    }
    assert(split_dots(path@).take(i as int) =~= split_dots(path@));
    out
}

/// `s` with each `$` reference replaced by its value: the `k`-th reference (counted as
/// `var_refs` counts them) becomes `values[k]` where that is `Some`; one whose value is
/// `None`, or past the end of `values`, stays as written, `$` and name.
pub fn splice_vars(s: &str, values: &Vec<Option<String>>) -> (r: String)
    ensures
        r@ == splice_spec(s@, opt_strings_view(values@)),
{
    let ghost vals = opt_strings_view(values@);
    let c = str_chars(s);
    let n = c.len();
    let mut out: Vec<char> = Vec::new();
    let mut p: usize = 0;
    let mut k: usize = 0;
    while p < n
        invariant
            n == c@.len(),
            c@ == s@,
            p <= n,
            k <= p,
            vals == opt_strings_view(values@),
            out@ + splice_from(c@, p as nat, vals, k as nat) == splice_spec(s@, vals),
        decreases n - p,
    {
        let ghost before = out@;
        if c[p] == '$' {
            let e = scan_name(&c, p + 1);
            let ghost rest = splice_from(c@, e as nat, vals, (k + 1) as nat);
            let ghost piece = if k < vals.len() && vals[k as int] is Some {
                vals[k as int]->0
            } else {
                seq!['$'] + c@.subrange(p + 1, e as int)
            };
            let given = k < values.len() && values[k].is_some();
            if given {
                match &values[k] {
                    Some(v) => {
                        push_all(&mut out, &str_chars(v.as_str()));
                    },
                    None => {},
                }
            } else {
                out.push('$');
                push_all(&mut out, &sub_chars(&c, p + 1, e));
            }
            assert(out@ =~= before + piece);
            assert(before + (piece + rest) =~= out@ + rest);
            p = e;
            k = k + 1;
        } else {
            let ghost rest = splice_from(c@, (p + 1) as nat, vals, k as nat);
            out.push(c[p]);
            assert(before + (seq![c@[p as int]] + rest) =~= out@ + rest);
            p = p + 1;
        }
    }
    assert(out@ + seq![] =~= out@);
    chars_to_string(&out)
}

} // verus!
