//! The code generator's decisions that do not depend on LLVM: which kind of callee a call
//! names, the C-level signatures of the standard-library wrappers, of the C functions
//! that are declared on demand and of the runtime helpers, how a variable is read by its
//! declared type, and how an interpolated variable becomes a piece of a string.
use vstd::prelude::*;
use crate::text::{chars_to_string, push_all, starts_with, starts_with_chars, str_chars, sub_chars};

verus! {

/// A C-level type in a function signature.
#[derive(Debug, Clone, Copy, PartialEq, Eq, Structural)]
pub enum CType {
    Void,
    I32,
    I64,
    F64,
    Ptr,
}

/// A C-level function signature.
#[derive(Debug, Clone)]
pub struct FnSig {
    pub ret: CType,
    pub params: Vec<CType>,
    pub variadic: bool,
}

/// What a call's name refers to.
#[derive(Debug, Clone)]
pub enum CallTarget {
    /// A function of the script (or a declared variadic-argument helper).
    User,
    /// A standard-library wrapper, by its C name.
    Stdlib(String),
    /// A runtime helper (its name starts with `alsh_`).
    Runtime,
}

/// How a variable's value is read, by its declared type name.
#[derive(Debug, Clone, Copy, PartialEq, Eq, Structural)]
pub enum LoadKind {
    Ptr,
    I32,
    I64,
    F64,
}

/// How an interpolated variable becomes a piece of a string: an `i32` widened to 64 bits
/// and converted, a 64-bit integer converted, or a runtime string taken as it is.
#[derive(Debug, Clone, Copy, PartialEq, Eq, Structural)]
pub enum PieceConversion {
    WidenToStr,
    ToStr,
    AsIs,
}

// ---------------------------------------------------------------------------
// Mathematical model
// ---------------------------------------------------------------------------

/// A signature as values: return type, parameter types, variadic or not.
pub open spec fn sig_is(s: FnSig, ret: CType, params: Seq<CType>, variadic: bool) -> bool {
    s.ret == ret && s.params@ == params && s.variadic == variadic
}

pub open spec fn fixed(ret: CType, params: Seq<CType>) -> (CType, Seq<CType>, bool) {
    (ret, params, false)
}

/// The signature of the standard-library wrapper named `n`.
pub open spec fn stdlib_sig(n: Seq<char>) -> Option<(CType, Seq<CType>, bool)> {
    if n == "alsh_std_print"@ || n == "alsh_std_println"@ || n == "alsh_std_eprint"@ {
        Some(fixed(CType::Void, seq![CType::Ptr]))
    } else if n == "alsh_std_input"@ {
        Some(fixed(CType::Ptr, seq![CType::Ptr]))
    } else if n == "alsh_std_exit"@ {
        Some(fixed(CType::Void, seq![CType::I32]))
    } else if n == "alsh_std_env"@ || n == "alsh_std_readfile"@ {
        Some(fixed(CType::Ptr, seq![CType::Ptr]))
    } else if n == "alsh_std_writefile"@ || n == "alsh_std_appendfile"@ {
        Some(fixed(CType::I32, seq![CType::Ptr, CType::Ptr]))
    } else if n == "alsh_std_exists"@ {
        Some(fixed(CType::I32, seq![CType::Ptr]))
    } else if n == "alsh_std_strlen"@ {
        Some(fixed(CType::I64, seq![CType::Ptr]))
    } else if n == "alsh_std_upper"@ || n == "alsh_std_lower"@ || n == "alsh_std_trim"@ {
        Some(fixed(CType::Ptr, seq![CType::Ptr]))
    } else if n == "alsh_std_contains"@ || n == "alsh_std_startswith"@ || n == "alsh_std_endswith"@ {
        Some(fixed(CType::I32, seq![CType::Ptr, CType::Ptr]))
    } else if n == "alsh_std_replace"@ {
        Some(fixed(CType::Ptr, seq![CType::Ptr, CType::Ptr, CType::Ptr]))
    } else if n == "alsh_std_repeat"@ {
        Some(fixed(CType::Ptr, seq![CType::Ptr, CType::I32]))
    } else if n == "alsh_std_strip"@ {
        Some(fixed(CType::Ptr, seq![CType::Ptr, CType::Ptr]))
    } else {
        None
    }
}

/// The signature of the C library function named `n` that is declared on demand.
pub open spec fn c_function_sig(n: Seq<char>) -> Option<(CType, Seq<CType>, bool)> {
    if n == "printf"@ {
        Some((CType::I32, seq![CType::Ptr], true))
    } else if n == "puts"@ {
        Some(fixed(CType::I32, seq![CType::Ptr]))
    } else if n == "strlen"@ {
        Some(fixed(CType::I64, seq![CType::Ptr]))
    } else if n == "malloc"@ {
        Some(fixed(CType::Ptr, seq![CType::I64]))
    } else if n == "free"@ || n == "alsh_std_free_string"@ {
        Some(fixed(CType::Void, seq![CType::Ptr]))
    } else {
        None
    }
}

/// The signature of the runtime helper named `n`.
pub open spec fn runtime_sig(n: Seq<char>) -> Option<(CType, Seq<CType>, bool)> {
    if n == "alsh_str_concat"@ {
        Some(fixed(CType::Ptr, seq![CType::Ptr, CType::Ptr]))
    } else if n == "alsh_int_to_str"@ {
        Some(fixed(CType::Ptr, seq![CType::I64]))
    } else if n == "alsh_float_to_str"@ {
        Some(fixed(CType::Ptr, seq![CType::F64]))
    } else if n == "alsh_make_heap_str"@ {
        Some(fixed(CType::Ptr, seq![CType::Ptr, CType::I64]))
    } else if n == "alsh_make_varargs_array_i32"@ || n == "alsh_make_varargs_array_i64"@ || n
        == "alsh_make_varargs_array_f64"@ || n == "alsh_make_varargs_array_ptr"@ {
        Some(fixed(CType::Ptr, seq![CType::I64]))
    } else if n == "alsh_varargs_store_i32"@ {
        Some(fixed(CType::Void, seq![CType::Ptr, CType::I64, CType::I32]))
    } else if n == "alsh_varargs_store_i64"@ {
        Some(fixed(CType::Void, seq![CType::Ptr, CType::I64, CType::I64]))
    } else if n == "alsh_varargs_store_f64"@ {
        Some(fixed(CType::Void, seq![CType::Ptr, CType::I64, CType::F64]))
    } else if n == "alsh_varargs_store_ptr"@ {
        Some(fixed(CType::Void, seq![CType::Ptr, CType::I64, CType::Ptr]))
    } else if n == "alsh_varargs_get_i32"@ {
        Some(fixed(CType::I32, seq![CType::Ptr, CType::I64]))
    } else if n == "alsh_varargs_get_i64"@ {
        Some(fixed(CType::I64, seq![CType::Ptr, CType::I64]))
    } else if n == "alsh_varargs_get_f64"@ {
        Some(fixed(CType::F64, seq![CType::Ptr, CType::I64]))
    } else if n == "alsh_varargs_get_ptr"@ {
        Some(fixed(CType::Ptr, seq![CType::Ptr, CType::I64]))
    } else {
        None
    }
}

/// The value type that a variadic-argument helper's suffix names (`i32` when it names none).
pub open spec fn suffix_type(s: Seq<char>) -> CType {
    if s == "i64"@ {
        CType::I64
    } else if s == "f64"@ {
        CType::F64
    } else if s == "ptr"@ {
        CType::Ptr
    } else {
        CType::I32
    }
}

/// The signature under which a variadic-argument helper is declared when a call names
/// it: the suffix is read after the 19th character of a `store` name and after the 16th
/// of a `get` name (which leaves the underscore before the type in place).
pub open spec fn varargs_helper_sig(n: Seq<char>) -> Option<(CType, Seq<CType>, bool)> {
    if starts_with(n, "alsh_make_varargs_array_"@) {
        Some(fixed(CType::Ptr, seq![CType::I64]))
    } else if starts_with(n, "alsh_varargs_store_"@) && n.len() >= 19 {
        Some(fixed(CType::Void, seq![CType::Ptr, CType::I64, suffix_type(n.subrange(19, n.len() as int))]))
    } else if starts_with(n, "alsh_varargs_get_"@) && n.len() >= 16 {
        Some(fixed(suffix_type(n.subrange(16, n.len() as int)), seq![CType::Ptr, CType::I64]))
    } else {
        None
    }
}

/// The element kind (`i32`, `i64`, `f64` or `ptr`) under which the variadic arguments of
/// a parameter typed `t` are packed.
pub open spec fn varargs_kind(t: Seq<char>) -> Seq<char> {
    if t == "i64"@ || t == "long"@ {
        "i64"@
    } else if t == "f64"@ || t == "double"@ || t == "float"@ {
        "f64"@
    } else if t == "str"@ {
        "ptr"@
    } else {
        "i32"@
    }
}

/// The standard-library wrappers whose C result is a fresh C string.
pub open spec fn returns_c_string(n: Seq<char>) -> bool {
    n == "alsh_std_upper"@ || n == "alsh_std_lower"@ || n == "alsh_std_trim"@ || n
        == "alsh_std_replace"@ || n == "alsh_std_repeat"@ || n == "alsh_std_strip"@ || n
        == "alsh_std_readfile"@ || n == "alsh_std_env"@ || n == "alsh_std_input"@
}

/// What a call's name refers to, as values.
pub enum TargetSpec {
    User,
    Stdlib(Seq<char>),
    Runtime,
}

pub open spec fn target_matches(t: CallTarget, d: TargetSpec) -> bool {
    match d {
        TargetSpec::User => t is User,
        TargetSpec::Stdlib(c) => t matches CallTarget::Stdlib(x) && x@ == c,
        TargetSpec::Runtime => t is Runtime,
    }
}

/// What a call's name refers to: a declared function (or a variadic-argument helper,
/// which a call declares) first, then `std::` wrappers (`std::x` is the C function
/// `alsh_std_x`), then runtime helpers.
pub open spec fn call_target_spec(n: Seq<char>, declared: bool) -> Result<TargetSpec, Seq<char>> {
    if declared || varargs_helper_sig(n) is Some {
        Ok(TargetSpec::User)
    } else if starts_with(n, "std::"@) && n.len() >= 5 {
        Ok(TargetSpec::Stdlib("alsh_std_"@ + n.subrange(5, n.len() as int)))
    } else if starts_with(n, "alsh_"@) {
        Ok(TargetSpec::Runtime)
    } else {
        Err("Unknown function: "@ + n)
    }
}

/// The load of a variable declared with type `t`: `pointer`, `str` as a pointer; `i32`,
/// `int`, `bool` as a 32-bit integer; `i64`, `long` and any other name as a 64-bit
/// integer; `f64`, `float`, `double` as a double.
pub open spec fn load_kind_spec(t: Seq<char>) -> LoadKind {
    if t == "pointer"@ || t == "str"@ {
        LoadKind::Ptr
    } else if t == "i32"@ || t == "int"@ || t == "bool"@ {
        LoadKind::I32
    } else if t == "i64"@ || t == "long"@ {
        LoadKind::I64
    } else if t == "f64"@ || t == "float"@ || t == "double"@ {
        LoadKind::F64
    } else {
        LoadKind::I64
    }
}

/// The conversion of an interpolated variable declared with type `t`, or the error for a
/// type that cannot be interpolated.
pub open spec fn piece_conversion_spec(t: Seq<char>) -> Result<PieceConversion, Seq<char>> {
    if t == "i32"@ || t == "int"@ || t == "bool"@ {
        Ok(PieceConversion::WidenToStr)
    } else if t == "i64"@ || t == "long"@ {
        Ok(PieceConversion::ToStr)
    } else if t == "pointer"@ || t == "str"@ {
        Ok(PieceConversion::AsIs)
    } else {
        Err("interpolation not yet supported for type: "@ + t)
    }
}

// ---------------------------------------------------------------------------
// Executable tables
// ---------------------------------------------------------------------------

fn is_name(t: &Vec<char>, k: &str) -> (b: bool)
    ensures
        b == (t@ == k@),
{
    let p = str_chars(k);
    if t.len() != p.len() {
        return false;
    }
    let mut i: usize = 0;
    while i < t.len()
        invariant
            t@.len() == p@.len(),
            p@ == k@,
            i <= t@.len(),
            forall|j: int| 0 <= j < i ==> t@[j] == p@[j],
        decreases t@.len() - i,
    {
        if t[i] != p[i] {
            return false;
        }
        i = i + 1;
    }
    assert(t@ =~= p@);
    true
}

fn sig(ret: CType, params: Vec<CType>, variadic: bool) -> (s: FnSig)
    ensures
        sig_is(s, ret, params@, variadic),
{
    FnSig { ret, params, variadic }
}

fn one(a: CType) -> (v: Vec<CType>)
    ensures
        v@ == seq![a],
{
    vec![a]
}

fn two(a: CType, b: CType) -> (v: Vec<CType>)
    ensures
        v@ == seq![a, b],
{
    vec![a, b]
}

fn three(a: CType, b: CType, c: CType) -> (v: Vec<CType>)
    ensures
        v@ == seq![a, b, c],
{
    vec![a, b, c]
}

/// `"<prefix><name>"` as a string.
fn message(prefix: &str, name: &Vec<char>) -> (s: String)
    ensures
        s@ == prefix@ + name@,
{
    let mut m = str_chars(prefix);
    push_all(&mut m, name);
    chars_to_string(&m)
}

/// The signature of the standard-library wrapper `name`, or the error for an unknown one.
pub fn stdlib_signature(name: &str) -> (r: Result<FnSig, String>)
    ensures
        match stdlib_sig(name@) {
            Some((ret, params, v)) => r matches Ok(s) && sig_is(s, ret, params, v),
            None => r matches Err(e) && e@ == "Unknown stdlib function: "@ + name@,
        },
{
    let n = str_chars(name);
    if is_name(&n, "alsh_std_print") || is_name(&n, "alsh_std_println") || is_name(&n, "alsh_std_eprint") {
        Ok(sig(CType::Void, one(CType::Ptr), false))
    } else if is_name(&n, "alsh_std_input") {
        Ok(sig(CType::Ptr, one(CType::Ptr), false))
    } else if is_name(&n, "alsh_std_exit") {
        Ok(sig(CType::Void, one(CType::I32), false))
    } else if is_name(&n, "alsh_std_env") || is_name(&n, "alsh_std_readfile") {
        Ok(sig(CType::Ptr, one(CType::Ptr), false))
    } else if is_name(&n, "alsh_std_writefile") || is_name(&n, "alsh_std_appendfile") {
        Ok(sig(CType::I32, two(CType::Ptr, CType::Ptr), false))
    } else if is_name(&n, "alsh_std_exists") {
        Ok(sig(CType::I32, one(CType::Ptr), false))
    } else if is_name(&n, "alsh_std_strlen") {
        Ok(sig(CType::I64, one(CType::Ptr), false))
    } else if is_name(&n, "alsh_std_upper") || is_name(&n, "alsh_std_lower") || is_name(&n, "alsh_std_trim") {
        Ok(sig(CType::Ptr, one(CType::Ptr), false))
    } else if is_name(&n, "alsh_std_contains") || is_name(&n, "alsh_std_startswith") || is_name(
        &n,
        "alsh_std_endswith",
    ) {
        Ok(sig(CType::I32, two(CType::Ptr, CType::Ptr), false))
    } else if is_name(&n, "alsh_std_replace") {
        Ok(sig(CType::Ptr, three(CType::Ptr, CType::Ptr, CType::Ptr), false))
    } else if is_name(&n, "alsh_std_repeat") {
        Ok(sig(CType::Ptr, two(CType::Ptr, CType::I32), false))
    } else if is_name(&n, "alsh_std_strip") {
        Ok(sig(CType::Ptr, two(CType::Ptr, CType::Ptr), false))
    } else {
        Err(message("Unknown stdlib function: ", &n))
    }
}

/// The signature under which the C library function `name` is declared, or the error for
/// a function that is not declared on demand.
pub fn c_function_signature(name: &str) -> (r: Result<FnSig, String>)
    ensures
        match c_function_sig(name@) {
            Some((ret, params, v)) => r matches Ok(s) && sig_is(s, ret, params, v),
            None => r matches Err(e) && e@ == "Unknown C function: "@ + name@,
        },
{
    let n = str_chars(name);
    if is_name(&n, "printf") {
        Ok(sig(CType::I32, one(CType::Ptr), true))
    } else if is_name(&n, "puts") {
        Ok(sig(CType::I32, one(CType::Ptr), false))
    } else if is_name(&n, "strlen") {
        Ok(sig(CType::I64, one(CType::Ptr), false))
    } else if is_name(&n, "malloc") {
        Ok(sig(CType::Ptr, one(CType::I64), false))
    } else if is_name(&n, "free") || is_name(&n, "alsh_std_free_string") {
        Ok(sig(CType::Void, one(CType::Ptr), false))
    } else {
        Err(message("Unknown C function: ", &n))
    }
}

/// The signature of the runtime helper `name` (`None` for a name that is no helper).
pub fn runtime_signature(name: &str) -> (r: Option<FnSig>)
    ensures
        match runtime_sig(name@) {
            Some((ret, params, v)) => r matches Some(s) && sig_is(s, ret, params, v),
            None => r is None,
        },
{
    let n = str_chars(name);
    if is_name(&n, "alsh_str_concat") {
        Some(sig(CType::Ptr, two(CType::Ptr, CType::Ptr), false))
    } else if is_name(&n, "alsh_int_to_str") {
        Some(sig(CType::Ptr, one(CType::I64), false))
    } else if is_name(&n, "alsh_float_to_str") {
        Some(sig(CType::Ptr, one(CType::F64), false))
    } else if is_name(&n, "alsh_make_heap_str") {
        Some(sig(CType::Ptr, two(CType::Ptr, CType::I64), false))
    } else if is_name(&n, "alsh_make_varargs_array_i32") || is_name(&n, "alsh_make_varargs_array_i64")
        || is_name(&n, "alsh_make_varargs_array_f64") || is_name(&n, "alsh_make_varargs_array_ptr") {
        Some(sig(CType::Ptr, one(CType::I64), false))
    } else if is_name(&n, "alsh_varargs_store_i32") {
        Some(sig(CType::Void, three(CType::Ptr, CType::I64, CType::I32), false))
    } else if is_name(&n, "alsh_varargs_store_i64") {
        Some(sig(CType::Void, three(CType::Ptr, CType::I64, CType::I64), false))
    } else if is_name(&n, "alsh_varargs_store_f64") {
        Some(sig(CType::Void, three(CType::Ptr, CType::I64, CType::F64), false))
    } else if is_name(&n, "alsh_varargs_store_ptr") {
        Some(sig(CType::Void, three(CType::Ptr, CType::I64, CType::Ptr), false))
    } else if is_name(&n, "alsh_varargs_get_i32") {
        Some(sig(CType::I32, two(CType::Ptr, CType::I64), false))
    } else if is_name(&n, "alsh_varargs_get_i64") {
        Some(sig(CType::I64, two(CType::Ptr, CType::I64), false))
    } else if is_name(&n, "alsh_varargs_get_f64") {
        Some(sig(CType::F64, two(CType::Ptr, CType::I64), false))
    } else if is_name(&n, "alsh_varargs_get_ptr") {
        Some(sig(CType::Ptr, two(CType::Ptr, CType::I64), false))
    } else {
        None
    }
}

/// The signature of `printf` (`int printf(const char *, ...)`).
pub fn printf_signature() -> (s: FnSig)
    ensures
        sig_is(s, CType::I32, seq![CType::Ptr], true),
{
    sig(CType::I32, one(CType::Ptr), true)
}

fn suffix_type_exec(s: &Vec<char>) -> (t: CType)
    ensures
        t == suffix_type(s@),
{
    if is_name(s, "i64") {
        CType::I64
    } else if is_name(s, "f64") {
        CType::F64
    } else if is_name(s, "ptr") {
        CType::Ptr
    } else {
        CType::I32
    }
}

/// The signature under which a call that names a variadic-argument helper declares it
/// (`None` for a name that is no such helper).
pub fn varargs_helper_signature(name: &str) -> (r: Option<FnSig>)
    ensures
        match varargs_helper_sig(name@) {
            Some((ret, params, v)) => r matches Some(s) && sig_is(s, ret, params, v),
            None => r is None,
        },
{
    let n = str_chars(name);
    let len = n.len();
    if starts_with_chars(&n, &str_chars("alsh_make_varargs_array_")) {
        Some(sig(CType::Ptr, one(CType::I64), false))
    } else if starts_with_chars(&n, &str_chars("alsh_varargs_store_")) && len >= 19 {
        let t = suffix_type_exec(&sub_chars(&n, 19, len));
        Some(sig(CType::Void, three(CType::Ptr, CType::I64, t), false))
    } else if starts_with_chars(&n, &str_chars("alsh_varargs_get_")) && len >= 16 {
        let t = suffix_type_exec(&sub_chars(&n, 16, len));
        Some(sig(t, two(CType::Ptr, CType::I64), false))
    } else {
        None
    }
}

/// The element kind (`i32`, `i64`, `f64` or `ptr`) under which the variadic arguments of
/// a parameter of type `param_type` are packed: the runtime helpers that make the array
/// and store into it are `alsh_make_varargs_array_<kind>` and `alsh_varargs_store_<kind>`.
pub fn varargs_kind_of(param_type: &str) -> (r: String)
    ensures
        r@ == varargs_kind(param_type@),
{
    let t = str_chars(param_type);
    if is_name(&t, "i64") || is_name(&t, "long") {
        String::from_str("i64")
    } else if is_name(&t, "f64") || is_name(&t, "double") || is_name(&t, "float") {
        String::from_str("f64")
    } else if is_name(&t, "str") {
        String::from_str("ptr")
    } else {
        String::from_str("i32")
    }
}

/// Whether the standard-library wrapper `name` returns a fresh C string (which is copied
/// into a runtime string and then freed).
pub fn returns_c_string_name(name: &str) -> (b: bool)
    ensures
        b == returns_c_string(name@),
{
    let n = str_chars(name);
    is_name(&n, "alsh_std_upper") || is_name(&n, "alsh_std_lower") || is_name(&n, "alsh_std_trim")
        || is_name(&n, "alsh_std_replace") || is_name(&n, "alsh_std_repeat") || is_name(
        &n,
        "alsh_std_strip",
    ) || is_name(&n, "alsh_std_readfile") || is_name(&n, "alsh_std_env") || is_name(
        &n,
        "alsh_std_input",
    )
}

/// What the call named `name` refers to, given whether the script declares a function of
/// that name; the error for a name that refers to nothing.
pub fn call_target(name: &str, declared: bool) -> (r: Result<CallTarget, String>)
    ensures
        match call_target_spec(name@, declared) {
            Ok(d) => r matches Ok(t) && target_matches(t, d),
            Err(m) => r matches Err(e) && e@ == m,
        },
{
    let n = str_chars(name);
    if declared || varargs_helper_signature(name).is_some() {
        Ok(CallTarget::User)
    } else if starts_with_chars(&n, &str_chars("std::")) {
        proof {
            reveal_strlit("std::");
        }
        assert(n@.len() >= 5);
        let mut c = str_chars("alsh_std_");
        push_all(&mut c, &sub_chars(&n, 5, n.len()));
        Ok(CallTarget::Stdlib(chars_to_string(&c)))
    } else if starts_with_chars(&n, &str_chars("alsh_")) {
        Ok(CallTarget::Runtime)
    } else {
        Err(message("Unknown function: ", &n))
    }
}

/// How a variable declared with type `var_type` is read (see `load_kind_spec`).
pub fn load_kind(var_type: &str) -> (k: LoadKind)
    ensures
        k == load_kind_spec(var_type@),
{
    let t = str_chars(var_type);
    if is_name(&t, "pointer") || is_name(&t, "str") {
        LoadKind::Ptr
    } else if is_name(&t, "i32") || is_name(&t, "int") || is_name(&t, "bool") {
        LoadKind::I32
    } else if is_name(&t, "i64") || is_name(&t, "long") {
        LoadKind::I64
    } else if is_name(&t, "f64") || is_name(&t, "float") || is_name(&t, "double") {
        LoadKind::F64
    } else {
        LoadKind::I64
    }
}

/// How an interpolated variable declared with type `var_type` becomes a piece of a string,
/// or the error for a type that cannot be interpolated (see `piece_conversion_spec`).
pub fn piece_conversion(var_type: &str) -> (r: Result<PieceConversion, String>)
    ensures
        match piece_conversion_spec(var_type@) {
            Ok(c) => r matches Ok(x) && x == c,
            Err(m) => r matches Err(e) && e@ == m,
        },
{
    let t = str_chars(var_type);
    if is_name(&t, "i32") || is_name(&t, "int") || is_name(&t, "bool") {
        Ok(PieceConversion::WidenToStr)
    } else if is_name(&t, "i64") || is_name(&t, "long") {
        Ok(PieceConversion::ToStr)
    } else if is_name(&t, "pointer") || is_name(&t, "str") {
        Ok(PieceConversion::AsIs)
    } else {
        Err(message("interpolation not yet supported for type: ", &t))
    }
}

} // verus!

verus! {

/// How a declared type decides a variable's load: as a double exactly for the float type
/// names `f64`, `float` and `double` (the code generator records a float value with the
/// type `f64`); as a pointer exactly for `pointer` and `str`; as a 32-bit integer exactly for
/// `i32`, `int` and `bool`; as a 64-bit integer for every other name.
pub proof fn law_load_kind_by_type_name(t: Seq<char>)
    ensures
        (load_kind_spec(t) == LoadKind::F64) <==> (t == seq!['f', '6', '4'] || t == seq![
            'f',
            'l',
            'o',
            'a',
            't',
        ] || t == seq!['d', 'o', 'u', 'b', 'l', 'e']),
        (load_kind_spec(t) == LoadKind::Ptr) <==> (t == seq!['p', 'o', 'i', 'n', 't', 'e', 'r']
            || t == seq!['s', 't', 'r']),
        (load_kind_spec(t) == LoadKind::I32) <==> (t == seq!['i', '3', '2'] || t == seq![
            'i',
            'n',
            't',
        ] || t == seq!['b', 'o', 'o', 'l']),
{
    reveal_strlit("pointer");
    reveal_strlit("str");
    reveal_strlit("i32");
    reveal_strlit("int");
    reveal_strlit("bool");
    reveal_strlit("i64");
    reveal_strlit("long");
    reveal_strlit("f64");
    reveal_strlit("float");
    reveal_strlit("double");
    assert("pointer"@ =~= seq!['p', 'o', 'i', 'n', 't', 'e', 'r']);
    assert("str"@ =~= seq!['s', 't', 'r']);
    assert("i32"@ =~= seq!['i', '3', '2']);
    assert("int"@ =~= seq!['i', 'n', 't']);
    assert("bool"@ =~= seq!['b', 'o', 'o', 'l']);
    assert("i64"@ =~= seq!['i', '6', '4']);
    assert("long"@ =~= seq!['l', 'o', 'n', 'g']);
    assert("f64"@ =~= seq!['f', '6', '4']);
    assert("float"@ =~= seq!['f', 'l', 'o', 'a', 't']);
    assert("double"@ =~= seq!['d', 'o', 'u', 'b', 'l', 'e']);
}

} // verus!
