use alshc::lowering::{
    c_function_signature, call_target, load_kind, piece_conversion, printf_signature,
    returns_c_string_name, runtime_signature, stdlib_signature, varargs_helper_signature,
    varargs_kind_of, CType, CallTarget, FnSig, LoadKind, PieceConversion,
};

fn parts(s: &FnSig) -> (CType, Vec<CType>, bool) {
    (s.ret, s.params.clone(), s.variadic)
}

#[test]
fn stdlib_signatures() {
    let s = stdlib_signature("alsh_std_replace").unwrap();
    assert_eq!(parts(&s), (CType::Ptr, vec![CType::Ptr, CType::Ptr, CType::Ptr], false));
    let s = stdlib_signature("alsh_std_println").unwrap();
    assert_eq!(parts(&s), (CType::Void, vec![CType::Ptr], false));
    let s = stdlib_signature("alsh_std_repeat").unwrap();
    assert_eq!(parts(&s), (CType::Ptr, vec![CType::Ptr, CType::I32], false));
    assert_eq!(stdlib_signature("alsh_std_nope").unwrap_err(), "Unknown stdlib function: alsh_std_nope");
}

#[test]
fn c_function_signatures() {
    let s = c_function_signature("printf").unwrap();
    assert_eq!(parts(&s), (CType::I32, vec![CType::Ptr], true));
    let s = c_function_signature("malloc").unwrap();
    assert_eq!(parts(&s), (CType::Ptr, vec![CType::I64], false));
    assert_eq!(c_function_signature("exit").unwrap_err(), "Unknown C function: exit");
    assert_eq!(parts(&printf_signature()), (CType::I32, vec![CType::Ptr], true));
}

#[test]
fn runtime_and_varargs_signatures() {
    let s = runtime_signature("alsh_varargs_get_f64").unwrap();
    assert_eq!(parts(&s), (CType::F64, vec![CType::Ptr, CType::I64], false));
    assert!(runtime_signature("alsh_nothing").is_none());
    // A call that names a `get` helper declares it with the suffix read one character
    // early, which names no type: the result is declared `i32`.
    let s = varargs_helper_signature("alsh_varargs_get_f64").unwrap();
    assert_eq!(parts(&s), (CType::I32, vec![CType::Ptr, CType::I64], false));
    let s = varargs_helper_signature("alsh_varargs_store_f64").unwrap();
    assert_eq!(parts(&s), (CType::Void, vec![CType::Ptr, CType::I64, CType::F64], false));
    assert!(varargs_helper_signature("printf").is_none());
}

#[test]
fn varargs_kinds_and_c_string_results() {
    assert_eq!(varargs_kind_of("double"), "f64");
    assert_eq!(varargs_kind_of("long"), "i64");
    assert_eq!(varargs_kind_of("str"), "ptr");
    assert_eq!(varargs_kind_of("bool"), "i32");
    assert!(returns_c_string_name("alsh_std_upper"));
    assert!(!returns_c_string_name("alsh_std_print"));
}

#[test]
fn call_targets() {
    match call_target("std::println", false) {
        Ok(CallTarget::Stdlib(c)) => assert_eq!(c, "alsh_std_println"),
        other => panic!("unexpected {:?}", other),
    }
    assert!(matches!(call_target("foo", true), Ok(CallTarget::User)));
    assert!(matches!(call_target("alsh_varargs_get_i32", false), Ok(CallTarget::User)));
    assert!(matches!(call_target("alsh_str_concat", false), Ok(CallTarget::Runtime)));
    assert_eq!(call_target("foo", false).unwrap_err(), "Unknown function: foo");
}

#[test]
fn variables_are_read_by_their_declared_type() {
    assert_eq!(load_kind("pointer"), LoadKind::Ptr);
    assert_eq!(load_kind("str"), LoadKind::Ptr);
    assert_eq!(load_kind("bool"), LoadKind::I32);
    assert_eq!(load_kind("int"), LoadKind::I32);
    assert_eq!(load_kind("long"), LoadKind::I64);
    assert_eq!(load_kind("double"), LoadKind::F64);
    assert_eq!(load_kind("whatever"), LoadKind::I64);
}

#[test]
fn interpolated_variables_are_converted_by_their_declared_type() {
    assert_eq!(piece_conversion("int"), Ok(PieceConversion::WidenToStr));
    assert_eq!(piece_conversion("bool"), Ok(PieceConversion::WidenToStr));
    assert_eq!(piece_conversion("i64"), Ok(PieceConversion::ToStr));
    assert_eq!(piece_conversion("pointer"), Ok(PieceConversion::AsIs));
    assert_eq!(
        piece_conversion("f64"),
        Err("interpolation not yet supported for type: f64".to_string())
    );
}
