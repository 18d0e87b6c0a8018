use perl_xs::derive::decode::{from_kv, FieldDecl, FieldKind, FieldValue, StructDecl};
use perl_xs::error::{ToStructErr, ToStructErrPart};
use perl_xs::raw::Interpreter;
use perl_xs::{Context, NV};

fn test_struct() -> StructDecl {
    StructDecl {
        name: "TestStruct",
        fields: vec![
            FieldDecl { name: "alpha", keys: &["alpha"], ty: "bool", kind: FieldKind::Bool, optional: false },
            FieldDecl { name: "beta", keys: &["beta"], ty: "String", kind: FieldKind::Text, optional: false },
            FieldDecl {
                name: "charlie",
                keys: &["-charlie", "-charles", "-chuck"],
                ty: "String",
                kind: FieldKind::Text,
                optional: false,
            },
            FieldDecl { name: "delta", keys: &["delta"], ty: "bool", kind: FieldKind::Bool, optional: true },
            FieldDecl { name: "echo", keys: &["_echo"], ty: "String", kind: FieldKind::Text, optional: true },
        ],
    }
}

fn small_struct() -> StructDecl {
    StructDecl {
        name: "Small",
        fields: vec![
            FieldDecl { name: "required", keys: &["required"], ty: "String", kind: FieldKind::Text, optional: false },
            FieldDecl { name: "optional", keys: &["optional"], ty: "bool", kind: FieldKind::Bool, optional: true },
        ],
    }
}

enum Arg {
    Text(&'static str),
    Bytes(&'static [u8]),
    Int(i64),
    Uint(u64),
    Num(f64),
    Yes,
    Ref,
}

fn context_with(args: &[Arg]) -> Context {
    let mut perl = Interpreter::new();
    for a in args {
        let sv = match a {
            Arg::Text(t) => perl.new_sv_pvn(t.as_bytes(), true),
            Arg::Bytes(b) => perl.new_sv_pvn(b, false),
            Arg::Int(i) => perl.new_sv_iv(*i),
            Arg::Uint(u) => perl.new_sv_uv(*u),
            Arg::Num(x) => perl.new_sv_nv(NV::from_bits(x.to_bits())),
            Arg::Yes => perl.sv_yes(),
            Arg::Ref => {
                let target = perl.sv_undef();
                perl.new_rv_noinc(target)
            },
        };
        perl.push_arg(sv);
    }
    Context::new(perl)
}

fn text(v: &Option<FieldValue>) -> Option<&str> {
    match v {
        Some(FieldValue::Text(s)) => Some(s.as_str()),
        _ => None,
    }
}

fn truth(v: &Option<FieldValue>) -> Option<bool> {
    match v {
        Some(FieldValue::Bool(b)) => Some(*b),
        _ => None,
    }
}

fn parts(e: &ToStructErr) -> Vec<String> {
    e.errors.iter().map(|p| format!("{:?}", p)).collect()
}

#[test]
fn every_field_is_filled_from_its_key() {
    let mut ctx = context_with(&[
        Arg::Text("alpha"),
        Arg::Yes,
        Arg::Text("beta"),
        Arg::Text("b"),
        Arg::Text("-charles"),
        Arg::Text("c"),
        Arg::Text("delta"),
        Arg::Int(0),
        Arg::Text("_echo"),
        Arg::Text("e"),
    ]);
    let mut offset: isize = 0;
    let values = from_kv(&mut ctx, &test_struct(), &mut offset).unwrap();
    assert_eq!(offset, 10);
    assert_eq!(values.len(), 5);
    assert_eq!(truth(&values[0]), Some(true));
    assert_eq!(text(&values[1]), Some("b"));
    assert_eq!(text(&values[2]), Some("c"));
    assert_eq!(truth(&values[3]), Some(false));
    assert_eq!(text(&values[4]), Some("e"));
}

#[test]
fn optional_fields_may_be_left_out_and_unknown_keys_are_passed_over() {
    let mut ctx = context_with(&[
        Arg::Text("first"),
        Arg::Text("positional"),
        Arg::Text("-chuck"),
        Arg::Text("c"),
        Arg::Text("nobody"),
        Arg::Ref,
        Arg::Text("beta"),
        Arg::Text("b"),
        Arg::Text("alpha"),
        Arg::Text(""),
    ]);
    let mut offset: isize = 2;
    let values = from_kv(&mut ctx, &test_struct(), &mut offset).unwrap();
    assert_eq!(offset, 10);
    assert_eq!(truth(&values[0]), Some(false));
    assert_eq!(text(&values[1]), Some("b"));
    assert_eq!(text(&values[2]), Some("c"));
    assert!(values[3].is_none());
    assert!(values[4].is_none());
}

#[test]
fn a_later_pair_overrides_an_earlier_one() {
    let mut ctx = context_with(&[
        Arg::Text("required"),
        Arg::Text("one"),
        Arg::Text("required"),
        Arg::Text("two"),
    ]);
    let mut offset: isize = 0;
    let values = from_kv(&mut ctx, &small_struct(), &mut offset).unwrap();
    assert_eq!(text(&values[0]), Some("two"));
    assert!(values[1].is_none());
}

#[test]
fn missing_required_and_malformed_optional_are_reported_together() {
    let mut ctx = context_with(&[Arg::Text("optional"), Arg::Ref]);
    let mut offset: isize = 0;
    let err = from_kv(&mut ctx, &small_struct(), &mut offset).unwrap_err();
    assert_eq!(err.name, "Small");
    assert_eq!(err.errors.len(), 2);
    match &err.errors[0] {
        ToStructErrPart::ValueParseFail { key, offset, ty, error } => {
            assert_eq!(*key, "optional");
            assert_eq!(*offset, 1);
            assert_eq!(*ty, "bool");
            assert_eq!(error, "not a boolean");
        },
        other => panic!("unexpected part {:?}", other),
    }
    match &err.errors[1] {
        ToStructErrPart::OmittedKey(keys) => assert_eq!(*keys, &["required"]),
        other => panic!("unexpected part {:?}", other),
    }
    assert_eq!(
        err.to_string(),
        "Failed to instantiate Small\n\tFailed to parse value of optional as bool: not a boolean\n\tMissing field: required\n"
    );
}

#[test]
fn every_kind_of_problem_is_collected() {
    let mut ctx = context_with(&[
        Arg::Bytes(&[0x62, 0x65, 0xff]),
        Arg::Text("lost"),
        Arg::Text("delta"),
        Arg::Ref,
        Arg::Text("beta"),
        Arg::Bytes(&[0xc3]),
        Arg::Text("-charlie"),
    ]);
    let mut offset: isize = 0;
    let err = from_kv(&mut ctx, &test_struct(), &mut offset).unwrap_err();
    assert_eq!(offset, 8);
    assert_eq!(
        parts(&err),
        vec![
            "KeyParseFail { offset: 0, ty: \"String\", error: \"invalid utf-8 sequence from index 2\" }",
            "ValueParseFail { key: \"delta\", offset: 3, ty: \"bool\", error: \"not a boolean\" }",
            "ValueParseFail { key: \"beta\", offset: 5, ty: \"String\", error: \"invalid utf-8 sequence from index 0\" }",
            "OmittedValue(\"-charlie\")",
            "OmittedKey([\"alpha\"])",
            "OmittedKey([\"beta\"])",
            "OmittedKey([\"-charlie\", \"-charles\", \"-chuck\"])",
        ]
    );
    assert_eq!(
        err.to_string(),
        "Failed to instantiate TestStruct\n\
         \tFailed to parse key at offset 0 as String: invalid utf-8 sequence from index 2\n\
         \tFailed to parse value of delta as bool: not a boolean\n\
         \tFailed to parse value of beta as String: invalid utf-8 sequence from index 0\n\
         \tValue is required for: -charlie\n\
         \tMissing field: alpha\n\
         \tMissing field: beta\n\
         \tMissing one of the following fields: -charlie, -charles, -chuck\n"
    );
}

#[test]
fn no_arguments_report_every_required_field() {
    let mut ctx = context_with(&[]);
    let mut offset: isize = 0;
    let err = from_kv(&mut ctx, &test_struct(), &mut offset).unwrap_err();
    assert_eq!(offset, 0);
    assert_eq!(err.errors.len(), 3);
    let mut offset: isize = 7;
    let err = from_kv(&mut ctx, &small_struct(), &mut offset).unwrap_err();
    assert_eq!(offset, 7);
    assert_eq!(err.errors.len(), 1);
    let mut offset: isize = -4;
    assert!(from_kv(&mut ctx, &small_struct(), &mut offset).is_err());
    assert_eq!(offset, -4);
}

#[test]
fn numbers_are_read_by_kind() {
    let decl = StructDecl {
        name: "Numbers",
        fields: vec![
            FieldDecl { name: "i", keys: &["i"], ty: "IV", kind: FieldKind::Int, optional: false },
            FieldDecl { name: "u", keys: &["u"], ty: "UV", kind: FieldKind::Uint, optional: false },
            FieldDecl { name: "n", keys: &["n"], ty: "NV", kind: FieldKind::Num, optional: false },
        ],
    };
    let mut ctx = context_with(&[
        Arg::Text("i"),
        Arg::Int(-9),
        Arg::Text("u"),
        Arg::Uint(9),
        Arg::Text("n"),
        Arg::Num(0.25),
    ]);
    let mut offset: isize = 0;
    let values = from_kv(&mut ctx, &decl, &mut offset).unwrap();
    match (&values[0], &values[1], &values[2]) {
        (Some(FieldValue::Int(i)), Some(FieldValue::Uint(u)), Some(FieldValue::Num(n))) => {
            assert_eq!(*i, -9);
            assert_eq!(*u, 9);
            assert_eq!(f64::from_bits(n.to_bits()), 0.25);
        },
        other => panic!("unexpected values {:?}", other),
    }
}

#[test]
fn decoding_leaves_the_arguments_alone() {
    let mut ctx = context_with(&[Arg::Text("required"), Arg::Text("x")]);
    let before: Vec<usize> = (0..ctx.perl.heap_len()).map(|p| ctx.perl.sv_refcnt(p)).collect();
    let mut offset: isize = 0;
    assert!(from_kv(&mut ctx, &small_struct(), &mut offset).is_ok());
    let after: Vec<usize> = (0..ctx.perl.heap_len()).map(|p| ctx.perl.sv_refcnt(p)).collect();
    assert_eq!(before, after);
    assert_eq!(ctx.st_items(), 2);
}

#[test]
fn kinds_are_known_by_the_name_of_the_type() {
    assert_eq!(FieldKind::of_type("bool"), Some(FieldKind::Bool));
    assert_eq!(FieldKind::of_type("IV"), Some(FieldKind::Int));
    assert_eq!(FieldKind::of_type("i64"), Some(FieldKind::Int));
    assert_eq!(FieldKind::of_type("UV"), Some(FieldKind::Uint));
    assert_eq!(FieldKind::of_type("u64"), Some(FieldKind::Uint));
    assert_eq!(FieldKind::of_type("NV"), Some(FieldKind::Num));
    assert_eq!(FieldKind::of_type("String"), Some(FieldKind::Text));
    assert_eq!(FieldKind::of_type("SV"), Some(FieldKind::Scalar));
    assert_eq!(FieldKind::of_type("AV"), Some(FieldKind::Array));
    assert_eq!(FieldKind::of_type("HV"), Some(FieldKind::Hash));
    assert_eq!(FieldKind::of_type("Option < bool >"), None);
    assert_eq!(FieldKind::of_type(""), None);
}

#[test]
fn decoding_twice_gives_the_same() {
    let mut ctx = context_with(&[
        Arg::Text("alpha"),
        Arg::Int(1),
        Arg::Text("beta"),
        Arg::Text("b"),
        Arg::Text("-chuck"),
        Arg::Text("c"),
    ]);
    let mut offset: isize = 0;
    let auto = from_kv(&mut ctx, &test_struct(), &mut offset).unwrap();
    let mut index: isize = 0;
    let manual = from_kv(&mut ctx, &test_struct(), &mut index).unwrap();
    assert_eq!(format!("{:?}", auto), format!("{:?}", manual));
    assert_eq!(
        format!("{:?}", auto),
        "[Some(Bool(true)), Some(Text(\"b\")), Some(Text(\"c\")), None, None]"
    );
    assert_eq!(offset, index);
}

fn handle_struct() -> StructDecl {
    StructDecl {
        name: "Handles",
        fields: vec![
            FieldDecl { name: "any", keys: &["any"], ty: "SV", kind: FieldKind::Scalar, optional: false },
            FieldDecl { name: "list", keys: &["list"], ty: "AV", kind: FieldKind::Array, optional: false },
            FieldDecl { name: "map", keys: &["map"], ty: "HV", kind: FieldKind::Hash, optional: true },
        ],
    }
}

fn push_pairs(perl: &mut Interpreter, pairs: &[(&str, usize)]) {
    let mut pushed: Vec<usize> = Vec::new();
    for (key, value) in pairs {
        let k = perl.new_sv_pvn(key.as_bytes(), true);
        perl.push_arg(k);
        if pushed.contains(value) {
            perl.sv_refcnt_inc(*value);
        }
        perl.push_arg(*value);
        pushed.push(*value);
    }
}

fn handle_context() -> (Context, usize, usize, usize) {
    let mut perl = Interpreter::new();
    let any = perl.new_sv_iv(3);
    let list = perl.new_av();
    let map = perl.new_hv();
    let list_ref = perl.new_rv_noinc(list);
    let map_ref = perl.new_rv_noinc(map);
    push_pairs(&mut perl, &[("any", any), ("list", list_ref), ("map", map_ref)]);
    (Context::new(perl), any, list, map)
}

#[test]
fn handles_are_decoded_and_hold_their_units() {
    let (mut ctx, any, list, map) = handle_context();
    let mut offset: isize = 0;
    let mut values = from_kv(&mut ctx, &handle_struct(), &mut offset).unwrap();
    assert_eq!(offset, 6);
    assert_eq!(ctx.perl.sv_refcnt(any), 2);
    assert_eq!(ctx.perl.sv_refcnt(list), 2);
    assert_eq!(ctx.perl.sv_refcnt(map), 2);
    match (values.remove(0), values.remove(0), values.remove(0)) {
        (Some(FieldValue::Scalar(sv)), Some(FieldValue::Array(av)), Some(FieldValue::Hash(hv))) => {
            assert_eq!(sv.as_ptr(), any);
            assert_eq!(sv.iv(&ctx.perl), 3);
            assert_eq!(av.as_ptr(), list);
            assert_eq!(av.top_index(&ctx.perl), -1);
            assert_eq!(hv.as_ptr(), map);
            sv.drop(&mut ctx.perl);
            av.drop(&mut ctx.perl);
            hv.drop(&mut ctx.perl);
        },
        other => panic!("unexpected values {:?}", other),
    }
    assert_eq!(ctx.perl.sv_refcnt(any), 1);
    assert_eq!(ctx.perl.sv_refcnt(list), 1);
    assert_eq!(ctx.perl.sv_refcnt(map), 1);
}

#[test]
fn handles_are_dropped_where_the_arguments_are_wrong() {
    let mut perl = Interpreter::new();
    let any = perl.new_sv_iv(3);
    let map = perl.new_hv();
    let map_ref = perl.new_rv_noinc(map);
    push_pairs(&mut perl, &[("any", any), ("any", any), ("map", map_ref), ("list", map_ref)]);
    let before: Vec<usize> = (0..perl.heap_len()).map(|p| perl.sv_refcnt(p)).collect();
    let mut ctx = Context::new(perl);
    let mut offset: isize = 0;
    let err = from_kv(&mut ctx, &handle_struct(), &mut offset).unwrap_err();
    assert_eq!(
        parts(&err),
        vec![
            "ValueParseFail { key: \"list\", offset: 7, ty: \"AV\", error: \"not an array reference\" }",
            "OmittedKey([\"list\"])",
        ]
    );
    let after: Vec<usize> = (0..ctx.perl.heap_len()).map(|p| ctx.perl.sv_refcnt(p)).collect();
    assert_eq!(before, after);
    for p in 0..ctx.perl.heap_len() {
        assert_eq!(ctx.perl.sv_held(p), 0);
    }
}

#[test]
fn a_later_handle_takes_the_place_of_an_earlier_one() {
    let mut perl = Interpreter::new();
    let one = perl.new_sv_iv(1);
    let two = perl.new_sv_iv(2);
    let list = perl.new_av();
    let list_ref = perl.new_rv_noinc(list);
    push_pairs(&mut perl, &[("any", one), ("list", list_ref), ("any", two), ("any", two)]);
    let mut ctx = Context::new(perl);
    let mut offset: isize = 0;
    let values = from_kv(&mut ctx, &handle_struct(), &mut offset).unwrap();
    assert_eq!(ctx.perl.sv_refcnt(one), 1);
    assert_eq!(ctx.perl.sv_held(one), 0);
    assert_eq!(ctx.perl.sv_refcnt(two), 3);
    assert_eq!(ctx.perl.sv_held(two), 1);
    assert_eq!(ctx.perl.sv_held(list), 1);
    assert!(values[2].is_none());
}
