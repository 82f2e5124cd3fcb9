use study_schema::attrs::{insert_attr, normalize_attrs, str_less};
use study_schema::codec::{decode_attrs, encode_attrs, decode_param, decode_range, decode_value_def, encode_param, encode_range, encode_value_def};
use study_schema::nullable_f64_vec::{deserialize, serialize};
use study_schema::{
    decode, encode, Attr, DecodeError, Direction, EvalRecord, EvalState, Field, Float, ParamDef,
    ParamRange, Record, Scale, Span, SpanDef, StudyRecord, ValueDef, ValueRange, Wire,
};

fn fl(x: f64) -> Float {
    Float::from_bits(x.to_bits())
}

fn val(f: Float) -> f64 {
    f64::from_bits(f.to_bits())
}

fn st(s: &str) -> String {
    s.to_string()
}

fn obj(w: &Wire) -> &Vec<Field> {
    match w {
        Wire::Obj(fs) => fs,
        _ => panic!("not an object"),
    }
}

fn get<'a>(w: &'a Wire, key: &str) -> Option<&'a Wire> {
    obj(w).iter().find(|f| f.key == key).map(|f| &f.value)
}

fn keys(w: &Wire) -> Vec<String> {
    obj(w).iter().map(|f| f.key.clone()).collect()
}

fn field(key: &str, value: Wire) -> Field {
    Field { key: st(key), value }
}

fn study_s1() -> StudyRecord {
    StudyRecord {
        id: st("s1"),
        attrs: Vec::new(),
        spans: Vec::new(),
        params: vec![ParamDef::continuous(st("lr"), fl(1e-5), fl(1.0))],
        values: vec![ValueDef::new(st("acc"), Direction::Maximize)],
    }
}

#[test]
fn categorical_range_accessors() {
    let r = ParamRange::categorical(vec![st("a"), st("b"), st("c")]);
    assert_eq!(val(r.min()), 0.0);
    assert_eq!(val(r.max()), 3.0);
    assert_eq!(r.scale(), Scale::Linear);
}

#[test]
fn numerical_range_accessors() {
    let r = ParamRange::log_continuous(fl(1e-5), fl(1.0));
    assert_eq!(val(r.min()), 1e-5);
    assert_eq!(val(r.max()), 1.0);
    assert_eq!(r.scale(), Scale::Log);
    let d = ParamRange::discrete(fl(0.0), fl(10.0), fl(2.0));
    match d {
        ParamRange::Numerical { step, scale, .. } => {
            assert_eq!(val(step.unwrap()), 2.0);
            assert_eq!(scale, Scale::Linear);
        }
        _ => panic!("expected a numerical range"),
    }
}

#[test]
fn count_to_double_is_exact() {
    for n in [0u64, 1, 2, 3, 7, 1000, 123_456_789, 1 << 52, (1 << 53) - 1, 1 << 53] {
        assert_eq!(val(Float::from_count(n)), n as f64);
    }
}

#[test]
fn count_to_double_rounds_to_nearest_even() {
    let cases = [
        (1u64 << 53) + 1,
        (1 << 53) + 2,
        (1 << 53) + 3,
        (1 << 54) + 2,
        (1 << 54) + 6,
        (1 << 60) + 1,
        (1 << 63) + (1 << 10),
        (1 << 63) + (1 << 10) + 1,
        u64::MAX,
        u64::MAX - (1 << 11),
        123_456_789_012_345_678,
    ];
    for n in cases {
        assert_eq!(Float::from_count(n).to_bits(), (n as f64).to_bits(), "{}", n);
    }
    assert_eq!(val(Float::from_count((1 << 53) + 1)), 9007199254740992.0);
    assert_eq!(val(Float::from_count((1 << 53) + 3)), 9007199254740996.0);
}

#[test]
fn direction_better() {
    assert_eq!(val(Direction::Minimize.better(fl(3.0), fl(5.0))), 3.0);
    assert_eq!(val(Direction::Maximize.better(fl(3.0), fl(5.0))), 5.0);
    assert_eq!(val(Direction::Minimize.better(fl(-2.0), fl(-7.5))), -7.5);
    assert_eq!(val(Direction::Maximize.better(fl(-2.0), fl(-7.5))), -2.0);
    assert_eq!(val(Direction::Minimize.better(fl(f64::NAN), fl(4.0))), 4.0);
    assert_eq!(val(Direction::Maximize.better(fl(4.0), fl(f64::NAN))), 4.0);
    assert_eq!(val(Direction::Maximize.better(fl(f64::NEG_INFINITY), fl(-1e300))), -1e300);
    assert!(val(Direction::Minimize.better(fl(f64::NAN), fl(f64::NAN))).is_nan());
}

#[test]
fn enum_predicates() {
    assert!(Direction::Minimize.is_minimize());
    assert!(!Direction::Minimize.is_maximize());
    assert!(Direction::Maximize.is_maximize());
    assert!(EvalState::Complete.is_complete());
    assert!(EvalState::Interim.is_interm());
    assert!(EvalState::Failed.is_failed());
    assert!(EvalState::Infeasible.is_infeasible());
    assert!(!EvalState::Interim.is_complete());
    assert!(Scale::Linear.is_default());
    assert!(!Scale::Log.is_default());
    assert_eq!(Scale::default(), Scale::Linear);
}

#[test]
fn nullable_codec_encode() {
    let w = serialize(&vec![fl(1.0), fl(f64::NAN), fl(2.5)]);
    match w {
        Wire::Arr(items) => {
            assert_eq!(items.len(), 3);
            assert!(matches!(items[0], Wire::Num(f) if val(f) == 1.0));
            assert!(matches!(items[1], Wire::Null));
            assert!(matches!(items[2], Wire::Num(f) if val(f) == 2.5));
        }
        _ => panic!("expected an array"),
    }
}

#[test]
fn nullable_codec_decode() {
    let v = deserialize(&Wire::Arr(vec![Wire::Null, Wire::Null])).unwrap();
    assert_eq!(v.len(), 2);
    assert!(val(v[0]).is_nan());
    assert!(val(v[1]).is_nan());
    let bad = deserialize(&Wire::Arr(vec![Wire::Str(st("x"))]));
    assert_eq!(bad.unwrap_err(), DecodeError::Malformed);
    assert!(deserialize(&Wire::Null).is_err());
}

#[test]
fn default_value_range_is_omitted() {
    let r = ValueRange::default();
    assert!(r.is_default());
    let w = encode_range(&r);
    assert!(obj(&w).is_empty());
    let back = decode_range(&Wire::Obj(Vec::new())).unwrap();
    assert_eq!(back.min.to_bits(), f64::NEG_INFINITY.to_bits());
    assert_eq!(back.max.to_bits(), f64::INFINITY.to_bits());
    let d = encode_value_def(&ValueDef::new(st("acc"), Direction::Minimize));
    assert_eq!(keys(&d), vec![st("name"), st("direction")]);
}

#[test]
fn bounded_value_range_keeps_bounds() {
    let r = ValueRange { min: fl(0.0), max: fl(f64::INFINITY) };
    let w = encode_range(&r);
    assert_eq!(keys(&w), vec![st("min")]);
    let d = ValueDef { name: st("loss"), range: ValueRange { min: fl(0.0), max: fl(1.0) }, direction: Direction::Minimize };
    let w = encode_value_def(&d);
    assert_eq!(keys(&w), vec![st("name"), st("range"), st("direction")]);
    let back = decode_value_def(&w).unwrap();
    assert_eq!(val(back.range.min), 0.0);
    assert_eq!(val(back.range.max), 1.0);
    assert_eq!(back.direction, Direction::Minimize);
}

#[test]
fn param_def_is_flattened() {
    let w = encode_param(&ParamDef::log_continuous(st("lr"), fl(1e-5), fl(1.0)));
    assert_eq!(keys(&w), vec![st("name"), st("type"), st("min"), st("max"), st("scale")]);
    assert!(matches!(get(&w, "type"), Some(Wire::Str(s)) if s == "numerical"));
    assert!(matches!(get(&w, "scale"), Some(Wire::Str(s)) if s == "LOG"));
    let w = encode_param(&ParamDef::discrete(st("n"), fl(1.0), fl(9.0), fl(2.0)));
    assert_eq!(keys(&w), vec![st("name"), st("type"), st("min"), st("max"), st("step")]);
    let back = decode_param(&w).unwrap();
    match back.range {
        ParamRange::Numerical { min, max, step, scale } => {
            assert_eq!(val(min), 1.0);
            assert_eq!(val(max), 9.0);
            assert_eq!(val(step.unwrap()), 2.0);
            assert_eq!(scale, Scale::Linear);
        }
        _ => panic!("expected a numerical range"),
    }
    let w = encode_param(&ParamDef::categorical(st("opt"), vec![st("adam"), st("sgd")]));
    assert_eq!(keys(&w), vec![st("name"), st("type"), st("choices")]);
    let back = decode_param(&w).unwrap();
    assert_eq!(back.name, "opt");
    match back.range {
        ParamRange::Categorical { choices } => assert_eq!(choices, vec![st("adam"), st("sgd")]),
        _ => panic!("expected a categorical range"),
    }
}

#[test]
fn unknown_param_tag_is_rejected() {
    let w = Wire::Obj(vec![field("name", Wire::Str(st("x"))), field("type", Wire::Str(st("ordinal")))]);
    assert_eq!(decode_param(&w).unwrap_err(), DecodeError::Malformed);
}

#[test]
fn unknown_record_tag_is_rejected() {
    let mut w = encode(&Record::Study(study_s1()));
    if let Wire::Obj(fs) = &mut w {
        fs[0].value = Wire::Str(st("study-end"));
    }
    assert_eq!(decode(&w).unwrap_err(), DecodeError::Malformed);
}

#[test]
fn missing_record_tag_is_rejected() {
    let mut w = encode(&Record::Study(study_s1()));
    if let Wire::Obj(fs) = &mut w {
        fs.remove(0);
    }
    assert!(decode(&w).is_err());
    assert!(decode(&Wire::Null).is_err());
}

#[test]
fn wrong_field_type_is_rejected() {
    let e = EvalRecord {
        study: st("s1"),
        trial: 4,
        state: EvalState::Complete,
        spans: Vec::new(),
        params: vec![fl(0.5)],
        values: vec![fl(0.9)],
    };
    let mut w = encode(&Record::Eval(e));
    if let Wire::Obj(fs) = &mut w {
        fs[2].value = Wire::Str(st("4"));
    }
    assert_eq!(decode(&w).unwrap_err(), DecodeError::Malformed);
}

#[test]
fn oversized_trial_is_rejected() {
    let w = Wire::Obj(vec![
        field("type", Wire::Str(st("eval"))),
        field("study", Wire::Str(st("s1"))),
        field("trial", Wire::Int(1 << 32)),
        field("state", Wire::Str(st("FAILED"))),
        field("spans", Wire::Arr(Vec::new())),
        field("params", Wire::Arr(Vec::new())),
        field("values", Wire::Arr(Vec::new())),
    ]);
    assert!(decode(&w).is_err());
}

#[test]
fn study_round_trip() {
    let s = StudyRecord {
        id: st("study-7"),
        attrs: vec![Attr { key: st("owner"), value: st("lab") }],
        spans: vec![SpanDef::new(st("train")), SpanDef::new(st("eval"))],
        params: vec![
            ParamDef::continuous(st("dropout"), fl(0.0), fl(0.5)),
            ParamDef::categorical(st("act"), vec![st("relu"), st("tanh")]),
        ],
        values: vec![ValueDef {
            name: st("loss"),
            range: ValueRange { min: fl(0.0), max: fl(f64::INFINITY) },
            direction: Direction::Minimize,
        }],
    };
    let w = encode(&Record::Study(s));
    let back = match decode(&w).unwrap() {
        Record::Study(s) => s,
        _ => panic!("expected a study"),
    };
    assert_eq!(back.id, "study-7");
    assert_eq!(back.attrs[0].key, "owner");
    assert_eq!(back.attrs[0].value, "lab");
    assert_eq!(back.spans[1].name, "eval");
    assert_eq!(back.params[1].name, "act");
    assert_eq!(val(back.values[0].range.min), 0.0);
    assert_eq!(back.values[0].range.max.to_bits(), f64::INFINITY.to_bits());
    assert_eq!(format!("{:?}", encode(&Record::Study(back))), format!("{:?}", w));
}

#[test]
fn eval_round_trip_keeps_absent_values() {
    let e = EvalRecord {
        study: st("s1"),
        trial: 12,
        state: EvalState::Interim,
        spans: vec![Span::new(fl(1.5), fl(4.0))],
        params: vec![fl(0.1), fl(f64::NAN)],
        values: vec![fl(f64::NAN), fl(0.75)],
    };
    let w = encode(&Record::Eval(e));
    assert!(matches!(get(&w, "type"), Some(Wire::Str(s)) if s == "eval"));
    assert!(matches!(get(&w, "trial"), Some(Wire::Int(12))));
    assert!(matches!(get(&w, "state"), Some(Wire::Str(s)) if s == "INTERIM"));
    let back = match decode(&w).unwrap() {
        Record::Eval(e) => e,
        _ => panic!("expected an eval"),
    };
    assert_eq!(back.study, "s1");
    assert_eq!(back.trial, 12);
    assert_eq!(back.state, EvalState::Interim);
    assert_eq!(val(back.spans[0].start()), 1.5);
    assert_eq!(val(back.spans[0].end()), 4.0);
    assert_eq!(val(back.params[0]), 0.1);
    assert!(val(back.params[1]).is_nan());
    assert!(val(back.values[0]).is_nan());
    assert_eq!(val(back.values[1]), 0.75);
}

#[test]
fn end_to_end_reencoding_is_identical() {
    let first = encode(&Record::Study(study_s1()));
    assert_eq!(keys(&first), vec![st("type"), st("id"), st("attrs"), st("spans"), st("params"), st("values")]);
    let decoded = decode(&first).unwrap();
    let second = encode(&decoded);
    assert_eq!(format!("{:?}", first), format!("{:?}", second));
}

#[test]
fn integers_read_as_doubles() {
    let w = Wire::Obj(vec![
        field("name", Wire::Str(st("depth"))),
        field("type", Wire::Str(st("numerical"))),
        field("min", Wire::Int(0)),
        field("max", Wire::Int(12)),
        field("step", Wire::Int(3)),
    ]);
    let d = decode_param(&w).unwrap();
    assert_eq!(val(d.range.min()), 0.0);
    assert_eq!(val(d.range.max()), 12.0);
    match d.range {
        ParamRange::Numerical { step, .. } => assert_eq!(val(step.unwrap()), 3.0),
        _ => panic!("expected a numerical range"),
    }
    let v = deserialize(&Wire::Arr(vec![Wire::Int(5), Wire::Null, Wire::Num(fl(-0.5))])).unwrap();
    assert_eq!(val(v[0]), 5.0);
    assert!(val(v[1]).is_nan());
    assert_eq!(val(v[2]), -0.5);
    let big = deserialize(&Wire::Arr(vec![Wire::Int(1 << 60), Wire::Int((1 << 53) + 1), Wire::Int(u64::MAX)])).unwrap();
    assert_eq!(val(big[0]), (1u64 << 60) as f64);
    assert_eq!(val(big[1]), 9007199254740992.0);
    assert_eq!(val(big[2]), 18446744073709551616.0);
}

#[test]
fn missing_field_is_rejected() {
    let w = Wire::Obj(vec![field("name", Wire::Str(st("x"))), field("type", Wire::Str(st("numerical"))), field("min", Wire::Num(fl(0.0)))]);
    assert_eq!(decode_param(&w).unwrap_err(), DecodeError::Malformed);
    let w = Wire::Obj(vec![field("name", Wire::Str(st("acc")))]);
    assert!(decode_value_def(&w).is_err());
}

#[test]
fn unknown_fields_are_ignored() {
    let w = Wire::Obj(vec![
        field("type", Wire::Str(st("study"))),
        field("id", Wire::Str(st("s2"))),
        field("note", Wire::Bool(true)),
        field("spans", Wire::Arr(Vec::new())),
        field("params", Wire::Arr(Vec::new())),
        field("values", Wire::Arr(Vec::new())),
    ]);
    match decode(&w).unwrap() {
        Record::Study(s) => {
            assert_eq!(s.id, "s2");
            assert!(s.attrs.is_empty());
        }
        _ => panic!("expected a study"),
    }
}

fn attr(k: &str, v: &str) -> Attr {
    Attr { key: st(k), value: st(v) }
}

fn pairs(v: &[Attr]) -> Vec<(String, String)> {
    v.iter().map(|a| (a.key.clone(), a.value.clone())).collect()
}

#[test]
fn string_order_matches_std() {
    let words = ["", "a", "ab", "b", "B", "\u{e9}", "z\u{1f600}", "aa", "a\u{0}"];
    for x in words {
        for y in words {
            assert_eq!(str_less(&st(x), &st(y)), st(x) < st(y), "{:?} {:?}", x, y);
        }
    }
}

#[test]
fn attrs_are_kept_as_a_sorted_map() {
    let mut v: Vec<Attr> = Vec::new();
    insert_attr(&mut v, st("owner"), st("lab"));
    insert_attr(&mut v, st("device"), st("gpu"));
    insert_attr(&mut v, st("seed"), st("1"));
    insert_attr(&mut v, st("owner"), st("team"));
    assert_eq!(pairs(&v), vec![(st("device"), st("gpu")), (st("owner"), st("team")), (st("seed"), st("1"))]);
    let n = normalize_attrs(&vec![attr("b", "1"), attr("a", "2"), attr("b", "3")]);
    assert_eq!(pairs(&n), vec![(st("a"), st("2")), (st("b"), st("3"))]);
}

#[test]
fn decoded_attrs_are_sorted_and_last_wins() {
    let w = Wire::Obj(vec![
        field("zeta", Wire::Str(st("1"))),
        field("alpha", Wire::Str(st("2"))),
        field("zeta", Wire::Str(st("3"))),
    ]);
    let v = decode_attrs(&w).unwrap();
    assert_eq!(pairs(&v), vec![(st("alpha"), st("2")), (st("zeta"), st("3"))]);
    assert!(decode_attrs(&Wire::Obj(vec![field("k", Wire::Int(1))])).is_err());
}

#[test]
fn equal_maps_encode_identically() {
    let a = normalize_attrs(&vec![attr("x", "1"), attr("y", "2")]);
    let b = normalize_attrs(&vec![attr("y", "2"), attr("x", "1")]);
    assert_eq!(format!("{:?}", encode_attrs(&a)), format!("{:?}", encode_attrs(&b)));
    let mut s1 = study_s1();
    s1.attrs = a;
    let mut s2 = study_s1();
    s2.attrs = b;
    assert_eq!(format!("{:?}", encode(&Record::Study(s1))), format!("{:?}", encode(&Record::Study(s2))));
}
