use vstd::prelude::*;
use crate::attrs::{attrs_valid, attrs_fold, lemma_fold_valid, normalize_attrs};
use crate::float::{Float, count_to_bits, NEG_INF_BITS, INF_BITS};
use crate::wire::{Wire, Field, lookup, first_key, get_field};
use crate::nullable_f64_vec::{enc_nullable, dec_nullable, lemma_nullable_round_trip};
use crate::schema::{
    Scale, Direction, EvalState, ParamRange, RangeModel, ParamDef, ValueRange, ValueDef,
    ValueDefModel, Span, SpanDef, Attr, StudyRecord, StudyModel, EvalRecord, EvalModel, Record,
    RecordModel, strings_view, span_defs_view, spans_view, value_defs_view, params_view,
    attrs_view,
};

verus! {

/// The spelling of every key and literal of the wire format, which tells
/// them apart.
pub proof fn lemma_spelling()
    ensures
        "type"@.len() == 4 && "type"@[0] == 't' && "type"@[1] == 'y' && "type"@[2] == 'p'
            && "type"@[3] == 'e',
        "study"@.len() == 5 && "study"@[0] == 's' && "study"@[1] == 't' && "study"@[2] == 'u'
            && "study"@[3] == 'd' && "study"@[4] == 'y',
        "eval"@.len() == 4 && "eval"@[0] == 'e' && "eval"@[1] == 'v' && "eval"@[2] == 'a'
            && "eval"@[3] == 'l',
        "id"@.len() == 2 && "id"@[0] == 'i' && "id"@[1] == 'd',
        "attrs"@.len() == 5 && "attrs"@[0] == 'a' && "attrs"@[1] == 't' && "attrs"@[2] == 't'
            && "attrs"@[3] == 'r' && "attrs"@[4] == 's',
        "spans"@.len() == 5 && "spans"@[0] == 's' && "spans"@[1] == 'p' && "spans"@[2] == 'a'
            && "spans"@[3] == 'n' && "spans"@[4] == 's',
        "params"@.len() == 6 && "params"@[0] == 'p' && "params"@[1] == 'a'
            && "params"@[2] == 'r' && "params"@[3] == 'a' && "params"@[4] == 'm'
            && "params"@[5] == 's',
        "values"@.len() == 6 && "values"@[0] == 'v' && "values"@[1] == 'a'
            && "values"@[2] == 'l' && "values"@[3] == 'u' && "values"@[4] == 'e'
            && "values"@[5] == 's',
        "name"@.len() == 4 && "name"@[0] == 'n' && "name"@[1] == 'a' && "name"@[2] == 'm'
            && "name"@[3] == 'e',
        "numerical"@.len() == 9 && "numerical"@[0] == 'n' && "numerical"@[1] == 'u'
            && "numerical"@[2] == 'm' && "numerical"@[3] == 'e' && "numerical"@[4] == 'r'
            && "numerical"@[5] == 'i' && "numerical"@[6] == 'c' && "numerical"@[7] == 'a'
            && "numerical"@[8] == 'l',
        "categorical"@.len() == 11 && "categorical"@[0] == 'c' && "categorical"@[1] == 'a'
            && "categorical"@[2] == 't' && "categorical"@[3] == 'e' && "categorical"@[4] == 'g'
            && "categorical"@[5] == 'o' && "categorical"@[6] == 'r' && "categorical"@[7] == 'i'
            && "categorical"@[8] == 'c' && "categorical"@[9] == 'a' && "categorical"@[10] == 'l',
        "min"@.len() == 3 && "min"@[0] == 'm' && "min"@[1] == 'i' && "min"@[2] == 'n',
        "max"@.len() == 3 && "max"@[0] == 'm' && "max"@[1] == 'a' && "max"@[2] == 'x',
        "step"@.len() == 4 && "step"@[0] == 's' && "step"@[1] == 't' && "step"@[2] == 'e'
            && "step"@[3] == 'p',
        "scale"@.len() == 5 && "scale"@[0] == 's' && "scale"@[1] == 'c' && "scale"@[2] == 'a'
            && "scale"@[3] == 'l' && "scale"@[4] == 'e',
        "choices"@.len() == 7 && "choices"@[0] == 'c' && "choices"@[1] == 'h'
            && "choices"@[2] == 'o' && "choices"@[3] == 'i' && "choices"@[4] == 'c'
            && "choices"@[5] == 'e' && "choices"@[6] == 's',
        "range"@.len() == 5 && "range"@[0] == 'r' && "range"@[1] == 'a' && "range"@[2] == 'n'
            && "range"@[3] == 'g' && "range"@[4] == 'e',
        "direction"@.len() == 9 && "direction"@[0] == 'd' && "direction"@[1] == 'i'
            && "direction"@[2] == 'r' && "direction"@[3] == 'e' && "direction"@[4] == 'c'
            && "direction"@[5] == 't' && "direction"@[6] == 'i' && "direction"@[7] == 'o'
            && "direction"@[8] == 'n',
        "trial"@.len() == 5 && "trial"@[0] == 't' && "trial"@[1] == 'r' && "trial"@[2] == 'i'
            && "trial"@[3] == 'a' && "trial"@[4] == 'l',
        "state"@.len() == 5 && "state"@[0] == 's' && "state"@[1] == 't' && "state"@[2] == 'a'
            && "state"@[3] == 't' && "state"@[4] == 'e',
        "start"@.len() == 5 && "start"@[0] == 's' && "start"@[1] == 't' && "start"@[2] == 'a'
            && "start"@[3] == 'r' && "start"@[4] == 't',
        "end"@.len() == 3 && "end"@[0] == 'e' && "end"@[1] == 'n' && "end"@[2] == 'd',
        "LINEAR"@.len() == 6 && "LINEAR"@[0] == 'L' && "LINEAR"@[1] == 'I'
            && "LINEAR"@[2] == 'N' && "LINEAR"@[3] == 'E' && "LINEAR"@[4] == 'A'
            && "LINEAR"@[5] == 'R',
        "LOG"@.len() == 3 && "LOG"@[0] == 'L' && "LOG"@[1] == 'O' && "LOG"@[2] == 'G',
        "MINIMIZE"@.len() == 8 && "MINIMIZE"@[0] == 'M' && "MINIMIZE"@[1] == 'I'
            && "MINIMIZE"@[2] == 'N' && "MINIMIZE"@[3] == 'I' && "MINIMIZE"@[4] == 'M'
            && "MINIMIZE"@[5] == 'I' && "MINIMIZE"@[6] == 'Z' && "MINIMIZE"@[7] == 'E',
        "MAXIMIZE"@.len() == 8 && "MAXIMIZE"@[0] == 'M' && "MAXIMIZE"@[1] == 'A'
            && "MAXIMIZE"@[2] == 'X' && "MAXIMIZE"@[3] == 'I' && "MAXIMIZE"@[4] == 'M'
            && "MAXIMIZE"@[5] == 'I' && "MAXIMIZE"@[6] == 'Z' && "MAXIMIZE"@[7] == 'E',
        "COMPLETE"@.len() == 8 && "COMPLETE"@[0] == 'C' && "COMPLETE"@[1] == 'O'
            && "COMPLETE"@[2] == 'M' && "COMPLETE"@[3] == 'P' && "COMPLETE"@[4] == 'L'
            && "COMPLETE"@[5] == 'E' && "COMPLETE"@[6] == 'T' && "COMPLETE"@[7] == 'E',
        "INTERIM"@.len() == 7 && "INTERIM"@[0] == 'I' && "INTERIM"@[1] == 'N'
            && "INTERIM"@[2] == 'T' && "INTERIM"@[3] == 'E' && "INTERIM"@[4] == 'R'
            && "INTERIM"@[5] == 'I' && "INTERIM"@[6] == 'M',
        "FAILED"@.len() == 6 && "FAILED"@[0] == 'F' && "FAILED"@[1] == 'A'
            && "FAILED"@[2] == 'I' && "FAILED"@[3] == 'L' && "FAILED"@[4] == 'E'
            && "FAILED"@[5] == 'D',
        "INFEASIBLE"@.len() == 10 && "INFEASIBLE"@[0] == 'I' && "INFEASIBLE"@[1] == 'N'
            && "INFEASIBLE"@[2] == 'F' && "INFEASIBLE"@[3] == 'E' && "INFEASIBLE"@[4] == 'A'
            && "INFEASIBLE"@[5] == 'S' && "INFEASIBLE"@[6] == 'I' && "INFEASIBLE"@[7] == 'B'
            && "INFEASIBLE"@[8] == 'L' && "INFEASIBLE"@[9] == 'E',
{
        reveal_strlit("type");
        reveal_strlit("study");
        reveal_strlit("eval");
        reveal_strlit("id");
        reveal_strlit("attrs");
        reveal_strlit("spans");
        reveal_strlit("params");
        reveal_strlit("values");
        reveal_strlit("name");
        reveal_strlit("numerical");
        reveal_strlit("categorical");
        reveal_strlit("min");
        reveal_strlit("max");
        reveal_strlit("step");
        reveal_strlit("scale");
        reveal_strlit("choices");
        reveal_strlit("range");
        reveal_strlit("direction");
        reveal_strlit("trial");
        reveal_strlit("state");
        reveal_strlit("start");
        reveal_strlit("end");
        reveal_strlit("LINEAR");
        reveal_strlit("LOG");
        reveal_strlit("MINIMIZE");
        reveal_strlit("MAXIMIZE");
        reveal_strlit("COMPLETE");
        reveal_strlit("INTERIM");
        reveal_strlit("FAILED");
        reveal_strlit("INFEASIBLE");
}

/// The single kind of decoding failure: the input does not have the shape of
/// a record (unknown or missing tag, missing field, wrong field type).
#[derive(Clone, Copy, Debug, PartialEq, Eq, Structural)]
pub enum DecodeError {
    Malformed,
}

/// The keys of an object, in order.
pub open spec fn keys(fs: Seq<Field>) -> Seq<Seq<char>> {
    fs.map_values(|f: Field| f.key@)
}

pub proof fn lemma_lookup_at(fs: Seq<Field>, k: Seq<char>, i: int)
    requires
        0 <= i < fs.len(),
        keys(fs)[i] == k,
        forall|j: int| 0 <= j < i ==> keys(fs)[j] != k,
    ensures
        lookup(fs, k) == Some(fs[i].value),
{
    assert forall|j: int| 0 <= j < i implies fs[j].key@ != k by {
        assert(keys(fs)[j] == fs[j].key@);
    }
    assert(first_key(fs, k, i));
    let c = choose|c: int| first_key(fs, k, c);
    crate::wire::lemma_first_key_unique(fs, k, i, c);
}

pub proof fn lemma_lookup_absent(fs: Seq<Field>, k: Seq<char>)
    requires
        !keys(fs).contains(k),
    ensures
        lookup(fs, k) is None,
{
    if exists|i: int| first_key(fs, k, i) {
        let i = choose|i: int| first_key(fs, k, i);
        assert(keys(fs)[i] == k);
    }
}

/// Every key of `ks` is looked up at its own position in `fs`.
pub proof fn lemma_lookup_all(fs: Seq<Field>, ks: Seq<Seq<char>>)
    requires
        keys(fs) == ks,
        forall|i: int, j: int| 0 <= i < j < ks.len() ==> ks[i] != ks[j],
    ensures
        forall|i: int| 0 <= i < ks.len() ==> lookup(fs, #[trigger] ks[i]) == Some(fs[i].value),
{
    assert forall|i: int| 0 <= i < ks.len() implies lookup(fs, #[trigger] ks[i]) == Some(fs[i].value) by {
        lemma_lookup_at(fs, ks[i], i);
    }
}

/// `w` is the string `s`.
pub open spec fn is_str(w: Wire, s: Seq<char>) -> bool {
    w is Str && w->Str_0@ == s
}

/// `w` is the number with bits `b`.
pub open spec fn is_num(w: Wire, b: u64) -> bool {
    w is Num && w->Num_0.bits == b
}

/// The object's value under `k` is the string `s`.
pub open spec fn has_str(fs: Seq<Field>, k: Seq<char>, s: Seq<char>) -> bool {
    lookup(fs, k) matches Some(w) && is_str(w, s)
}

/// The object's value under `k` is the number with bits `b`.
pub open spec fn has_num(fs: Seq<Field>, k: Seq<char>, b: u64) -> bool {
    lookup(fs, k) matches Some(w) && is_num(w, b)
}

/// The object's value under `k` is an array of `n` items.
pub open spec fn has_arr(fs: Seq<Field>, k: Seq<char>, n: nat) -> bool {
    lookup(fs, k) matches Some(w) && w is Arr && w->Arr_0@.len() == n
}

/// The items of the array under `k`.
pub open spec fn arr_at(fs: Seq<Field>, k: Seq<char>) -> Seq<Wire> {
    match lookup(fs, k) {
        Some(Wire::Arr(v)) => v@,
        _ => Seq::empty(),
    }
}

/// The fields of an object.
pub open spec fn obj_of(w: Wire) -> Seq<Field> {
    match w {
        Wire::Obj(fs) => fs@,
        _ => Seq::empty(),
    }
}

pub open spec fn dec_str(w: Wire) -> Option<Seq<char>> {
    match w {
        Wire::Str(s) => Some(s@),
        _ => None,
    }
}

/// A number: a double as itself, an integer as the double nearest to it
/// (ties to even), which is the integer itself up to 2^53.
pub open spec fn dec_num(w: Wire) -> Option<u64> {
    match w {
        Wire::Num(f) => Some(f.bits),
        Wire::Int(n) => Some(count_to_bits(n as nat)),
        _ => None,
    }
}

/// Decodes a number into a double.
pub fn decode_number(w: &Wire) -> (r: Result<Float, DecodeError>)
    ensures
        match r {
            Ok(f) => dec_num(*w) == Some(f.bits),
            Err(_) => dec_num(*w) is None,
        },
{
    match w {
        Wire::Num(f) => Ok(*f),
        Wire::Int(n) => Ok(Float::from_count(*n)),
        _ => Err(DecodeError::Malformed),
    }
}

pub open spec fn field_str(fs: Seq<Field>, k: Seq<char>) -> Option<Seq<char>> {
    match lookup(fs, k) {
        Some(w) => dec_str(w),
        None => None,
    }
}

pub open spec fn field_num(fs: Seq<Field>, k: Seq<char>) -> Option<u64> {
    match lookup(fs, k) {
        Some(w) => dec_num(w),
        None => None,
    }
}

/// A number, or the default `d` where the key is absent.
pub open spec fn field_num_or(fs: Seq<Field>, k: Seq<char>, d: u64) -> Option<u64> {
    match lookup(fs, k) {
        Some(w) => dec_num(w),
        None => Some(d),
    }
}

// ---- exec helpers ----

fn field(key: &str, value: Wire) -> (f: Field)
    ensures
        f.key@ == key@,
        f.value == value,
{
    Field { key: key.to_owned(), value }
}

fn lit(s: &str) -> (w: Wire)
    ensures
        is_str(w, s@),
{
    Wire::Str(s.to_owned())
}

fn str_wire(s: &String) -> (w: Wire)
    ensures
        is_str(w, s@),
{
    Wire::Str(s.clone())
}

fn str_is(s: &String, l: &str) -> (r: bool)
    ensures
        r == (s@ == l@),
{
    let t: String = l.to_owned();
    *s == t
}

fn get_str(fs: &Vec<Field>, key: &str) -> (r: Result<String, DecodeError>)
    ensures
        match r {
            Ok(s) => field_str(fs@, key@) == Some(s@),
            Err(_) => field_str(fs@, key@) is None,
        },
{
    match get_field(fs, key) {
        Some(Wire::Str(s)) => Ok(s.clone()),
        _ => Err(DecodeError::Malformed),
    }
}

fn get_num(fs: &Vec<Field>, key: &str) -> (r: Result<Float, DecodeError>)
    ensures
        match r {
            Ok(f) => field_num(fs@, key@) == Some(f.bits),
            Err(_) => field_num(fs@, key@) is None,
        },
{
    match get_field(fs, key) {
        Some(x) => decode_number(x),
        None => Err(DecodeError::Malformed),
    }
}

fn get_num_or(fs: &Vec<Field>, key: &str, d: Float) -> (r: Result<Float, DecodeError>)
    ensures
        match r {
            Ok(f) => field_num_or(fs@, key@, d.bits) == Some(f.bits),
            Err(_) => field_num_or(fs@, key@, d.bits) is None,
        },
{
    match get_field(fs, key) {
        None => Ok(d),
        Some(x) => decode_number(x),
    }
}

// ---- enumerations ----

pub open spec fn scale_str(s: Scale) -> Seq<char> {
    match s {
        Scale::Linear => "LINEAR"@,
        Scale::Log => "LOG"@,
    }
}

pub open spec fn dec_scale(w: Wire) -> Option<Scale> {
    match w {
        Wire::Str(s) => if s@ == "LINEAR"@ {
            Some(Scale::Linear)
        } else if s@ == "LOG"@ {
            Some(Scale::Log)
        } else {
            None
        },
        _ => None,
    }
}

pub open spec fn direction_str(d: Direction) -> Seq<char> {
    match d {
        Direction::Minimize => "MINIMIZE"@,
        Direction::Maximize => "MAXIMIZE"@,
    }
}

pub open spec fn dec_direction(w: Wire) -> Option<Direction> {
    match w {
        Wire::Str(s) => if s@ == "MINIMIZE"@ {
            Some(Direction::Minimize)
        } else if s@ == "MAXIMIZE"@ {
            Some(Direction::Maximize)
        } else {
            None
        },
        _ => None,
    }
}

pub open spec fn state_str(e: EvalState) -> Seq<char> {
    match e {
        EvalState::Complete => "COMPLETE"@,
        EvalState::Interim => "INTERIM"@,
        EvalState::Failed => "FAILED"@,
        EvalState::Infeasible => "INFEASIBLE"@,
    }
}

pub open spec fn dec_state(w: Wire) -> Option<EvalState> {
    match w {
        Wire::Str(s) => if s@ == "COMPLETE"@ {
            Some(EvalState::Complete)
        } else if s@ == "INTERIM"@ {
            Some(EvalState::Interim)
        } else if s@ == "FAILED"@ {
            Some(EvalState::Failed)
        } else if s@ == "INFEASIBLE"@ {
            Some(EvalState::Infeasible)
        } else {
            None
        },
        _ => None,
    }
}

/// Encodes a scale as its upper-case name.
pub fn encode_scale(s: Scale) -> (w: Wire)
    ensures
        is_str(w, scale_str(s)),
{
    match s {
        Scale::Linear => lit("LINEAR"),
        Scale::Log => lit("LOG"),
    }
}

pub fn decode_scale(w: &Wire) -> (r: Result<Scale, DecodeError>)
    ensures
        match r {
            Ok(s) => dec_scale(*w) == Some(s),
            Err(_) => dec_scale(*w) is None,
        },
{
    match w {
        Wire::Str(s) => if str_is(s, "LINEAR") {
            Ok(Scale::Linear)
        } else if str_is(s, "LOG") {
            Ok(Scale::Log)
        } else {
            Err(DecodeError::Malformed)
        },
        _ => Err(DecodeError::Malformed),
    }
}

/// Encodes a direction as its upper-case name.
pub fn encode_direction(d: Direction) -> (w: Wire)
    ensures
        is_str(w, direction_str(d)),
{
    match d {
        Direction::Minimize => lit("MINIMIZE"),
        Direction::Maximize => lit("MAXIMIZE"),
    }
}

pub fn decode_direction(w: &Wire) -> (r: Result<Direction, DecodeError>)
    ensures
        match r {
            Ok(d) => dec_direction(*w) == Some(d),
            Err(_) => dec_direction(*w) is None,
        },
{
    match w {
        Wire::Str(s) => if str_is(s, "MINIMIZE") {
            Ok(Direction::Minimize)
        } else if str_is(s, "MAXIMIZE") {
            Ok(Direction::Maximize)
        } else {
            Err(DecodeError::Malformed)
        },
        _ => Err(DecodeError::Malformed),
    }
}

/// Encodes a trial state as its upper-case name.
pub fn encode_state(e: EvalState) -> (w: Wire)
    ensures
        is_str(w, state_str(e)),
{
    match e {
        EvalState::Complete => lit("COMPLETE"),
        EvalState::Interim => lit("INTERIM"),
        EvalState::Failed => lit("FAILED"),
        EvalState::Infeasible => lit("INFEASIBLE"),
    }
}

pub fn decode_state(w: &Wire) -> (r: Result<EvalState, DecodeError>)
    ensures
        match r {
            Ok(e) => dec_state(*w) == Some(e),
            Err(_) => dec_state(*w) is None,
        },
{
    match w {
        Wire::Str(s) => if str_is(s, "COMPLETE") {
            Ok(EvalState::Complete)
        } else if str_is(s, "INTERIM") {
            Ok(EvalState::Interim)
        } else if str_is(s, "FAILED") {
            Ok(EvalState::Failed)
        } else if str_is(s, "INFEASIBLE") {
            Ok(EvalState::Infeasible)
        } else {
            Err(DecodeError::Malformed)
        },
        _ => Err(DecodeError::Malformed),
    }
}

/// A scale's name decodes back to the scale.
pub proof fn lemma_scale_round_trip(w: Wire, s: Scale)
    requires
        is_str(w, scale_str(s)),
    ensures
        dec_scale(w) == Some(s),
{
    lemma_spelling();
}

/// A direction's name decodes back to the direction.
pub proof fn lemma_direction_round_trip(w: Wire, d: Direction)
    requires
        is_str(w, direction_str(d)),
    ensures
        dec_direction(w) == Some(d),
{
    lemma_spelling();
}

/// A state's name decodes back to the state.
pub proof fn lemma_state_round_trip(w: Wire, e: EvalState)
    requires
        is_str(w, state_str(e)),
    ensures
        dec_state(w) == Some(e),
{
    lemma_spelling();
}

// ---- plain strings ----

pub open spec fn enc_string(w: Wire, s: Seq<char>) -> bool {
    is_str(w, s)
}

pub open spec fn dec_string(w: Wire) -> Option<Seq<char>> {
    dec_str(w)
}

fn encode_string(s: &String) -> (w: Wire)
    ensures
        enc_string(w, s@),
{
    str_wire(s)
}

fn decode_string(w: &Wire) -> (r: Result<String, DecodeError>)
    ensures
        match r {
            Ok(s) => dec_string(*w) == Some(s@),
            Err(_) => dec_string(*w) is None,
        },
{
    match w {
        Wire::Str(s) => Ok(s.clone()),
        _ => Err(DecodeError::Malformed),
    }
}

pub proof fn lemma_string_round_trip(w: Wire, s: Seq<char>)
    requires
        enc_string(w, s),
    ensures
        dec_string(w) == Some(s),
{
}

// ---- span definitions ----

/// `{"name": ..}`.
pub open spec fn enc_span_def(w: Wire, name: Seq<char>) -> bool {
    w is Obj && keys(obj_of(w)) == seq!["name"@] && has_str(obj_of(w), "name"@, name)
}

pub open spec fn dec_span_def(w: Wire) -> Option<Seq<char>> {
    match w {
        Wire::Obj(fs) => field_str(fs@, "name"@),
        _ => None,
    }
}

pub fn encode_span_def(d: &SpanDef) -> (w: Wire)
    ensures
        enc_span_def(w, d.name@),
{
    let fs: Vec<Field> = vec![field("name", str_wire(&d.name))];
    proof {
        assert(keys(fs@) =~= seq!["name"@]);
        lemma_lookup_at(fs@, "name"@, 0);
    }
    Wire::Obj(fs)
}

pub fn decode_span_def(w: &Wire) -> (r: Result<SpanDef, DecodeError>)
    ensures
        match r {
            Ok(d) => dec_span_def(*w) == Some(d.name@),
            Err(_) => dec_span_def(*w) is None,
        },
{
    match w {
        Wire::Obj(fs) => match get_str(fs, "name") {
            Ok(name) => Ok(SpanDef { name }),
            Err(e) => Err(e),
        },
        _ => Err(DecodeError::Malformed),
    }
}

pub proof fn lemma_span_def_round_trip(w: Wire, name: Seq<char>)
    requires
        enc_span_def(w, name),
    ensures
        dec_span_def(w) == Some(name),
{
}

// ---- spans ----

/// `{"start": .., "end": ..}`, both in seconds.
pub open spec fn enc_span(w: Wire, m: (u64, u64)) -> bool {
    w is Obj && keys(obj_of(w)) == seq!["start"@, "end"@] && has_num(obj_of(w), "start"@, m.0)
        && has_num(obj_of(w), "end"@, m.1)
}

pub open spec fn dec_span(w: Wire) -> Option<(u64, u64)> {
    match w {
        Wire::Obj(fs) => match (field_num(fs@, "start"@), field_num(fs@, "end"@)) {
            (Some(a), Some(b)) => Some((a, b)),
            _ => None,
        },
        _ => None,
    }
}

pub fn encode_span(s: &Span) -> (w: Wire)
    ensures
        enc_span(w, (s.start.bits, s.end.bits)),
{
    let fs: Vec<Field> = vec![field("start", Wire::Num(s.start)), field("end", Wire::Num(s.end))];
    proof {
        lemma_spelling();
        assert(keys(fs@) =~= seq!["start"@, "end"@]);
        lemma_lookup_at(fs@, "start"@, 0);
        lemma_lookup_at(fs@, "end"@, 1);
    }
    Wire::Obj(fs)
}

pub fn decode_span(w: &Wire) -> (r: Result<Span, DecodeError>)
    ensures
        match r {
            Ok(s) => dec_span(*w) == Some((s.start.bits, s.end.bits)),
            Err(_) => dec_span(*w) is None,
        },
{
    match w {
        Wire::Obj(fs) => match get_num(fs, "start") {
            Ok(start) => match get_num(fs, "end") {
                Ok(end) => Ok(Span { start, end }),
                Err(e) => Err(e),
            },
            Err(e) => Err(e),
        },
        _ => Err(DecodeError::Malformed),
    }
}

pub proof fn lemma_span_round_trip(w: Wire, m: (u64, u64))
    requires
        enc_span(w, m),
    ensures
        dec_span(w) == Some(m),
{
}

/// `w` is an array whose items encode `m` one by one.
pub open spec fn enc_strings(w: Wire, m: Seq<Seq<char>>) -> bool {
    w is Arr && w->Arr_0@.len() == m.len() && forall|i: int|
        0 <= i < m.len() ==> enc_string(#[trigger] w->Arr_0@[i], m[i])
}

/// An array whose items all decode.
pub open spec fn dec_strings(w: Wire) -> Option<Seq<Seq<char>>> {
    match w {
        Wire::Arr(v) => if forall|i: int| 0 <= i < v@.len() ==> (#[trigger] dec_string(v@[i])) is Some {
            Some(Seq::new(v@.len(), |i: int| dec_string(v@[i])->Some_0))
        } else {
            None
        },
        _ => None,
    }
}

/// Encodes strings as an array.
pub fn encode_strings(v: &Vec<String>) -> (w: Wire)
    ensures
        enc_strings(w, strings_view(v@)),
{
    let mut out: Vec<Wire> = Vec::new();
    let mut i: usize = 0;
    while i < v.len()
        invariant
            i <= v.len(),
            out@.len() == i,
            forall|j: int| 0 <= j < i ==> enc_string(#[trigger] out@[j], strings_view(v@)[j]),
        decreases v.len() - i,
    {
        let x = encode_string(&v[i]);
        out.push(x);
        i = i + 1;
    }
    Wire::Arr(out)
}

/// Decodes an array of strings.
pub fn decode_strings(w: &Wire) -> (r: Result<Vec<String>, DecodeError>)
    ensures
        match r {
            Ok(v) => dec_strings(*w) == Some(strings_view(v@)),
            Err(_) => dec_strings(*w) is None,
        },
{
    match w {
        Wire::Arr(items) => {
            let mut out: Vec<String> = Vec::new();
            let mut i: usize = 0;
            while i < items.len()
                invariant
                    i <= items.len(),
                    out@.len() == i,
                    *w == Wire::Arr(*items),
                    forall|j: int| 0 <= j < i ==> dec_string(#[trigger] items@[j]) == Some(strings_view(out@)[j]),
                decreases items.len() - i,
            {
                match decode_string(&items[i]) {
                    Ok(x) => {
                        out.push(x);
                        proof {
                            assert(strings_view(out@)[i as int] == x@);
                        }
                    },
                    Err(e) => {
                        return Err(e);
                    },
                }
                i = i + 1;
            }
            assert(strings_view(out@) =~= Seq::new(items@.len(), |j: int| dec_string(items@[j])->Some_0));
            Ok(out)
        },
        _ => Err(DecodeError::Malformed),
    }
}

pub proof fn lemma_strings_round_trip(w: Wire, m: Seq<Seq<char>>)
    requires
        enc_strings(w, m),
    ensures
        dec_strings(w) == Some(m),
{
    let v = w->Arr_0@;
    assert forall|i: int| 0 <= i < v.len() implies (#[trigger] dec_string(v[i])) == Some(m[i]) by {
        lemma_string_round_trip(v[i], m[i]);
    }
    assert(Seq::new(v.len(), |i: int| dec_string(v[i])->Some_0) =~= m);
}

/// `w` is an array whose items encode `m` one by one.
pub open spec fn enc_span_defs(w: Wire, m: Seq<Seq<char>>) -> bool {
    w is Arr && w->Arr_0@.len() == m.len() && forall|i: int|
        0 <= i < m.len() ==> enc_span_def(#[trigger] w->Arr_0@[i], m[i])
}

/// An array whose items all decode.
pub open spec fn dec_span_defs(w: Wire) -> Option<Seq<Seq<char>>> {
    match w {
        Wire::Arr(v) => if forall|i: int| 0 <= i < v@.len() ==> (#[trigger] dec_span_def(v@[i])) is Some {
            Some(Seq::new(v@.len(), |i: int| dec_span_def(v@[i])->Some_0))
        } else {
            None
        },
        _ => None,
    }
}

/// Encodes span definitions as an array.
pub fn encode_span_defs(v: &Vec<SpanDef>) -> (w: Wire)
    ensures
        enc_span_defs(w, span_defs_view(v@)),
{
    let mut out: Vec<Wire> = Vec::new();
    let mut i: usize = 0;
    while i < v.len()
        invariant
            i <= v.len(),
            out@.len() == i,
            forall|j: int| 0 <= j < i ==> enc_span_def(#[trigger] out@[j], span_defs_view(v@)[j]),
        decreases v.len() - i,
    {
        let x = encode_span_def(&v[i]);
        out.push(x);
        i = i + 1;
    }
    Wire::Arr(out)
}

/// Decodes an array of span definitions.
pub fn decode_span_defs(w: &Wire) -> (r: Result<Vec<SpanDef>, DecodeError>)
    ensures
        match r {
            Ok(v) => dec_span_defs(*w) == Some(span_defs_view(v@)),
            Err(_) => dec_span_defs(*w) is None,
        },
{
    match w {
        Wire::Arr(items) => {
            let mut out: Vec<SpanDef> = Vec::new();
            let mut i: usize = 0;
            while i < items.len()
                invariant
                    i <= items.len(),
                    out@.len() == i,
                    *w == Wire::Arr(*items),
                    forall|j: int| 0 <= j < i ==> dec_span_def(#[trigger] items@[j]) == Some(span_defs_view(out@)[j]),
                decreases items.len() - i,
            {
                match decode_span_def(&items[i]) {
                    Ok(x) => {
                        out.push(x);
                        proof {
                            assert(span_defs_view(out@)[i as int] == x.name@);
                        }
                    },
                    Err(e) => {
                        return Err(e);
                    },
                }
                i = i + 1;
            }
            assert(span_defs_view(out@) =~= Seq::new(items@.len(), |j: int| dec_span_def(items@[j])->Some_0));
            Ok(out)
        },
        _ => Err(DecodeError::Malformed),
    }
}

pub proof fn lemma_span_defs_round_trip(w: Wire, m: Seq<Seq<char>>)
    requires
        enc_span_defs(w, m),
    ensures
        dec_span_defs(w) == Some(m),
{
    let v = w->Arr_0@;
    assert forall|i: int| 0 <= i < v.len() implies (#[trigger] dec_span_def(v[i])) == Some(m[i]) by {
        lemma_span_def_round_trip(v[i], m[i]);
    }
    assert(Seq::new(v.len(), |i: int| dec_span_def(v[i])->Some_0) =~= m);
}

/// `w` is an array whose items encode `m` one by one.
pub open spec fn enc_spans(w: Wire, m: Seq<(u64, u64)>) -> bool {
    w is Arr && w->Arr_0@.len() == m.len() && forall|i: int|
        0 <= i < m.len() ==> enc_span(#[trigger] w->Arr_0@[i], m[i])
}

/// An array whose items all decode.
pub open spec fn dec_spans(w: Wire) -> Option<Seq<(u64, u64)>> {
    match w {
        Wire::Arr(v) => if forall|i: int| 0 <= i < v@.len() ==> (#[trigger] dec_span(v@[i])) is Some {
            Some(Seq::new(v@.len(), |i: int| dec_span(v@[i])->Some_0))
        } else {
            None
        },
        _ => None,
    }
}

/// Encodes spans as an array.
pub fn encode_spans(v: &Vec<Span>) -> (w: Wire)
    ensures
        enc_spans(w, spans_view(v@)),
{
    let mut out: Vec<Wire> = Vec::new();
    let mut i: usize = 0;
    while i < v.len()
        invariant
            i <= v.len(),
            out@.len() == i,
            forall|j: int| 0 <= j < i ==> enc_span(#[trigger] out@[j], spans_view(v@)[j]),
        decreases v.len() - i,
    {
        let x = encode_span(&v[i]);
        out.push(x);
        i = i + 1;
    }
    Wire::Arr(out)
}

/// Decodes an array of spans.
pub fn decode_spans(w: &Wire) -> (r: Result<Vec<Span>, DecodeError>)
    ensures
        match r {
            Ok(v) => dec_spans(*w) == Some(spans_view(v@)),
            Err(_) => dec_spans(*w) is None,
        },
{
    match w {
        Wire::Arr(items) => {
            let mut out: Vec<Span> = Vec::new();
            let mut i: usize = 0;
            while i < items.len()
                invariant
                    i <= items.len(),
                    out@.len() == i,
                    *w == Wire::Arr(*items),
                    forall|j: int| 0 <= j < i ==> dec_span(#[trigger] items@[j]) == Some(spans_view(out@)[j]),
                decreases items.len() - i,
            {
                match decode_span(&items[i]) {
                    Ok(x) => {
                        out.push(x);
                        proof {
                            assert(spans_view(out@)[i as int] == (x.start.bits, x.end.bits));
                        }
                    },
                    Err(e) => {
                        return Err(e);
                    },
                }
                i = i + 1;
            }
            assert(spans_view(out@) =~= Seq::new(items@.len(), |j: int| dec_span(items@[j])->Some_0));
            Ok(out)
        },
        _ => Err(DecodeError::Malformed),
    }
}

pub proof fn lemma_spans_round_trip(w: Wire, m: Seq<(u64, u64)>)
    requires
        enc_spans(w, m),
    ensures
        dec_spans(w) == Some(m),
{
    let v = w->Arr_0@;
    assert forall|i: int| 0 <= i < v.len() implies (#[trigger] dec_span(v[i])) == Some(m[i]) by {
        lemma_span_round_trip(v[i], m[i]);
    }
    assert(Seq::new(v.len(), |i: int| dec_span(v[i])->Some_0) =~= m);
}

// ---- value ranges ----

/// The keys of an encoded range: a bound is written only where it is not
/// the unbounded default.
pub open spec fn range_keys(min: u64, max: u64) -> Seq<Seq<char>> {
    (if min == NEG_INF_BITS { Seq::empty() } else { seq!["min"@] }) + (if max == INF_BITS {
        Seq::empty()
    } else {
        seq!["max"@]
    })
}

pub open spec fn enc_range(w: Wire, min: u64, max: u64) -> bool {
    w is Obj && keys(obj_of(w)) == range_keys(min, max) && (min != NEG_INF_BITS ==> has_num(
        obj_of(w),
        "min"@,
        min,
    )) && (max != INF_BITS ==> has_num(obj_of(w), "max"@, max))
}

/// An absent bound reads as unbounded.
pub open spec fn dec_range(w: Wire) -> Option<(u64, u64)> {
    match w {
        Wire::Obj(fs) => match (
            field_num_or(fs@, "min"@, NEG_INF_BITS),
            field_num_or(fs@, "max"@, INF_BITS),
        ) {
            (Some(a), Some(b)) => Some((a, b)),
            _ => None,
        },
        _ => None,
    }
}

/// Encodes a value range, leaving out each bound that is unbounded.
pub fn encode_range(r: &ValueRange) -> (w: Wire)
    ensures
        enc_range(w, r.min.bits, r.max.bits),
{
    let mut fs: Vec<Field> = Vec::new();
    if r.min.bits != NEG_INF_BITS {
        fs.push(field("min", Wire::Num(r.min)));
    }
    if r.max.bits != INF_BITS {
        fs.push(field("max", Wire::Num(r.max)));
    }
    proof {
        lemma_spelling();
        let ks = range_keys(r.min.bits, r.max.bits);
        assert(keys(fs@) =~= ks);
        if r.min.bits != NEG_INF_BITS {
            lemma_lookup_at(fs@, "min"@, 0);
        }
        if r.max.bits != INF_BITS {
            lemma_lookup_at(fs@, "max"@, fs@.len() - 1);
        }
    }
    Wire::Obj(fs)
}

/// Decodes a value range, an absent bound being unbounded.
pub fn decode_range(w: &Wire) -> (r: Result<ValueRange, DecodeError>)
    ensures
        match r {
            Ok(v) => dec_range(*w) == Some((v.min.bits, v.max.bits)),
            Err(_) => dec_range(*w) is None,
        },
{
    match w {
        Wire::Obj(fs) => match get_num_or(fs, "min", Float::neg_infinity()) {
            Ok(min) => match get_num_or(fs, "max", Float::infinity()) {
                Ok(max) => Ok(ValueRange { min, max }),
                Err(e) => Err(e),
            },
            Err(e) => Err(e),
        },
        _ => Err(DecodeError::Malformed),
    }
}

pub proof fn lemma_range_round_trip(w: Wire, min: u64, max: u64)
    requires
        enc_range(w, min, max),
    ensures
        dec_range(w) == Some((min, max)),
{
    lemma_spelling();
    let fs = obj_of(w);
    if min == NEG_INF_BITS {
        lemma_lookup_absent(fs, "min"@);
    }
    if max == INF_BITS {
        lemma_lookup_absent(fs, "max"@);
    }
}

/// The unbounded range is written with neither bound, and an object with
/// neither bound reads as the unbounded range.
pub proof fn lemma_default_range_omitted(w: Wire, v: Wire)
    requires
        enc_range(w, NEG_INF_BITS, INF_BITS),
        v is Obj,
        lookup(obj_of(v), "min"@) is None,
        lookup(obj_of(v), "max"@) is None,
    ensures
        lookup(obj_of(w), "min"@) is None,
        lookup(obj_of(w), "max"@) is None,
        obj_of(w).len() == 0,
        dec_range(v) == Some((NEG_INF_BITS, INF_BITS)),
{
    lemma_lookup_absent(obj_of(w), "min"@);
    lemma_lookup_absent(obj_of(w), "max"@);
    assert(keys(obj_of(w)).len() == 0);
}

// ---- objective definitions ----

/// Whether a range is the unbounded default.
pub open spec fn is_unbounded(min: u64, max: u64) -> bool {
    min == NEG_INF_BITS && max == INF_BITS
}

/// The keys of an encoded objective: the range only where it is bounded.
pub open spec fn value_def_keys(m: ValueDefModel) -> Seq<Seq<char>> {
    if is_unbounded(m.min, m.max) {
        seq!["name"@, "direction"@]
    } else {
        seq!["name"@, "range"@, "direction"@]
    }
}

pub open spec fn enc_value_def(w: Wire, m: ValueDefModel) -> bool {
    let fs = obj_of(w);
    &&& w is Obj
    &&& keys(fs) == value_def_keys(m)
    &&& has_str(fs, "name"@, m.name)
    &&& !is_unbounded(m.min, m.max) ==> (lookup(fs, "range"@) matches Some(r) && enc_range(r, m.min, m.max))
    &&& has_str(fs, "direction"@, direction_str(m.direction))
}

/// An absent range reads as unbounded.
pub open spec fn dec_value_def(w: Wire) -> Option<ValueDefModel> {
    match w {
        Wire::Obj(fs) => match (
            field_str(fs@, "name"@),
            match lookup(fs@, "range"@) {
                Some(r) => dec_range(r),
                None => Some((NEG_INF_BITS, INF_BITS)),
            },
            match lookup(fs@, "direction"@) {
                Some(d) => dec_direction(d),
                None => None,
            },
        ) {
            (Some(name), Some(r), Some(direction)) => Some(
                ValueDefModel { name, min: r.0, max: r.1, direction },
            ),
            _ => None,
        },
        _ => None,
    }
}

pub fn encode_value_def(d: &ValueDef) -> (w: Wire)
    ensures
        enc_value_def(w, d@),
{
    let mut fs: Vec<Field> = Vec::new();
    fs.push(field("name", str_wire(&d.name)));
    let unbounded = d.range.is_default();
    if !unbounded {
        fs.push(field("range", encode_range(&d.range)));
    }
    fs.push(field("direction", encode_direction(d.direction)));
    proof {
        lemma_spelling();
        assert(keys(fs@) =~= value_def_keys(d@));
        lemma_lookup_at(fs@, "name"@, 0);
        if !unbounded {
            lemma_lookup_at(fs@, "range"@, 1);
            lemma_lookup_at(fs@, "direction"@, 2);
        } else {
            lemma_lookup_at(fs@, "direction"@, 1);
        }
    }
    Wire::Obj(fs)
}

pub fn decode_value_def(w: &Wire) -> (r: Result<ValueDef, DecodeError>)
    ensures
        match r {
            Ok(d) => dec_value_def(*w) == Some(d@),
            Err(_) => dec_value_def(*w) is None,
        },
{
    match w {
        Wire::Obj(fs) => {
            let name = match get_str(fs, "name") {
                Ok(n) => n,
                Err(e) => return Err(e),
            };
            let range = match get_field(fs, "range") {
                Some(rw) => match decode_range(rw) {
                    Ok(r) => r,
                    Err(e) => return Err(e),
                },
                None => ValueRange::default(),
            };
            let direction = match get_field(fs, "direction") {
                Some(dw) => match decode_direction(dw) {
                    Ok(d) => d,
                    Err(e) => return Err(e),
                },
                None => return Err(DecodeError::Malformed),
            };
            Ok(ValueDef { name, range, direction })
        },
        _ => Err(DecodeError::Malformed),
    }
}

pub proof fn lemma_value_def_round_trip(w: Wire, m: ValueDefModel)
    requires
        enc_value_def(w, m),
    ensures
        dec_value_def(w) == Some(m),
{
    lemma_spelling();
    let fs = obj_of(w);
    if is_unbounded(m.min, m.max) {
        lemma_lookup_absent(fs, "range"@);
    } else {
        let r = lookup(fs, "range"@)->Some_0;
        lemma_range_round_trip(r, m.min, m.max);
    }
    let d = lookup(fs, "direction"@)->Some_0;
    lemma_direction_round_trip(d, m.direction);
}

/// `w` is an array whose items encode `m` one by one.
pub open spec fn enc_value_defs(w: Wire, m: Seq<ValueDefModel>) -> bool {
    w is Arr && w->Arr_0@.len() == m.len() && forall|i: int|
        0 <= i < m.len() ==> enc_value_def(#[trigger] w->Arr_0@[i], m[i])
}

/// An array whose items all decode.
pub open spec fn dec_value_defs(w: Wire) -> Option<Seq<ValueDefModel>> {
    match w {
        Wire::Arr(v) => if forall|i: int| 0 <= i < v@.len() ==> (#[trigger] dec_value_def(v@[i])) is Some {
            Some(Seq::new(v@.len(), |i: int| dec_value_def(v@[i])->Some_0))
        } else {
            None
        },
        _ => None,
    }
}

/// Encodes objective definitions as an array.
pub fn encode_value_defs(v: &Vec<ValueDef>) -> (w: Wire)
    ensures
        enc_value_defs(w, value_defs_view(v@)),
{
    let mut out: Vec<Wire> = Vec::new();
    let mut i: usize = 0;
    while i < v.len()
        invariant
            i <= v.len(),
            out@.len() == i,
            forall|j: int| 0 <= j < i ==> enc_value_def(#[trigger] out@[j], value_defs_view(v@)[j]),
        decreases v.len() - i,
    {
        let x = encode_value_def(&v[i]);
        out.push(x);
        i = i + 1;
    }
    Wire::Arr(out)
}

/// Decodes an array of objective definitions.
pub fn decode_value_defs(w: &Wire) -> (r: Result<Vec<ValueDef>, DecodeError>)
    ensures
        match r {
            Ok(v) => dec_value_defs(*w) == Some(value_defs_view(v@)),
            Err(_) => dec_value_defs(*w) is None,
        },
{
    match w {
        Wire::Arr(items) => {
            let mut out: Vec<ValueDef> = Vec::new();
            let mut i: usize = 0;
            while i < items.len()
                invariant
                    i <= items.len(),
                    out@.len() == i,
                    *w == Wire::Arr(*items),
                    forall|j: int| 0 <= j < i ==> dec_value_def(#[trigger] items@[j]) == Some(value_defs_view(out@)[j]),
                decreases items.len() - i,
            {
                match decode_value_def(&items[i]) {
                    Ok(x) => {
                        out.push(x);
                        proof {
                            assert(value_defs_view(out@)[i as int] == x@);
                        }
                    },
                    Err(e) => {
                        return Err(e);
                    },
                }
                i = i + 1;
            }
            assert(value_defs_view(out@) =~= Seq::new(items@.len(), |j: int| dec_value_def(items@[j])->Some_0));
            Ok(out)
        },
        _ => Err(DecodeError::Malformed),
    }
}

pub proof fn lemma_value_defs_round_trip(w: Wire, m: Seq<ValueDefModel>)
    requires
        enc_value_defs(w, m),
    ensures
        dec_value_defs(w) == Some(m),
{
    let v = w->Arr_0@;
    assert forall|i: int| 0 <= i < v.len() implies (#[trigger] dec_value_def(v[i])) == Some(m[i]) by {
        lemma_value_def_round_trip(v[i], m[i]);
    }
    assert(Seq::new(v.len(), |i: int| dec_value_def(v[i])->Some_0) =~= m);
}

// ---- parameter definitions ----

/// The keys of an encoded parameter: its name, the range's tag, and the
/// range's own fields inline; a step only where there is one, a scale only
/// where it is not linear.
pub open spec fn param_keys(r: RangeModel) -> Seq<Seq<char>> {
    match r {
        RangeModel::Numerical { step, scale, .. } => seq!["name"@, "type"@, "min"@, "max"@] + (if step is Some {
            seq!["step"@]
        } else {
            Seq::empty()
        }) + (if scale == Scale::Linear {
            Seq::empty()
        } else {
            seq!["scale"@]
        }),
        RangeModel::Categorical { .. } => seq!["name"@, "type"@, "choices"@],
    }
}

pub open spec fn enc_param(w: Wire, m: (Seq<char>, RangeModel)) -> bool {
    let fs = obj_of(w);
    &&& w is Obj
    &&& keys(fs) == param_keys(m.1)
    &&& has_str(fs, "name"@, m.0)
    &&& match m.1 {
        RangeModel::Numerical { min, max, step, scale } => {
            &&& has_str(fs, "type"@, "numerical"@)
            &&& has_num(fs, "min"@, min)
            &&& has_num(fs, "max"@, max)
            &&& (step matches Some(st) ==> has_num(fs, "step"@, st))
            &&& (scale != Scale::Linear ==> has_str(fs, "scale"@, scale_str(scale)))
        },
        RangeModel::Categorical { choices } => {
            &&& has_str(fs, "type"@, "categorical"@)
            &&& lookup(fs, "choices"@) matches Some(c) && enc_strings(c, choices)
        },
    }
}

/// An absent or null step reads as none.
pub open spec fn dec_step(fs: Seq<Field>) -> Option<Option<u64>> {
    match lookup(fs, "step"@) {
        None => Some(None),
        Some(Wire::Null) => Some(None),
        Some(w) => match dec_num(w) {
            Some(b) => Some(Some(b)),
            None => None,
        },
    }
}

/// An absent scale reads as linear.
pub open spec fn dec_scale_field(fs: Seq<Field>) -> Option<Scale> {
    match lookup(fs, "scale"@) {
        None => Some(Scale::Linear),
        Some(w) => dec_scale(w),
    }
}

/// The range named by the `type` tag; any other tag, or none, fails.
pub open spec fn dec_param_range(fs: Seq<Field>) -> Option<RangeModel> {
    match field_str(fs, "type"@) {
        Some(t) => if t == "numerical"@ {
            match (field_num(fs, "min"@), field_num(fs, "max"@), dec_step(fs), dec_scale_field(fs)) {
                (Some(min), Some(max), Some(step), Some(scale)) => Some(
                    RangeModel::Numerical { min, max, step, scale },
                ),
                _ => None,
            }
        } else if t == "categorical"@ {
            match lookup(fs, "choices"@) {
                Some(c) => match dec_strings(c) {
                    Some(choices) => Some(RangeModel::Categorical { choices }),
                    None => None,
                },
                None => None,
            }
        } else {
            None
        },
        None => None,
    }
}

pub open spec fn dec_param(w: Wire) -> Option<(Seq<char>, RangeModel)> {
    match w {
        Wire::Obj(fs) => match (field_str(fs@, "name"@), dec_param_range(fs@)) {
            (Some(name), Some(r)) => Some((name, r)),
            _ => None,
        },
        _ => None,
    }
}

pub fn encode_param(d: &ParamDef) -> (w: Wire)
    ensures
        enc_param(w, d@),
        dec_param(w) == Some(d@),
{
    let mut fs: Vec<Field> = Vec::new();
    fs.push(field("name", str_wire(&d.name)));
    match &d.range {
        ParamRange::Numerical { min, max, step, scale } => {
            fs.push(field("type", lit("numerical")));
            fs.push(field("min", Wire::Num(*min)));
            fs.push(field("max", Wire::Num(*max)));
            match step {
                Some(st) => fs.push(field("step", Wire::Num(*st))),
                None => {},
            }
            if !scale.is_default() {
                fs.push(field("scale", encode_scale(*scale)));
            }
            proof {
                lemma_spelling();
                assert(keys(fs@) =~= param_keys(d@.1));
                lemma_lookup_at(fs@, "name"@, 0);
                lemma_lookup_at(fs@, "type"@, 1);
                lemma_lookup_at(fs@, "min"@, 2);
                lemma_lookup_at(fs@, "max"@, 3);
                if step.is_some() {
                    lemma_lookup_at(fs@, "step"@, 4);
                }
                if *scale != Scale::Linear {
                    lemma_lookup_at(fs@, "scale"@, fs@.len() - 1);
                }
            }
        },
        ParamRange::Categorical { choices } => {
            fs.push(field("type", lit("categorical")));
            fs.push(field("choices", encode_strings(choices)));
            proof {
                lemma_spelling();
                assert(keys(fs@) =~= param_keys(d@.1));
                lemma_lookup_at(fs@, "name"@, 0);
                lemma_lookup_at(fs@, "type"@, 1);
                lemma_lookup_at(fs@, "choices"@, 2);
            }
        },
    }
    proof {
        lemma_param_round_trip(Wire::Obj(fs), d@);
    }
    Wire::Obj(fs)
}

fn decode_param_range(fs: &Vec<Field>) -> (r: Result<ParamRange, DecodeError>)
    ensures
        match r {
            Ok(p) => dec_param_range(fs@) == Some(p@),
            Err(_) => dec_param_range(fs@) is None,
        },
{
    let tag = match get_str(fs, "type") {
        Ok(t) => t,
        Err(e) => return Err(e),
    };
    if str_is(&tag, "numerical") {
        let min = match get_num(fs, "min") {
            Ok(v) => v,
            Err(e) => return Err(e),
        };
        let max = match get_num(fs, "max") {
            Ok(v) => v,
            Err(e) => return Err(e),
        };
        let step = match get_field(fs, "step") {
            None => None,
            Some(Wire::Null) => None,
            Some(x) => match decode_number(x) {
                Ok(f) => Some(f),
                Err(e) => return Err(e),
            },
        };
        let scale = match get_field(fs, "scale") {
            None => Scale::Linear,
            Some(sw) => match decode_scale(sw) {
                Ok(sc) => sc,
                Err(e) => return Err(e),
            },
        };
        Ok(ParamRange::Numerical { min, max, step, scale })
    } else if str_is(&tag, "categorical") {
        match get_field(fs, "choices") {
            Some(cw) => match decode_strings(cw) {
                Ok(choices) => Ok(ParamRange::Categorical { choices }),
                Err(e) => Err(e),
            },
            None => Err(DecodeError::Malformed),
        }
    } else {
        Err(DecodeError::Malformed)
    }
}

pub fn decode_param(w: &Wire) -> (r: Result<ParamDef, DecodeError>)
    ensures
        match r {
            Ok(d) => dec_param(*w) == Some(d@),
            Err(_) => dec_param(*w) is None,
        },
{
    match w {
        Wire::Obj(fs) => match get_str(fs, "name") {
            Ok(name) => match decode_param_range(fs) {
                Ok(range) => Ok(ParamDef { name, range }),
                Err(e) => Err(e),
            },
            Err(e) => Err(e),
        },
        _ => Err(DecodeError::Malformed),
    }
}

pub proof fn lemma_param_round_trip(w: Wire, m: (Seq<char>, RangeModel))
    requires
        enc_param(w, m),
    ensures
        dec_param(w) == Some(m),
{
    lemma_spelling();
    let fs = obj_of(w);
    match m.1 {
        RangeModel::Numerical { min, max, step, scale } => {
            if step is None {
                lemma_lookup_absent(fs, "step"@);
            }
            if scale == Scale::Linear {
                lemma_lookup_absent(fs, "scale"@);
            } else {
                lemma_scale_round_trip(lookup(fs, "scale"@)->Some_0, scale);
            }
        },
        RangeModel::Categorical { choices } => {
            lemma_strings_round_trip(lookup(fs, "choices"@)->Some_0, choices);
        },
    }
}

/// A parameter whose `type` tag names no range kind does not decode.
pub proof fn lemma_unknown_param_tag(w: Wire, t: Seq<char>)
    requires
        w is Obj,
        has_str(obj_of(w), "type"@, t),
        t != "numerical"@,
        t != "categorical"@,
    ensures
        dec_param(w) is None,
{
}

/// `w` is an array whose items encode `m` one by one.
pub open spec fn enc_params(w: Wire, m: Seq<(Seq<char>, RangeModel)>) -> bool {
    w is Arr && w->Arr_0@.len() == m.len() && forall|i: int|
        0 <= i < m.len() ==> enc_param(#[trigger] w->Arr_0@[i], m[i])
}

/// An array whose items all decode.
pub open spec fn dec_params(w: Wire) -> Option<Seq<(Seq<char>, RangeModel)>> {
    match w {
        Wire::Arr(v) => if forall|i: int| 0 <= i < v@.len() ==> (#[trigger] dec_param(v@[i])) is Some {
            Some(Seq::new(v@.len(), |i: int| dec_param(v@[i])->Some_0))
        } else {
            None
        },
        _ => None,
    }
}

/// Encodes parameter definitions as an array.
pub fn encode_params(v: &Vec<ParamDef>) -> (w: Wire)
    ensures
        enc_params(w, params_view(v@)),
{
    let mut out: Vec<Wire> = Vec::new();
    let mut i: usize = 0;
    while i < v.len()
        invariant
            i <= v.len(),
            out@.len() == i,
            forall|j: int| 0 <= j < i ==> enc_param(#[trigger] out@[j], params_view(v@)[j]),
        decreases v.len() - i,
    {
        let x = encode_param(&v[i]);
        out.push(x);
        i = i + 1;
    }
    Wire::Arr(out)
}

/// Decodes an array of parameter definitions.
pub fn decode_params(w: &Wire) -> (r: Result<Vec<ParamDef>, DecodeError>)
    ensures
        match r {
            Ok(v) => dec_params(*w) == Some(params_view(v@)),
            Err(_) => dec_params(*w) is None,
        },
{
    match w {
        Wire::Arr(items) => {
            let mut out: Vec<ParamDef> = Vec::new();
            let mut i: usize = 0;
            while i < items.len()
                invariant
                    i <= items.len(),
                    out@.len() == i,
                    *w == Wire::Arr(*items),
                    forall|j: int| 0 <= j < i ==> dec_param(#[trigger] items@[j]) == Some(params_view(out@)[j]),
                decreases items.len() - i,
            {
                match decode_param(&items[i]) {
                    Ok(x) => {
                        out.push(x);
                        proof {
                            assert(params_view(out@)[i as int] == x@);
                        }
                    },
                    Err(e) => {
                        return Err(e);
                    },
                }
                i = i + 1;
            }
            assert(params_view(out@) =~= Seq::new(items@.len(), |j: int| dec_param(items@[j])->Some_0));
            Ok(out)
        },
        _ => Err(DecodeError::Malformed),
    }
}

pub proof fn lemma_params_round_trip(w: Wire, m: Seq<(Seq<char>, RangeModel)>)
    requires
        enc_params(w, m),
    ensures
        dec_params(w) == Some(m),
{
    let v = w->Arr_0@;
    assert forall|i: int| 0 <= i < v.len() implies (#[trigger] dec_param(v[i])) == Some(m[i]) by {
        lemma_param_round_trip(v[i], m[i]);
    }
    assert(Seq::new(v.len(), |i: int| dec_param(v[i])->Some_0) =~= m);
}

// ---- study attributes ----

/// An object whose entries are the attributes, in their (ascending) order,
/// each as a string.
pub open spec fn enc_attrs(w: Wire, m: Seq<(Seq<char>, Seq<char>)>) -> bool {
    let fs = obj_of(w);
    &&& w is Obj
    &&& fs.len() == m.len()
    &&& forall|i: int|
        0 <= i < m.len() ==> (#[trigger] fs[i]).key@ == m[i].0 && is_str(fs[i].value, m[i].1)
}

/// An object whose values are all strings, read as a map: keys sorted, and
/// of a repeated key the last entry wins.
pub open spec fn dec_attrs(w: Wire) -> Option<Seq<(Seq<char>, Seq<char>)>> {
    match w {
        Wire::Obj(fs) => if forall|i: int| 0 <= i < fs@.len() ==> (#[trigger] fs@[i]).value is Str {
            Some(attrs_fold(Seq::new(fs@.len(), |i: int| (fs@[i].key@, fs@[i].value->Str_0@))))
        } else {
            None
        },
        _ => None,
    }
}

pub fn encode_attrs(v: &Vec<Attr>) -> (w: Wire)
    ensures
        enc_attrs(w, attrs_view(v@)),
{
    let mut fs: Vec<Field> = Vec::new();
    let mut i: usize = 0;
    while i < v.len()
        invariant
            i <= v.len(),
            fs@.len() == i,
            forall|j: int|
                0 <= j < i ==> (#[trigger] fs@[j]).key@ == v@[j].key@ && is_str(fs@[j].value, v@[j].value@),
        decreases v.len() - i,
    {
        let f = Field { key: v[i].key.clone(), value: str_wire(&v[i].value) };
        fs.push(f);
        i = i + 1;
    }
    Wire::Obj(fs)
}

pub fn decode_attrs(w: &Wire) -> (r: Result<Vec<Attr>, DecodeError>)
    ensures
        match r {
            Ok(v) => dec_attrs(*w) == Some(attrs_view(v@)) && attrs_valid(attrs_view(v@)),
            Err(_) => dec_attrs(*w) is None,
        },
{
    match w {
        Wire::Obj(fs) => {
            let mut out: Vec<Attr> = Vec::new();
            let mut i: usize = 0;
            while i < fs.len()
                invariant
                    i <= fs.len(),
                    out@.len() == i,
                    *w == Wire::Obj(*fs),
                    forall|j: int|
                        0 <= j < i ==> (#[trigger] fs@[j]).value is Str && out@[j].key@ == fs@[j].key@
                            && out@[j].value@ == fs@[j].value->Str_0@,
                decreases fs.len() - i,
            {
                match &fs[i].value {
                    Wire::Str(s) => {
                        out.push(Attr { key: fs[i].key.clone(), value: s.clone() });
                    },
                    _ => {
                        return Err(DecodeError::Malformed);
                    },
                }
                i = i + 1;
            }
            assert(attrs_view(out@) =~= Seq::new(
                fs@.len(),
                |j: int| (fs@[j].key@, fs@[j].value->Str_0@),
            ));
            Ok(normalize_attrs(&out))
        },
        _ => Err(DecodeError::Malformed),
    }
}

pub proof fn lemma_attrs_round_trip(w: Wire, m: Seq<(Seq<char>, Seq<char>)>)
    requires
        enc_attrs(w, m),
        attrs_valid(m),
    ensures
        dec_attrs(w) == Some(m),
{
    let fs = obj_of(w);
    assert forall|i: int| 0 <= i < fs.len() implies (#[trigger] fs[i]).value is Str by {
        assert(fs[i].key@ == m[i].0);
    }
    assert(Seq::new(fs.len(), |i: int| (fs[i].key@, fs[i].value->Str_0@)) =~= m);
    lemma_fold_valid(m);
}

// ---- records ----

pub open spec fn study_keys() -> Seq<Seq<char>> {
    seq!["type"@, "id"@, "attrs"@, "spans"@, "params"@, "values"@]
}

pub open spec fn eval_keys() -> Seq<Seq<char>> {
    seq!["type"@, "study"@, "trial"@, "state"@, "spans"@, "params"@, "values"@]
}

/// `{"type": "study", "id", "attrs", "spans", "params", "values"}`.
pub open spec fn enc_study(w: Wire, m: StudyModel) -> bool {
    let fs = obj_of(w);
    &&& w is Obj
    &&& keys(fs) == study_keys()
    &&& has_str(fs, "type"@, "study"@)
    &&& has_str(fs, "id"@, m.id)
    &&& lookup(fs, "attrs"@) matches Some(a) && enc_attrs(a, m.attrs)
    &&& lookup(fs, "spans"@) matches Some(s) && enc_span_defs(s, m.spans)
    &&& lookup(fs, "params"@) matches Some(p) && enc_params(p, m.params)
    &&& lookup(fs, "values"@) matches Some(v) && enc_value_defs(v, m.values)
}

/// `{"type": "eval", "study", "trial", "state", "spans", "params", "values"}`,
/// absent parameters and values as null.
pub open spec fn enc_eval(w: Wire, m: EvalModel) -> bool {
    let fs = obj_of(w);
    &&& w is Obj
    &&& keys(fs) == eval_keys()
    &&& has_str(fs, "type"@, "eval"@)
    &&& has_str(fs, "study"@, m.study)
    &&& lookup(fs, "trial"@) == Some(Wire::Int(m.trial as u64))
    &&& has_str(fs, "state"@, state_str(m.state))
    &&& lookup(fs, "spans"@) matches Some(s) && enc_spans(s, m.spans)
    &&& lookup(fs, "params"@) matches Some(p) && enc_nullable(p, m.params)
    &&& lookup(fs, "values"@) matches Some(v) && enc_nullable(v, m.values)
}

/// `w` is the wire form of the record `m`.
pub open spec fn enc_record(w: Wire, m: RecordModel) -> bool {
    match m {
        RecordModel::Study(s) => enc_study(w, s),
        RecordModel::Eval(e) => enc_eval(w, e),
    }
}

/// Absent attributes read as none.
pub open spec fn dec_study(fs: Seq<Field>) -> Option<StudyModel> {
    match (
        field_str(fs, "id"@),
        match lookup(fs, "attrs"@) {
            Some(a) => dec_attrs(a),
            None => Some(Seq::empty()),
        },
        match lookup(fs, "spans"@) {
            Some(s) => dec_span_defs(s),
            None => None,
        },
        match lookup(fs, "params"@) {
            Some(p) => dec_params(p),
            None => None,
        },
        match lookup(fs, "values"@) {
            Some(v) => dec_value_defs(v),
            None => None,
        },
    ) {
        (Some(id), Some(attrs), Some(spans), Some(params), Some(values)) => Some(
            StudyModel { id, attrs, spans, params, values },
        ),
        _ => None,
    }
}

/// The trial number must fit 32 bits.
pub open spec fn dec_trial(fs: Seq<Field>) -> Option<u32> {
    match lookup(fs, "trial"@) {
        Some(Wire::Int(n)) => if n <= u32::MAX {
            Some(n as u32)
        } else {
            None
        },
        _ => None,
    }
}

pub open spec fn dec_eval(fs: Seq<Field>) -> Option<EvalModel> {
    match (
        field_str(fs, "study"@),
        dec_trial(fs),
        match lookup(fs, "state"@) {
            Some(s) => dec_state(s),
            None => None,
        },
        match lookup(fs, "spans"@) {
            Some(s) => dec_spans(s),
            None => None,
        },
        match lookup(fs, "params"@) {
            Some(p) => dec_nullable(p),
            None => None,
        },
        match lookup(fs, "values"@) {
            Some(v) => dec_nullable(v),
            None => None,
        },
    ) {
        (Some(study), Some(trial), Some(state), Some(spans), Some(params), Some(values)) => Some(
            EvalModel { study, trial, state, spans, params, values },
        ),
        _ => None,
    }
}

/// The record that `w` holds: its `type` tag picks the kind, and any other
/// tag, or none, fails.
pub open spec fn dec_record(w: Wire) -> Option<RecordModel> {
    match w {
        Wire::Obj(fs) => match field_str(fs@, "type"@) {
            Some(t) => if t == "study"@ {
                match dec_study(fs@) {
                    Some(s) => Some(RecordModel::Study(s)),
                    None => None,
                }
            } else if t == "eval"@ {
                match dec_eval(fs@) {
                    Some(e) => Some(RecordModel::Eval(e)),
                    None => None,
                }
            } else {
                None
            },
            None => None,
        },
        _ => None,
    }
}

pub fn encode_study(r: &StudyRecord) -> (w: Wire)
    requires
        r@.valid(),
    ensures
        enc_study(w, r@),
{
    let mut fs: Vec<Field> = Vec::new();
    fs.push(field("type", lit("study")));
    fs.push(field("id", str_wire(&r.id)));
    fs.push(field("attrs", encode_attrs(&r.attrs)));
    fs.push(field("spans", encode_span_defs(&r.spans)));
    fs.push(field("params", encode_params(&r.params)));
    fs.push(field("values", encode_value_defs(&r.values)));
    proof {
        lemma_spelling();
        assert(keys(fs@) =~= study_keys());
        lemma_lookup_all(fs@, study_keys());
        assert(study_keys()[0] == "type"@);
        assert(study_keys()[1] == "id"@);
        assert(study_keys()[2] == "attrs"@);
        assert(study_keys()[3] == "spans"@);
        assert(study_keys()[4] == "params"@);
        assert(study_keys()[5] == "values"@);
    }
    Wire::Obj(fs)
}

pub fn encode_eval(r: &EvalRecord) -> (w: Wire)
    ensures
        enc_eval(w, r@),
{
    let mut fs: Vec<Field> = Vec::new();
    fs.push(field("type", lit("eval")));
    fs.push(field("study", str_wire(&r.study)));
    fs.push(field("trial", Wire::Int(r.trial as u64)));
    fs.push(field("state", encode_state(r.state)));
    fs.push(field("spans", encode_spans(&r.spans)));
    fs.push(field("params", crate::nullable_f64_vec::serialize(&r.params)));
    fs.push(field("values", crate::nullable_f64_vec::serialize(&r.values)));
    proof {
        lemma_spelling();
        assert(keys(fs@) =~= eval_keys());
        lemma_lookup_all(fs@, eval_keys());
        assert(eval_keys()[0] == "type"@);
        assert(eval_keys()[1] == "study"@);
        assert(eval_keys()[2] == "trial"@);
        assert(eval_keys()[3] == "state"@);
        assert(eval_keys()[4] == "spans"@);
        assert(eval_keys()[5] == "params"@);
        assert(eval_keys()[6] == "values"@);
    }
    Wire::Obj(fs)
}

/// Encodes a record as an object whose `type` tag names its kind, with the
/// kind's own fields beside the tag.
pub fn encode(r: &Record) -> (w: Wire)
    requires
        r@.valid(),
    ensures
        enc_record(w, r@),
        r@.canonical() ==> dec_record(w) == Some(r@),
{
    let w = match r {
        Record::Study(s) => encode_study(s),
        Record::Eval(e) => encode_eval(e),
    };
    proof {
        if r@.canonical() {
            lemma_round_trip(w, r@);
        }
    }
    w
}

fn decode_study(fs: &Vec<Field>) -> (r: Result<StudyRecord, DecodeError>)
    ensures
        match r {
            Ok(s) => dec_study(fs@) == Some(s@) && s@.valid(),
            Err(_) => dec_study(fs@) is None,
        },
{
    let id = match get_str(fs, "id") {
        Ok(v) => v,
        Err(e) => return Err(e),
    };
    let attrs = match get_field(fs, "attrs") {
        Some(a) => match decode_attrs(a) {
            Ok(v) => v,
            Err(e) => return Err(e),
        },
        None => Vec::new(),
    };
    let spans = match get_field(fs, "spans") {
        Some(x) => match decode_span_defs(x) {
            Ok(v) => v,
            Err(e) => return Err(e),
        },
        None => return Err(DecodeError::Malformed),
    };
    let params = match get_field(fs, "params") {
        Some(x) => match decode_params(x) {
            Ok(v) => v,
            Err(e) => return Err(e),
        },
        None => return Err(DecodeError::Malformed),
    };
    let values = match get_field(fs, "values") {
        Some(x) => match decode_value_defs(x) {
            Ok(v) => v,
            Err(e) => return Err(e),
        },
        None => return Err(DecodeError::Malformed),
    };
    proof {
        assert(attrs_view(attrs@) =~= match lookup(fs@, "attrs"@) {
            Some(a) => dec_attrs(a)->Some_0,
            None => Seq::empty(),
        });
    }
    Ok(StudyRecord { id, attrs, spans, params, values })
}

fn decode_eval(fs: &Vec<Field>) -> (r: Result<EvalRecord, DecodeError>)
    ensures
        match r {
            Ok(e) => dec_eval(fs@) == Some(e@),
            Err(_) => dec_eval(fs@) is None,
        },
{
    let study = match get_str(fs, "study") {
        Ok(v) => v,
        Err(e) => return Err(e),
    };
    let trial: u32 = match get_field(fs, "trial") {
        Some(Wire::Int(n)) => if *n <= 0xffff_ffff {
            *n as u32
        } else {
            return Err(DecodeError::Malformed);
        },
        _ => return Err(DecodeError::Malformed),
    };
    let state = match get_field(fs, "state") {
        Some(x) => match decode_state(x) {
            Ok(v) => v,
            Err(e) => return Err(e),
        },
        None => return Err(DecodeError::Malformed),
    };
    let spans = match get_field(fs, "spans") {
        Some(x) => match decode_spans(x) {
            Ok(v) => v,
            Err(e) => return Err(e),
        },
        None => return Err(DecodeError::Malformed),
    };
    let params = match get_field(fs, "params") {
        Some(x) => match crate::nullable_f64_vec::deserialize(x) {
            Ok(v) => v,
            Err(e) => return Err(e),
        },
        None => return Err(DecodeError::Malformed),
    };
    let values = match get_field(fs, "values") {
        Some(x) => match crate::nullable_f64_vec::deserialize(x) {
            Ok(v) => v,
            Err(e) => return Err(e),
        },
        None => return Err(DecodeError::Malformed),
    };
    Ok(EvalRecord { study, trial, state, spans, params, values })
}

/// Decodes a record: the `type` tag must be `"study"` or `"eval"`, and the
/// fields beside it must have that kind's shape.
pub fn decode(w: &Wire) -> (r: Result<Record, DecodeError>)
    ensures
        match r {
            Ok(rec) => dec_record(*w) == Some(rec@) && rec@.valid(),
            Err(_) => dec_record(*w) is None,
        },
        (match field_str(obj_of(*w), "type"@) {
            Some(t) => t != "study"@ && t != "eval"@,
            None => true,
        }) ==> r is Err,
{
    match w {
        Wire::Obj(fs) => {
            let tag = match get_str(fs, "type") {
                Ok(t) => t,
                Err(e) => return Err(e),
            };
            if str_is(&tag, "study") {
                match decode_study(fs) {
                    Ok(s) => Ok(Record::Study(s)),
                    Err(e) => Err(e),
                }
            } else if str_is(&tag, "eval") {
                match decode_eval(fs) {
                    Ok(e) => Ok(Record::Eval(e)),
                    Err(e) => Err(e),
                }
            } else {
                Err(DecodeError::Malformed)
            }
        },
        _ => Err(DecodeError::Malformed),
    }
}

/// Decoding the wire form of a record gives the record back, provided its
/// absent trial values are the canonical not-a-number (the only form in
/// which an absent value is ever decoded) and its attributes form a map.
pub proof fn lemma_round_trip(w: Wire, m: RecordModel)
    requires
        enc_record(w, m),
        m.canonical(),
    ensures
        dec_record(w) == Some(m),
{
    lemma_spelling();
    let fs = obj_of(w);
    match m {
        RecordModel::Study(s) => {
            lemma_attrs_round_trip(lookup(fs, "attrs"@)->Some_0, s.attrs);
            lemma_span_defs_round_trip(lookup(fs, "spans"@)->Some_0, s.spans);
            lemma_params_round_trip(lookup(fs, "params"@)->Some_0, s.params);
            lemma_value_defs_round_trip(lookup(fs, "values"@)->Some_0, s.values);
        },
        RecordModel::Eval(e) => {
            lemma_state_round_trip(lookup(fs, "state"@)->Some_0, e.state);
            lemma_spans_round_trip(lookup(fs, "spans"@)->Some_0, e.spans);
            lemma_nullable_round_trip(lookup(fs, "params"@)->Some_0, e.params);
            lemma_nullable_round_trip(lookup(fs, "values"@)->Some_0, e.values);
        },
    }
}

/// An object whose `type` tag is neither `"study"` nor `"eval"`, or that has
/// no tag, does not decode: no kind is assumed.
pub proof fn lemma_tag_discrimination(w: Wire)
    requires
        w is Obj,
        match field_str(obj_of(w), "type"@) {
            Some(t) => t != "study"@ && t != "eval"@,
            None => true,
        },
    ensures
        dec_record(w) is None,
{
}

/// Re-encoding what was decoded from an encoding describes the same record
/// again, so encoding is stable under a decode in between.
pub proof fn lemma_reencode(w1: Wire, m: RecordModel, w2: Wire, m2: RecordModel)
    requires
        enc_record(w1, m),
        m.canonical(),
        dec_record(w1) == Some(m2),
        enc_record(w2, m2),
    ensures
        m2 == m,
        enc_record(w2, m),
{
    lemma_round_trip(w1, m);
}

} // verus!
