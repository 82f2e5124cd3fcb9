use vstd::prelude::*;
use crate::float::{Float, nan_bits, min_bits, max_bits, count_bits, INF_BITS, NEG_INF_BITS};

verus! {

/// Identifier of a study.
pub type StudyId = String;

/// Identifier of a trial within its study.
pub type TrialId = u32;

/// A timed phase of a trial, in seconds.
#[derive(Clone, Copy, Debug)]
pub struct Span {
    pub start: Float,
    pub end: Float,
}

impl Span {
    pub fn new(start: Float, end: Float) -> (r: Span)
        ensures
            r.start == start,
            r.end == end,
    {
        Span { start, end }
    }

    pub fn start(self) -> (r: Float)
        ensures
            r == self.start,
    {
        self.start
    }

    pub fn end(self) -> (r: Float)
        ensures
            r == self.end,
    {
        self.end
    }
}

/// A span label declared by a study; trials refer to it by position.
#[derive(Clone, Debug)]
pub struct SpanDef {
    pub name: String,
}

impl SpanDef {
    pub fn new(name: String) -> (r: SpanDef)
        ensures
            r.name@ == name@,
    {
        SpanDef { name }
    }
}

/// How a sampler should move through a numerical range.
#[derive(Clone, Copy, Debug, PartialEq, Eq, Structural)]
pub enum Scale {
    Linear,
    Log,
}

impl Scale {
    pub fn is_default(&self) -> (r: bool)
        ensures
            r == (*self == Scale::Linear),
    {
        match self {
            Scale::Linear => true,
            Scale::Log => false,
        }
    }
}

impl Default for Scale {
    fn default() -> (r: Scale)
        ensures
            r == Scale::Linear,
    {
        Scale::Linear
    }
}

/// The search space of one parameter.
#[derive(Clone, Debug)]
pub enum ParamRange {
    Numerical { min: Float, max: Float, step: Option<Float>, scale: Scale },
    Categorical { choices: Vec<String> },
}

/// What a `ParamRange` holds, with doubles as bit patterns.
pub enum RangeModel {
    Numerical { min: u64, max: u64, step: Option<u64>, scale: Scale },
    Categorical { choices: Seq<Seq<char>> },
}

pub open spec fn opt_bits(o: Option<Float>) -> Option<u64> {
    match o {
        Some(f) => Some(f.bits),
        None => None,
    }
}

pub open spec fn strings_view(v: Seq<String>) -> Seq<Seq<char>> {
    v.map_values(|s: String| s@)
}

impl View for ParamRange {
    type V = RangeModel;

    open spec fn view(&self) -> RangeModel {
        match self {
            ParamRange::Numerical { min, max, step, scale } => RangeModel::Numerical {
                min: min.bits,
                max: max.bits,
                step: opt_bits(*step),
                scale: *scale,
            },
            ParamRange::Categorical { choices } => RangeModel::Categorical {
                choices: strings_view(choices@),
            },
        }
    }
}

impl ParamRange {
    pub fn continuous(min: Float, max: Float) -> (r: ParamRange)
        ensures
            r@ == (RangeModel::Numerical { min: min.bits, max: max.bits, step: None, scale: Scale::Linear }),
    {
        ParamRange::Numerical { min, max, step: None, scale: Scale::Linear }
    }

    pub fn log_continuous(min: Float, max: Float) -> (r: ParamRange)
        ensures
            r@ == (RangeModel::Numerical { min: min.bits, max: max.bits, step: None, scale: Scale::Log }),
    {
        ParamRange::Numerical { min, max, step: None, scale: Scale::Log }
    }

    pub fn discrete(min: Float, max: Float, step: Float) -> (r: ParamRange)
        ensures
            r@ == (RangeModel::Numerical {
                min: min.bits,
                max: max.bits,
                step: Some(step.bits),
                scale: Scale::Linear,
            }),
    {
        ParamRange::Numerical { min, max, step: Some(step), scale: Scale::Linear }
    }

    pub fn categorical(choices: Vec<String>) -> (r: ParamRange)
        ensures
            r@ == (RangeModel::Categorical { choices: strings_view(choices@) }),
    {
        ParamRange::Categorical { choices }
    }

    /// The lower end of the range; a categorical range starts at index 0.
    pub fn min(&self) -> (r: Float)
        ensures
            match self@ {
                RangeModel::Numerical { min, .. } => r.bits == min,
                RangeModel::Categorical { .. } => r.bits == 0,
            },
    {
        match self {
            ParamRange::Numerical { min, .. } => *min,
            ParamRange::Categorical { .. } => Float::from_bits(0),
        }
    }

    /// The upper end of the range; for a categorical range, the number of
    /// choices as the nearest double.
    pub fn max(&self) -> (r: Float)
        ensures
            match self@ {
                RangeModel::Numerical { max, .. } => r.bits == max,
                RangeModel::Categorical { choices } => count_bits(r.bits, choices.len()),
            },
    {
        match self {
            ParamRange::Numerical { max, .. } => *max,
            ParamRange::Categorical { choices } => Float::from_count(choices.len() as u64),
        }
    }

    /// The scale of the range; a categorical range is linear.
    pub fn scale(&self) -> (r: Scale)
        ensures
            match self@ {
                RangeModel::Numerical { scale, .. } => r == scale,
                RangeModel::Categorical { .. } => r == Scale::Linear,
            },
    {
        match self {
            ParamRange::Numerical { scale, .. } => *scale,
            ParamRange::Categorical { .. } => Scale::Linear,
        }
    }
}

/// A named parameter and its search space.
#[derive(Clone, Debug)]
pub struct ParamDef {
    pub name: String,
    pub range: ParamRange,
}

impl View for ParamDef {
    type V = (Seq<char>, RangeModel);

    open spec fn view(&self) -> (Seq<char>, RangeModel) {
        (self.name@, self.range@)
    }
}

impl ParamDef {
    pub fn continuous(name: String, min: Float, max: Float) -> (r: ParamDef)
        ensures
            r@ == (name@, RangeModel::Numerical { min: min.bits, max: max.bits, step: None, scale: Scale::Linear }),
    {
        ParamDef { name, range: ParamRange::continuous(min, max) }
    }

    pub fn log_continuous(name: String, min: Float, max: Float) -> (r: ParamDef)
        ensures
            r@ == (name@, RangeModel::Numerical { min: min.bits, max: max.bits, step: None, scale: Scale::Log }),
    {
        ParamDef { name, range: ParamRange::log_continuous(min, max) }
    }

    pub fn discrete(name: String, min: Float, max: Float, step: Float) -> (r: ParamDef)
        ensures
            r@ == (name@, RangeModel::Numerical {
                min: min.bits,
                max: max.bits,
                step: Some(step.bits),
                scale: Scale::Linear,
            }),
    {
        ParamDef { name, range: ParamRange::discrete(min, max, step) }
    }

    pub fn categorical(name: String, choices: Vec<String>) -> (r: ParamDef)
        ensures
            r@ == (name@, RangeModel::Categorical { choices: strings_view(choices@) }),
    {
        ParamDef { name, range: ParamRange::categorical(choices) }
    }
}

/// The interval an objective is expected to fall in; unbounded by default.
#[derive(Clone, Copy, Debug)]
pub struct ValueRange {
    pub min: Float,
    pub max: Float,
}

impl ValueRange {
    /// Whether this is the unbounded interval.
    pub fn is_default(&self) -> (r: bool)
        ensures
            r == (self.min.bits == NEG_INF_BITS && self.max.bits == INF_BITS),
    {
        self.min.bits == NEG_INF_BITS && self.max.bits == INF_BITS
    }
}

impl Default for ValueRange {
    fn default() -> (r: ValueRange)
        ensures
            r.min.bits == NEG_INF_BITS,
            r.max.bits == INF_BITS,
    {
        ValueRange { min: Float::neg_infinity(), max: Float::infinity() }
    }
}

/// Whether smaller or larger objective values are preferred.
#[derive(Clone, Copy, Debug, PartialEq, Eq, Structural)]
pub enum Direction {
    Minimize,
    Maximize,
}

/// The preferred of two observed values.
pub open spec fn better_bits(d: Direction, x: u64, y: u64) -> u64 {
    match d {
        Direction::Minimize => min_bits(x, y),
        Direction::Maximize => max_bits(x, y),
    }
}

impl Direction {
    /// The preferred of `x` and `y`: the smaller when minimizing, the larger
    /// when maximizing.
    pub fn better(self, x: Float, y: Float) -> (r: Float)
        ensures
            r.bits == better_bits(self, x.bits, y.bits),
    {
        if self == Direction::Minimize {
            x.min(y)
        } else {
            x.max(y)
        }
    }

    pub fn is_minimize(self) -> (r: bool)
        ensures
            r == (self == Direction::Minimize),
    {
        self == Direction::Minimize
    }

    pub fn is_maximize(self) -> (r: bool)
        ensures
            r == (self == Direction::Maximize),
    {
        self == Direction::Maximize
    }
}

/// A named objective, its expected range and its direction.
#[derive(Clone, Debug)]
pub struct ValueDef {
    pub name: String,
    pub range: ValueRange,
    pub direction: Direction,
}

/// What a `ValueDef` holds, with doubles as bit patterns.
pub struct ValueDefModel {
    pub name: Seq<char>,
    pub min: u64,
    pub max: u64,
    pub direction: Direction,
}

impl View for ValueDef {
    type V = ValueDefModel;

    open spec fn view(&self) -> ValueDefModel {
        ValueDefModel {
            name: self.name@,
            min: self.range.min.bits,
            max: self.range.max.bits,
            direction: self.direction,
        }
    }
}

impl ValueDef {
    /// An objective over the unbounded range.
    pub fn new(name: String, direction: Direction) -> (r: ValueDef)
        ensures
            r@ == (ValueDefModel { name: name@, min: NEG_INF_BITS, max: INF_BITS, direction }),
    {
        ValueDef { name, range: ValueRange::default(), direction }
    }
}

/// Where a trial stands; only `Interim` is not final.
#[derive(Clone, Copy, Debug, PartialEq, Eq, Structural)]
pub enum EvalState {
    Complete,
    Interim,
    Failed,
    Infeasible,
}

impl EvalState {
    pub fn is_complete(self) -> (r: bool)
        ensures
            r == (self == EvalState::Complete),
    {
        self == EvalState::Complete
    }

    pub fn is_interm(self) -> (r: bool)
        ensures
            r == (self == EvalState::Interim),
    {
        self == EvalState::Interim
    }

    pub fn is_failed(self) -> (r: bool)
        ensures
            r == (self == EvalState::Failed),
    {
        self == EvalState::Failed
    }

    pub fn is_infeasible(self) -> (r: bool)
        ensures
            r == (self == EvalState::Infeasible),
    {
        self == EvalState::Infeasible
    }
}

/// A free-form study attribute, one entry of a map from keys to values.
#[derive(Clone, Debug)]
pub struct Attr {
    pub key: String,
    pub value: String,
}

/// The declaration of a study: its identity, attributes, and the span,
/// parameter and objective lists whose positions every trial follows.
/// The attributes are a map held with its keys strictly ascending
/// (`StudyModel::valid`); `crate::attrs::insert_attr` keeps them so.
#[derive(Clone, Debug)]
pub struct StudyRecord {
    pub id: StudyId,
    pub attrs: Vec<Attr>,
    pub spans: Vec<SpanDef>,
    pub params: Vec<ParamDef>,
    pub values: Vec<ValueDef>,
}

/// What a `StudyRecord` holds.
pub struct StudyModel {
    pub id: Seq<char>,
    pub attrs: Seq<(Seq<char>, Seq<char>)>,
    pub spans: Seq<Seq<char>>,
    pub params: Seq<(Seq<char>, RangeModel)>,
    pub values: Seq<ValueDefModel>,
}

impl View for StudyRecord {
    type V = StudyModel;

    open spec fn view(&self) -> StudyModel {
        StudyModel {
            id: self.id@,
            attrs: attrs_view(self.attrs@),
            spans: span_defs_view(self.spans@),
            params: params_view(self.params@),
            values: value_defs_view(self.values@),
        }
    }
}

/// One trial's observations, positionally aligned with its study's lists.
/// A not-a-number entry of `params` or `values` stands for an absent value.
#[derive(Clone, Debug)]
pub struct EvalRecord {
    pub study: StudyId,
    pub trial: TrialId,
    pub state: EvalState,
    pub spans: Vec<Span>,
    pub params: Vec<Float>,
    pub values: Vec<Float>,
}

/// What an `EvalRecord` holds, with doubles as bit patterns.
pub struct EvalModel {
    pub study: Seq<char>,
    pub trial: u32,
    pub state: EvalState,
    pub spans: Seq<(u64, u64)>,
    pub params: Seq<u64>,
    pub values: Seq<u64>,
}

pub open spec fn span_defs_view(v: Seq<SpanDef>) -> Seq<Seq<char>> {
    v.map_values(|s: SpanDef| s.name@)
}

pub open spec fn params_view(v: Seq<ParamDef>) -> Seq<(Seq<char>, RangeModel)> {
    v.map_values(|p: ParamDef| p@)
}

pub open spec fn value_defs_view(v: Seq<ValueDef>) -> Seq<ValueDefModel> {
    v.map_values(|d: ValueDef| d@)
}

pub open spec fn attrs_view(v: Seq<Attr>) -> Seq<(Seq<char>, Seq<char>)> {
    v.map_values(|a: Attr| (a.key@, a.value@))
}

pub open spec fn spans_view(v: Seq<Span>) -> Seq<(u64, u64)> {
    v.map_values(|s: Span| (s.start.bits, s.end.bits))
}

pub open spec fn floats_view(v: Seq<Float>) -> Seq<u64> {
    v.map_values(|f: Float| f.bits)
}

impl View for EvalRecord {
    type V = EvalModel;

    open spec fn view(&self) -> EvalModel {
        EvalModel {
            study: self.study@,
            trial: self.trial,
            state: self.state,
            spans: spans_view(self.spans@),
            params: floats_view(self.params@),
            values: floats_view(self.values@),
        }
    }
}

/// The unit exchanged with a log: a study declaration or a trial report.
#[derive(Clone, Debug)]
pub enum Record {
    Study(StudyRecord),
    Eval(EvalRecord),
}

/// What a `Record` holds.
pub enum RecordModel {
    Study(StudyModel),
    Eval(EvalModel),
}

impl View for Record {
    type V = RecordModel;

    open spec fn view(&self) -> RecordModel {
        match self {
            Record::Study(s) => RecordModel::Study(s@),
            Record::Eval(e) => RecordModel::Eval(e@),
        }
    }
}

/// Every not-a-number in the sequence is the canonical one, the form in
/// which an absent value comes back from the wire.
pub open spec fn canonical_nans(v: Seq<u64>) -> bool {
    forall|i: int| 0 <= i < v.len() && #[trigger] nan_bits(v[i]) ==> v[i] == crate::float::NAN_BITS
}

impl StudyModel {
    /// The attributes form a map: keys strictly ascending, so each is held
    /// once and equal maps are equal sequences.
    pub open spec fn valid(self) -> bool {
        crate::attrs::attrs_valid(self.attrs)
    }
}

impl RecordModel {
    /// A study's attributes form a map.
    pub open spec fn valid(self) -> bool {
        match self {
            RecordModel::Study(s) => s.valid(),
            RecordModel::Eval(_) => true,
        }
    }

    /// Valid, and absent trial values are held as the canonical
    /// not-a-number.
    pub open spec fn canonical(self) -> bool {
        &&& self.valid()
        &&& match self {
            RecordModel::Study(_) => true,
            RecordModel::Eval(e) => canonical_nans(e.params) && canonical_nans(e.values),
        }
    }
}

} // verus!
