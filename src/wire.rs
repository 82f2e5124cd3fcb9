use vstd::prelude::*;
use crate::float::Float;

verus! {

/// A self-describing structured value, the shape a record takes on the wire
/// (JSON-compatible: null, numbers, strings, arrays and keyed objects).
#[derive(Debug)]
pub enum Wire {
    Null,
    Bool(bool),
    /// A floating-point number, bit for bit, infinities and not-a-number
    /// included. A text format without them (JSON writes them as null) does
    /// not carry these through: there such a number reads back as null.
    Num(Float),
    /// A non-negative integer.
    Int(u64),
    Str(String),
    Arr(Vec<Wire>),
    Obj(Vec<Field>),
}

/// One keyed entry of an object.
#[derive(Debug)]
pub struct Field {
    pub key: String,
    pub value: Wire,
}

/// `i` is the first position of `fs` whose key is `key`.
pub open spec fn first_key(fs: Seq<Field>, key: Seq<char>, i: int) -> bool {
    0 <= i < fs.len() && fs[i].key@ == key && forall|j: int| 0 <= j < i ==> fs[j].key@ != key
}

/// The value under the first occurrence of `key`, if any.
pub open spec fn lookup(fs: Seq<Field>, key: Seq<char>) -> Option<Wire> {
    if exists|i: int| first_key(fs, key, i) {
        Some(fs[choose|i: int| first_key(fs, key, i)].value)
    } else {
        None
    }
}

/// A position is the first of its key in at most one way.
pub proof fn lemma_first_key_unique(fs: Seq<Field>, key: Seq<char>, i: int, j: int)
    requires
        first_key(fs, key, i),
        first_key(fs, key, j),
    ensures
        i == j,
{
}

/// Looks `key` up in an object's fields; the first occurrence wins.
pub fn get_field<'a>(fs: &'a Vec<Field>, key: &str) -> (r: Option<&'a Wire>)
    ensures
        match r {
            Some(w) => lookup(fs@, key@) == Some(*w),
            None => lookup(fs@, key@) is None,
        },
{
    let k: String = key.to_owned();
    let mut i: usize = 0;
    while i < fs.len()
        invariant
            0 <= i <= fs.len(),
            k@ == key@,
            forall|j: int| 0 <= j < i ==> fs@[j].key@ != key@,
        decreases fs.len() - i,
    {
        if fs[i].key == k {
            proof {
                assert(first_key(fs@, key@, i as int));
                let k = choose|k: int| first_key(fs@, key@, k);
                lemma_first_key_unique(fs@, key@, i as int, k);
            }
            return Some(&fs[i].value);
        }
        i = i + 1;
    }
    None
}

} // verus!
