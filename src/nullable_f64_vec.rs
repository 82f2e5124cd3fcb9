use vstd::prelude::*;
use crate::float::{Float, nan_bits, NAN_BITS};
use crate::wire::Wire;
use crate::schema::{floats_view, canonical_nans};
use crate::codec::{DecodeError, is_num, dec_num, decode_number};

verus! {


/// `w` encodes the double `b`, not-a-number standing as null.
pub open spec fn enc_nullable_item(w: Wire, b: u64) -> bool {
    if nan_bits(b) {
        w is Null
    } else {
        is_num(w, b)
    }
}

/// `w` encodes the sequence `s` item by item, not-a-number standing as null.
pub open spec fn enc_nullable(w: Wire, s: Seq<u64>) -> bool {
    w is Arr && w->Arr_0@.len() == s.len() && forall|i: int|
        0 <= i < s.len() ==> enc_nullable_item(#[trigger] w->Arr_0@[i], s[i])
}

/// Null reads back as the canonical not-a-number; a number as a double.
pub open spec fn dec_nullable_item(w: Wire) -> Option<u64> {
    match w {
        Wire::Null => Some(NAN_BITS),
        _ => dec_num(w),
    }
}

/// An array of numbers and nulls, read back as doubles.
pub open spec fn dec_nullable(w: Wire) -> Option<Seq<u64>> {
    match w {
        Wire::Arr(v) => if forall|i: int| 0 <= i < v@.len() ==> (#[trigger] dec_nullable_item(v@[i])) is Some {
            Some(Seq::new(v@.len(), |i: int| dec_nullable_item(v@[i])->Some_0))
        } else {
            None
        },
        _ => None,
    }
}

/// Encodes a sequence of doubles, each not-a-number as null. An infinity
/// stays a number; a text format that cannot write one (JSON writes null)
/// makes it read back as not-a-number.
pub fn serialize(v: &Vec<Float>) -> (w: Wire)
    ensures
        enc_nullable(w, floats_view(v@)),
{
    let mut out: Vec<Wire> = Vec::new();
    let mut i: usize = 0;
    while i < v.len()
        invariant
            i <= v.len(),
            out@.len() == i,
            forall|j: int| 0 <= j < i ==> enc_nullable_item(#[trigger] out@[j], v@[j].bits),
        decreases v.len() - i,
    {
        let f = v[i];
        if f.is_nan() {
            out.push(Wire::Null);
        } else {
            out.push(Wire::Num(f));
        }
        i = i + 1;
    }
    Wire::Arr(out)
}

/// Decodes an array of numbers and nulls, null becoming the canonical
/// not-a-number.
pub fn deserialize(w: &Wire) -> (r: Result<Vec<Float>, DecodeError>)
    ensures
        match r {
            Ok(v) => dec_nullable(*w) == Some(floats_view(v@)),
            Err(_) => dec_nullable(*w) is None,
        },
{
    let items = match w {
        Wire::Arr(items) => items,
        _ => return Err(DecodeError::Malformed),
    };
    let mut out: Vec<Float> = Vec::new();
    let mut i: usize = 0;
    while i < items.len()
        invariant
            i <= items.len(),
            out@.len() == i,
            *w == Wire::Arr(*items),
            forall|j: int| 0 <= j < i ==> dec_nullable_item(#[trigger] items@[j]) == Some(out@[j].bits),
        decreases items.len() - i,
    {
        match &items[i] {
            Wire::Null => out.push(Float::nan()),
            x => match decode_number(x) {
                Ok(f) => out.push(f),
                Err(e) => {
                    return Err(e);
                },
            },
        }
        i = i + 1;
    }
    assert(floats_view(out@) =~= Seq::new(items@.len(), |j: int| dec_nullable_item(items@[j])->Some_0));
    Ok(out)
}

/// Encoding and decoding a sequence of doubles gives it back, provided its
/// absent values are the canonical not-a-number.
pub proof fn lemma_nullable_round_trip(w: Wire, s: Seq<u64>)
    requires
        enc_nullable(w, s),
        canonical_nans(s),
    ensures
        dec_nullable(w) == Some(s),
{
    let v = w->Arr_0@;
    assert forall|i: int| 0 <= i < v.len() implies (#[trigger] dec_nullable_item(v[i])) is Some && dec_nullable_item(v[i])->Some_0 == s[i] by {
        assert(enc_nullable_item(v[i], s[i]));
    }
    assert(Seq::new(v.len(), |i: int| dec_nullable_item(v[i])->Some_0) =~= s);
}

} // verus!
