//! The structured values that a template is rendered against.
use vstd::prelude::*;

verus! {

/// A JSON-like value. Strings and object keys are UTF-8 bytes; a number is
/// held as its decimal text.
#[derive(Debug)]
pub enum Value {
    Null,
    Bool(bool),
    Number(Vec<u8>),
    String(Vec<u8>),
    Array(Vec<Value>),
    Object(Vec<(Vec<u8>, Value)>),
}

/// The value of the first entry at or after `i` whose key is `key`.
pub open spec fn member_from(entries: Seq<(Vec<u8>, Value)>, key: Seq<u8>, i: int) -> Option<Value>
    decreases entries.len() - i,
{
    if i < 0 || i >= entries.len() {
        None
    } else if entries[i].0@ == key {
        Some(entries[i].1)
    } else {
        member_from(entries, key, i + 1)
    }
}

/// The value of the first entry of an object whose key is `key`.
pub open spec fn member(entries: Seq<(Vec<u8>, Value)>, key: Seq<u8>) -> Option<Value> {
    member_from(entries, key, 0)
}

/// `1`-`9`.
pub open spec fn is_nonzero_digit(b: u8) -> bool {
    49u8 <= b && b <= 57u8
}

/// `e` or `E`.
pub open spec fn is_exponent_mark(b: u8) -> bool {
    b == 101u8 || b == 69u8
}

/// Whether the decimal text from `i` on has no nonzero digit before its
/// exponent.
pub open spec fn zero_from(t: Seq<u8>, i: int) -> bool
    decreases t.len() - i,
{
    if i < 0 || i >= t.len() || is_exponent_mark(t[i]) {
        true
    } else if is_nonzero_digit(t[i]) {
        false
    } else {
        zero_from(t, i + 1)
    }
}

/// Whether a decimal text denotes zero: its mantissa has no nonzero digit.
pub open spec fn is_zero_number(t: Seq<u8>) -> bool {
    zero_from(t, 0)
}

/// Looks up `key` in the entries of an object.
pub fn get_member<'a>(entries: &'a Vec<(Vec<u8>, Value)>, key: &[u8]) -> (r: Option<&'a Value>)
    ensures
        match member(entries@, key@) {
            None => r is None,
            Some(v) => r matches Some(x) && *x == v,
        },
{
    let mut i: usize = 0;
    while i < entries.len()
        invariant
            0 <= i <= entries@.len(),
            member(entries@, key@) == member_from(entries@, key@, i as int),
        decreases entries.len() - i,
    {
        let entry = &entries[i];
        if crate::tokenizer::bytes_equal(entry.0.as_slice(), key) {
            return Some(&entry.1);
        }
        i += 1;
    }
    None
}

/// Whether a decimal text denotes zero.
pub fn number_is_zero(t: &Vec<u8>) -> (r: bool)
    ensures
        r == is_zero_number(t@),
{
    let mut i: usize = 0;
    while i < t.len()
        invariant
            0 <= i <= t@.len(),
            is_zero_number(t@) == zero_from(t@, i as int),
        decreases t.len() - i,
    {
        let b = t[i];
        if b == 101u8 || b == 69u8 {
            return true;
        }
        if 49u8 <= b && b <= 57u8 {
            return false;
        }
        i += 1;
    }
    true
}

} // verus!
