//! Diagnostics: a message with the line, the column and the source line of a
//! byte offset, and a caret under the column.
use vstd::prelude::*;

verus! {

/// The first position at or after `k` that holds `byte`.
pub open spec fn first_from(s: Seq<u8>, byte: u8, k: int) -> Option<int>
    decreases s.len() - k,
{
    if k < 0 || k >= s.len() {
        None
    } else if s[k] == byte {
        Some(k)
    } else {
        first_from(s, byte, k + 1)
    }
}

/// How many newlines stand before position `k`.
pub open spec fn newlines_before(s: Seq<u8>, k: int) -> nat
    decreases k,
{
    if k <= 0 || k > s.len() {
        0
    } else {
        newlines_before(s, k - 1) + if s[k - 1] == 10u8 { 1nat } else { 0nat }
    }
}

/// The position of the last newline before `k`, or 0 when there is none.
pub open spec fn line_start(s: Seq<u8>, k: int) -> int
    decreases k,
{
    if k <= 0 || k > s.len() {
        0
    } else if s[k - 1] == 10u8 {
        k - 1
    } else {
        line_start(s, k - 1)
    }
}

/// The decimal digits of `n`.
pub open spec fn decimal(n: nat) -> Seq<u8>
    decreases n,
{
    if n < 10 {
        seq![(48 + n) as u8]
    } else {
        decimal(n / 10).push((48 + n % 10) as u8)
    }
}

/// `n` spaces.
pub open spec fn spaces(n: nat) -> Seq<u8> {
    Seq::new(n, |i: int| 32u8)
}

/// `Line number: `
pub open spec fn line_number_label() -> Seq<u8> {
    seq![76u8, 105u8, 110u8, 101u8, 32u8, 110u8, 117u8, 109u8, 98u8, 101u8, 114u8, 58u8, 32u8]
}

/// `, Column number: `
pub open spec fn column_number_label() -> Seq<u8> {
    seq![44u8, 32u8, 67u8, 111u8, 108u8, 117u8, 109u8, 110u8, 32u8, 110u8, 117u8, 109u8, 98u8, 101u8, 114u8, 58u8, 32u8]
}

/// A newline, then `Line: `
pub open spec fn line_label() -> Seq<u8> {
    seq![10u8, 76u8, 105u8, 110u8, 101u8, 58u8, 32u8]
}

/// The location of `index`: its line number, its column counted from the
/// last newline before it, the source from that newline up to the next one
/// at or after `index`, and a caret under the column.
pub open spec fn location(s: Seq<u8>, index: int) -> Seq<u8> {
    let start = line_start(s, index);
    let column = (index - start + 1) as nat;
    let end = match first_from(s, 10u8, index) {
        Some(e) => e,
        None => s.len() as int,
    };
    line_number_label() + decimal(1 + newlines_before(s, index)) + column_number_label() + decimal(column)
        + line_label() + s.subrange(start, end) + seq![10u8] + spaces(column + 5) + seq![94u8]
}

/// Appends `bytes` to `out`.
fn push_all(out: &mut Vec<u8>, bytes: &[u8])
    ensures
        final(out)@ == old(out)@ + bytes@,
{
    let mut k: usize = 0;
    while k < bytes.len()
        invariant
            0 <= k <= bytes@.len(),
            out@ == old(out)@ + bytes@.subrange(0, k as int),
        decreases bytes.len() - k,
    {
        out.push(bytes[k]);
        k += 1;
        assert(out@ =~= old(out)@ + bytes@.subrange(0, k as int));
    }
    assert(bytes@.subrange(0, bytes@.len() as int) =~= bytes@);
}

/// Appends the decimal digits of `n` to `out`.
fn push_decimal(out: &mut Vec<u8>, n: usize)
    ensures
        final(out)@ == old(out)@ + decimal(n as nat),
    decreases n,
{
    if n >= 10 {
        push_decimal(out, n / 10);
    }
    out.push((48 + n % 10) as u8);
    assert(out@ =~= old(out)@ + decimal(n as nat));
}

/// Appends `n` spaces to `out`.
fn push_spaces(out: &mut Vec<u8>, n: usize)
    ensures
        final(out)@ == old(out)@ + spaces(n as nat),
{
    let mut k: usize = 0;
    while k < n
        invariant
            0 <= k <= n,
            out@ == old(out)@ + spaces(k as nat),
        decreases n - k,
    {
        out.push(32u8);
        k += 1;
        assert(out@ =~= old(out)@ + spaces(k as nat));
    }
}

/// Returns `message`, a newline, and the location of `index` in `source`.
pub fn format(source: &[u8], index: usize, message: &[u8]) -> (r: Vec<u8>)
    requires
        index <= source@.len(),
        source@.len() < usize::MAX - 6,
    ensures
        r@ == message@ + seq![10u8] + location(source@, index as int),
{
    let mut out: Vec<u8> = Vec::new();
    push_all(&mut out, message);
    out.push(10u8);
    let where_text = get_location(source, index);
    push_all(&mut out, where_text.as_slice());
    assert(out@ =~= message@ + seq![10u8] + location(source@, index as int));
    out
}

/// Returns the location of `index` in `source`.
pub fn get_location(source: &[u8], index: usize) -> (r: Vec<u8>)
    requires
        index <= source@.len(),
        source@.len() < usize::MAX - 6,
    ensures
        r@ == location(source@, index as int),
{
    let mut i: usize = 0;
    let mut line_number: usize = 1;
    let mut start: usize = 0;
    while i != index
        invariant
            0 <= i <= index <= source@.len(),
            source@.len() < usize::MAX - 6,
            line_number == 1 + newlines_before(source@, i as int),
            start == line_start(source@, i as int),
            line_number <= i + 1,
            start <= i,
        decreases index - i,
    {
        if source[i] == 10u8 {
            line_number += 1;
            start = i;
        }
        i += 1;
    }
    let column = index - start + 1;
    let line_end = match index_of(source, 10u8, index) {
        Ok(e) => e,
        Err(_) => source.len(),
    };
    proof {
        lemma_first_from_bounds(source@, 10u8, index as int);
    }
    let mut out: Vec<u8> = Vec::new();
    let number_label: [u8; 13] = [76u8, 105u8, 110u8, 101u8, 32u8, 110u8, 117u8, 109u8, 98u8, 101u8, 114u8, 58u8, 32u8];
    let column_label: [u8; 17] = [44u8, 32u8, 67u8, 111u8, 108u8, 117u8, 109u8, 110u8, 32u8, 110u8, 117u8, 109u8, 98u8, 101u8, 114u8, 58u8, 32u8];
    let text_label: [u8; 7] = [10u8, 76u8, 105u8, 110u8, 101u8, 58u8, 32u8];
    assert(number_label@ =~= line_number_label());
    assert(column_label@ =~= column_number_label());
    assert(text_label@ =~= line_label());
    push_all(&mut out, &number_label);
    push_decimal(&mut out, line_number);
    push_all(&mut out, &column_label);
    push_decimal(&mut out, column);
    push_all(&mut out, &text_label);
    push_all(&mut out, vstd::slice::slice_subrange(source, start, line_end));
    out.push(10u8);
    push_spaces(&mut out, column + 5);
    out.push(94u8);
    assert(out@ =~= location(source@, index as int));
    out
}

/// Returns the first position at or after `offset` that holds `byte`.
pub fn index_of(source: &[u8], byte: u8, offset: usize) -> (r: Result<usize, &'static str>)
    requires
        offset <= source@.len(),
    ensures
        match first_from(source@, byte, offset as int) {
            Some(k) => r == Ok::<usize, &'static str>(k as usize),
            None => r is Err,
        },
{
    let mut k = offset;
    while k != source.len()
        invariant
            offset <= k <= source@.len(),
            first_from(source@, byte, offset as int) == first_from(source@, byte, k as int),
        decreases source@.len() - k,
    {
        if source[k] == byte {
            return Ok(k);
        }
        k += 1;
    }
    Err("Not found")
}

proof fn lemma_first_from_bounds(s: Seq<u8>, byte: u8, k: int)
    requires
        0 <= k <= s.len(),
    ensures
        first_from(s, byte, k) matches Some(e) ==> k <= e < s.len(),
    decreases s.len() - k,
{
    if k < s.len() && s[k] != byte {
        lemma_first_from_bounds(s, byte, k + 1);
    }
}

} // verus!
