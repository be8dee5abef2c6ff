//! The record form of a share: every number big-endian, every value behind
//! its length.
//!
//! ```text
//! [u32] length of the coordinate's bytes, then those bytes
//! [u64] number of points
//! per point: [u32] length of the value's bytes, then those bytes
//! ```
//!
//! A value's bytes are a signed big-endian integer in two's complement. The
//! coordinate and the points are elements of GF(256), so they are written in
//! the fewest bytes that keep them non-negative: one byte up to 127, a zero
//! byte and the value above. Reading accepts any number of leading zero
//! bytes, and refuses a negative number or one above 255.

use crate::share::{Points, Share};
use vstd::prelude::*;

verus! {

/// Why a byte string is no record.
#[derive(Debug, Clone, Copy, PartialEq, Eq)]
pub enum CodecError {
    /// The bytes end inside a length, a count or a value.
    Truncated,
    /// A value's first byte has its top bit set: the number is negative.
    NegativeValue,
    /// A value is above 255, so it is no element of the field.
    ValueOutOfField,
    /// The coordinate is 0.
    ZeroCoordinate,
    /// Bytes follow the last point.
    TrailingBytes,
}

/// The number that a byte string spells, most significant byte first.
pub open spec fn be_value(bytes: Seq<u8>) -> nat
    decreases bytes.len(),
{
    if bytes.len() == 0 {
        0
    } else {
        be_value(bytes.drop_last()) * 256 + bytes.last() as nat
    }
}

/// The `width` bytes that spell `n`, most significant byte first.
pub open spec fn be_bytes(n: nat, width: nat) -> Seq<u8>
    decreases width,
{
    if width == 0 {
        Seq::empty()
    } else {
        be_bytes(n / 256, (width - 1) as nat).push((n % 256) as u8)
    }
}

/// The first number that `width` bytes cannot spell: 256 to the power `width`.
pub open spec fn be_limit(width: nat) -> nat
    decreases width,
{
    if width == 0 {
        1
    } else {
        256 * be_limit((width - 1) as nat)
    }
}

/// A byte string spells a number below the limit of its length.
pub proof fn be_value_is_below_limit(bytes: Seq<u8>)
    ensures
        be_value(bytes) < be_limit(bytes.len()),
    decreases bytes.len(),
{
    if bytes.len() > 0 {
        be_value_is_below_limit(bytes.drop_last());
    }
}

/// Spelling a number in `width` bytes gives `width` bytes, and reading them
/// gives the number back if it is below the limit of `width`.
pub proof fn be_bytes_spell_the_number(n: nat, width: nat)
    ensures
        be_bytes(n, width).len() == width,
        n < be_limit(width) ==> be_value(be_bytes(n, width)) == n,
    decreases width,
{
    if width > 0 {
        be_bytes_spell_the_number(n / 256, (width - 1) as nat);
        assert(be_bytes(n, width).drop_last() =~= be_bytes(n / 256, (width - 1) as nat));
    }
}

/// The limits of four and of eight bytes.
pub proof fn be_limits()
    ensures
        be_limit(4) == 0x1_0000_0000,
        be_limit(8) == 0x1_0000_0000_0000_0000,
{
    reveal_with_fuel(be_limit, 9);
}

/// Appends the `width` bytes that spell `n`.
fn write_be(out: &mut Vec<u8>, n: u64, width: usize)
    ensures
        final(out)@ == old(out)@ + be_bytes(n as nat, width as nat),
    decreases width,
{
    if width > 0 {
        write_be(out, n / 256, width - 1);
        out.push((n % 256) as u8);
    }
}

/// Reads the number that the `width` bytes from `pos` on spell.
fn read_be(bytes: &[u8], pos: usize, width: usize) -> (n: u64)
    requires
        width <= 8,
        pos + width <= bytes.len(),
    ensures
        n == be_value(bytes@.subrange(pos as int, pos + width)),
{
    let mut n: u64 = 0;
    let mut i: usize = 0;
    while i < width
        invariant
            i <= width <= 8,
            pos + width <= bytes.len(),
            n == be_value(bytes@.subrange(pos as int, pos + i)),
        decreases width - i,
    {
        proof {
            be_value_is_below_limit(bytes@.subrange(pos as int, pos + i));
            reveal_with_fuel(be_limit, 9);
            assert(bytes@.subrange(pos as int, pos + i + 1).drop_last() =~= bytes@.subrange(
                pos as int,
                pos + i,
            ));
        }
        n = n * 256 + bytes[pos + i] as u64;
        i += 1;
    }
    n
}

/// The bytes of a field element: the fewest that keep the number non-negative.
pub open spec fn value_body(y: u8) -> Seq<u8> {
    if y < 128 {
        seq![y]
    } else {
        seq![0u8, y]
    }
}

/// A field element behind the length of its bytes.
pub open spec fn value_record(y: u8) -> Seq<u8> {
    be_bytes(value_body(y).len(), 4) + value_body(y)
}

/// The records of a list of field elements, one after the other.
pub open spec fn values_record(ys: Seq<u8>) -> Seq<u8>
    decreases ys.len(),
{
    if ys.len() == 0 {
        Seq::empty()
    } else {
        value_record(ys[0]) + values_record(ys.drop_first())
    }
}

/// The points of a share behind their number.
pub open spec fn points_record(ys: Seq<u8>) -> Seq<u8> {
    be_bytes(ys.len(), 8) + values_record(ys)
}

/// A share as a record: its coordinate, then its points.
pub open spec fn share_record(p: Points) -> Seq<u8> {
    value_record(p.x) + points_record(p.ys)
}

/// What the bytes of one value are read as.
pub type BodyRead = Result<u8, CodecError>;

/// What a record of one value is read as: the value, and the bytes it took.
pub type ValueRead = Result<(u8, nat), CodecError>;

/// What records of several values are read as: the values, and the bytes they took.
pub type ValuesRead = Result<(Seq<u8>, nat), CodecError>;

/// What a record of points is read as.
pub type PointsRead = Result<Seq<u8>, CodecError>;

/// What a record of a share is read as.
pub type ShareRead = Result<Points, CodecError>;

/// The field element that the bytes of a value spell.
pub open spec fn body_read(body: Seq<u8>) -> BodyRead {
    if body.len() > 0 && body[0] >= 128 {
        Err(CodecError::NegativeValue)
    } else if be_value(body) > 255 {
        Err(CodecError::ValueOutOfField)
    } else {
        Ok(be_value(body) as u8)
    }
}

/// The value whose record the bytes start with.
pub open spec fn value_read(bytes: Seq<u8>) -> ValueRead {
    if bytes.len() < 4 {
        Err(CodecError::Truncated)
    } else if bytes.len() - 4 < be_value(bytes.take(4)) {
        Err(CodecError::Truncated)
    } else {
        let end = 4 + be_value(bytes.take(4));
        match body_read(bytes.subrange(4, end as int)) {
            Err(e) => Err(e),
            Ok(y) => Ok((y, end)),
        }
    }
}

/// The `count` values whose records the bytes start with.
pub open spec fn values_read(bytes: Seq<u8>, count: nat) -> ValuesRead
    decreases count,
{
    if count == 0 {
        Ok((Seq::empty(), 0))
    } else {
        match value_read(bytes) {
            Err(e) => Err(e),
            Ok((y, used)) => behind(
                seq![y],
                used,
                values_read(bytes.skip(used as int), (count - 1) as nat),
            ),
        }
    }
}

/// Values that took `used` bytes, put before what was read behind them.
pub open spec fn behind(done: Seq<u8>, used: nat, rest: ValuesRead) -> ValuesRead {
    match rest {
        Err(e) => Err(e),
        Ok((ys, more)) => Ok((done + ys, used + more)),
    }
}

/// The points that the bytes are the record of. The record has to end with
/// its last point.
pub open spec fn points_read(bytes: Seq<u8>) -> PointsRead {
    if bytes.len() < 8 {
        Err(CodecError::Truncated)
    } else {
        match values_read(bytes.skip(8), be_value(bytes.take(8))) {
            Err(e) => Err(e),
            Ok((ys, used)) => if 8 + used == bytes.len() {
                Ok(ys)
            } else {
                Err(CodecError::TrailingBytes)
            },
        }
    }
}

/// The share that the bytes are the record of. A coordinate of 0 is refused
/// here, where the record is read.
pub open spec fn share_read(bytes: Seq<u8>) -> ShareRead {
    match value_read(bytes) {
        Err(e) => Err(e),
        Ok((x, used)) => if x == 0 {
            Err(CodecError::ZeroCoordinate)
        } else {
            match points_read(bytes.skip(used as int)) {
                Err(e) => Err(e),
                Ok(ys) => Ok(Points { x, ys }),
            }
        },
    }
}

/// A value's record, whatever follows it, is read as the value.
pub proof fn value_record_reads_back(y: u8, tail: Seq<u8>)
    ensures
        value_read(value_record(y) + tail) == ValueRead::Ok((y, value_record(y).len())),
{
    let body = value_body(y);
    let bytes = value_record(y) + tail;
    be_bytes_spell_the_number(body.len(), 4);
    be_limits();
    assert(bytes.take(4) =~= be_bytes(body.len(), 4));
    reveal_with_fuel(be_value, 3);
}

/// The records of a list of values, whatever follows them, are read as the list.
pub proof fn values_record_reads_back(ys: Seq<u8>, tail: Seq<u8>)
    ensures
        values_read(values_record(ys) + tail, ys.len()) == ValuesRead::Ok(
            (ys, values_record(ys).len()),
        ),
    decreases ys.len(),
{
    if ys.len() > 0 {
        let first = value_record(ys[0]);
        let rest = ys.drop_first();
        let bytes = values_record(ys) + tail;
        assert(bytes =~= first + (values_record(rest) + tail));
        value_record_reads_back(ys[0], values_record(rest) + tail);
        assert(bytes.skip(first.len() as int) =~= values_record(rest) + tail);
        values_record_reads_back(rest, tail);
        assert(seq![ys[0]] + rest =~= ys);
    } else {
        assert(ys =~= Seq::<u8>::empty());
    }
}

/// A record of points is read as the points it was written from.
pub proof fn points_record_reads_back(ys: Seq<u8>)
    requires
        ys.len() <= u64::MAX,
    ensures
        points_read(points_record(ys)) == PointsRead::Ok(ys),
{
    let bytes = points_record(ys);
    be_bytes_spell_the_number(ys.len(), 8);
    be_limits();
    assert(bytes.take(8) =~= be_bytes(ys.len(), 8));
    assert(bytes.skip(8) =~= values_record(ys) + Seq::<u8>::empty());
    values_record_reads_back(ys, Seq::empty());
}

/// A record of a share is read as the share it was written from, for every
/// share with a nonzero coordinate.
pub proof fn share_record_reads_back(p: Points)
    requires
        p.x != 0,
        p.ys.len() <= u64::MAX,
    ensures
        share_read(share_record(p)) == ShareRead::Ok(p),
{
    value_record_reads_back(p.x, points_record(p.ys));
    assert(share_record(p).skip(value_record(p.x).len() as int) =~= points_record(p.ys));
    points_record_reads_back(p.ys);
}

/// The records of a list with one more value end in that value's record.
proof fn values_record_of_push(ys: Seq<u8>, y: u8)
    ensures
        values_record(ys.push(y)) == values_record(ys) + value_record(y),
    decreases ys.len(),
{
    let all = ys.push(y);
    if ys.len() == 0 {
        assert(values_record(all.drop_first()) =~= Seq::<u8>::empty());
    } else {
        assert(all.drop_first() =~= ys.drop_first().push(y));
        values_record_of_push(ys.drop_first(), y);
    }
}

/// Bytes that spell 0 up to some place, and a nonzero byte there, spell 256
/// or more with any byte behind it.
proof fn be_value_above_field(bytes: Seq<u8>, k: int)
    requires
        0 <= k < bytes.len() - 1,
        be_value(bytes.take(k)) == 0,
        bytes[k] != 0,
    ensures
        be_value(bytes) > 255,
    decreases bytes.len(),
{
    let head = bytes.drop_last();
    assert(head.take(k) =~= bytes.take(k));
    if k < head.len() - 1 {
        be_value_above_field(head, k);
    }
    assert(be_value(bytes) == be_value(head) * 256 + bytes.last() as nat);
}

/// Appends the record of one value.
fn write_value(out: &mut Vec<u8>, y: u8)
    ensures
        final(out)@ == old(out)@ + value_record(y),
{
    if y < 128 {
        write_be(out, 1, 4);
        out.push(y);
    } else {
        write_be(out, 2, 4);
        out.push(0);
        out.push(y);
    }
}

/// Appends the record of a list of points.
fn write_points(out: &mut Vec<u8>, ys: &[u8])
    ensures
        final(out)@ == old(out)@ + points_record(ys@),
{
    write_be(out, ys.len() as u64, 8);
    let ghost head = out@;
    let mut i: usize = 0;
    while i < ys.len()
        invariant
            i <= ys.len(),
            out@ == head + values_record(ys@.take(i as int)),
        decreases ys.len() - i,
    {
        write_value(out, ys[i]);
        proof {
            values_record_of_push(ys@.take(i as int), ys@[i as int]);
            assert(ys@.take(i + 1) =~= ys@.take(i as int).push(ys@[i as int]));
        }
        i += 1;
    }
    assert(ys@.take(i as int) =~= ys@);
}

/// Writes a list of points as a record.
pub fn encode_points(ys: &[u8]) -> (out: Vec<u8>)
    ensures
        out@ == points_record(ys@),
{
    let mut out: Vec<u8> = Vec::new();
    write_points(&mut out, ys);
    out
}

/// Writes a share as a record.
pub fn encode_share(share: &Share) -> (out: Vec<u8>)
    ensures
        out@ == share_record(share@),
{
    let mut out: Vec<u8> = Vec::new();
    write_value(&mut out, share.x);
    write_points(&mut out, share.ys.as_slice());
    out
}

/// Reads the record of one value that starts at `pos`, and tells where it ends.
#[verifier::loop_isolation(false)]
fn read_value(bytes: &[u8], pos: usize) -> (r: Result<(u8, usize), CodecError>)
    requires
        pos <= bytes.len(),
    ensures
        match r {
            Ok((y, next)) => pos <= next <= bytes.len() && value_read(bytes@.skip(pos as int))
                == ValueRead::Ok((y, (next - pos) as nat)),
            Err(e) => value_read(bytes@.skip(pos as int)) == ValueRead::Err(e),
        },
{
    let ghost rest = bytes@.skip(pos as int);
    let len: usize = bytes.len();
    if len - pos < 4 {
        return Err(CodecError::Truncated);
    }
    let n: u64 = read_be(bytes, pos, 4);
    proof {
        assert(rest.take(4) =~= bytes@.subrange(pos as int, pos + 4));
        be_value_is_below_limit(rest.take(4));
        be_limits();
    }
    if ((len - pos - 4) as u64) < n {
        return Err(CodecError::Truncated);
    }
    let start: usize = pos + 4;
    let end: usize = start + n as usize;
    let ghost body = rest.subrange(4, 4 + n as int);
    if n == 0 {
        return Ok((0, end));
    }
    if bytes[start] >= 128 {
        return Err(CodecError::NegativeValue);
    }
    let mut i: usize = start;
    while i < end - 1
        invariant
            start <= i < end <= bytes.len(),
            body == bytes@.subrange(start as int, end as int),
            be_value(body.take(i - start)) == 0,
        decreases end - i,
    {
        if bytes[i] != 0 {
            proof {
                be_value_above_field(body, i - start);
            }
            return Err(CodecError::ValueOutOfField);
        }
        assert(body.take(i + 1 - start).drop_last() =~= body.take(i - start));
        i += 1;
    }
    Ok((bytes[end - 1], end))
}

/// Reads the record of a list of points that starts at `pos` and ends with the bytes.
#[verifier::loop_isolation(false)]
fn read_points(bytes: &[u8], pos: usize) -> (r: Result<Vec<u8>, CodecError>)
    requires
        pos <= bytes.len(),
    ensures
        match r {
            Ok(ys) => points_read(bytes@.skip(pos as int)) == PointsRead::Ok(ys@),
            Err(e) => points_read(bytes@.skip(pos as int)) == PointsRead::Err(e),
        },
{
    let ghost rest = bytes@.skip(pos as int);
    let len: usize = bytes.len();
    if len - pos < 8 {
        return Err(CodecError::Truncated);
    }
    let count: u64 = read_be(bytes, pos, 8);
    let first: usize = pos + 8;
    let ghost all = values_read(rest.skip(8), count as nat);
    proof {
        assert(rest.take(8) =~= bytes@.subrange(pos as int, pos + 8));
        assert(rest.skip(8) =~= bytes@.skip(first as int));
    }
    let mut ys: Vec<u8> = Vec::new();
    let mut at: usize = first;
    let mut i: u64 = 0;
    assert(all == behind(ys@, 0, values_read(bytes@.skip(at as int), count as nat))) by {
        let inner = values_read(bytes@.skip(at as int), count as nat);
        if let Ok((vs, more)) = inner {
            assert(ys@ + vs =~= vs);
        }
    }
    while i < count
        invariant
            i <= count,
            first <= at <= bytes.len(),
            ys.len() == i,
            all == behind(
                ys@,
                (at - first) as nat,
                values_read(bytes@.skip(at as int), (count - i) as nat),
            ),
        decreases count - i,
    {
        let ghost done = ys@;
        match read_value(bytes, at) {
            Err(e) => {
                return Err(e);
            },
            Ok((y, next)) => {
                proof {
                    let used = (next - at) as nat;
                    let inner = values_read(
                        bytes@.skip(at as int).skip(used as int),
                        (count - i - 1) as nat,
                    );
                    assert(bytes@.skip(at as int).skip(used as int) =~= bytes@.skip(next as int));
                    assert(values_read(bytes@.skip(at as int), (count - i) as nat) == behind(
                        seq![y],
                        used,
                        inner,
                    ));
                    if let Ok((vs, more)) = inner {
                        assert(done + (seq![y] + vs) =~= done.push(y) + vs);
                    }
                }
                ys.push(y);
                at = next;
            },
        }
        i += 1;
    }
    if at != len {
        return Err(CodecError::TrailingBytes);
    }
    assert(ys@ + Seq::<u8>::empty() =~= ys@);
    Ok(ys)
}

/// Reads a record of points.
pub fn decode_points(bytes: &[u8]) -> (r: Result<Vec<u8>, CodecError>)
    ensures
        match r {
            Ok(ys) => points_read(bytes@) == PointsRead::Ok(ys@),
            Err(e) => points_read(bytes@) == PointsRead::Err(e),
        },
{
    assert(bytes@.skip(0) =~= bytes@);
    read_points(bytes, 0)
}

/// Reads a record of a share.
pub fn decode_share(bytes: &[u8]) -> (r: Result<Share, CodecError>)
    ensures
        match r {
            Ok(share) => share_read(bytes@) == ShareRead::Ok(share@),
            Err(e) => share_read(bytes@) == ShareRead::Err(e),
        },
{
    assert(bytes@.skip(0) =~= bytes@);
    match read_value(bytes, 0) {
        Err(e) => Err(e),
        Ok((x, next)) => {
            if x == 0 {
                return Err(CodecError::ZeroCoordinate);
            }
            match read_points(bytes, next) {
                Err(e) => Err(e),
                Ok(ys) => Ok(Share { x, ys }),
            }
        },
    }
}

} // verus!
