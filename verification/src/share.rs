//! Shares: one custodian's portion of a split secret, and the rules a set of
//! shares has to meet before anything is interpolated from it.

use crate::config::DIGEST_LEN;
use vstd::prelude::*;

verus! {

/// One share: its x-coordinate and one y-value per byte of the secret and,
/// with verification on, of the digest behind it.
#[derive(Debug, Clone, PartialEq, Eq)]
pub struct Share {
    pub x: u8,
    pub ys: Vec<u8>,
}

/// The mathematical content of a share.
pub struct Points {
    pub x: u8,
    pub ys: Seq<u8>,
}

impl View for Share {
    type V = Points;

    open spec fn view(&self) -> Points {
        Points { x: self.x, ys: self.ys@ }
    }
}

impl Points {
    /// The share as a byte stream: the coordinate, then the y-values.
    pub open spec fn image(self) -> Seq<u8> {
        seq![self.x] + self.ys
    }
}

/// The contents of a list of shares.
pub open spec fn points_of(shares: Seq<Share>) -> Seq<Points> {
    Seq::new(shares.len(), |i: int| shares[i]@)
}

/// The byte streams of a list of shares.
pub open spec fn images(ps: Seq<Points>) -> Seq<Seq<u8>> {
    Seq::new(ps.len(), |i: int| ps[i].image())
}

/// A choice of shares by their positions in a set of `total`: at least
/// `needed` positions, each used once, in any order.
pub open spec fn selection(sel: Seq<int>, needed: int, total: int) -> bool {
    &&& needed <= sel.len()
    &&& forall|i: int| 0 <= i < sel.len() ==> 0 <= #[trigger] sel[i] < total
    &&& forall|i: int, j: int| 0 <= i < j < sel.len() ==> #[trigger] sel[i] != #[trigger] sel[j]
}

/// The chosen items, in the order in which they were chosen.
pub open spec fn picked<T>(all: Seq<T>, sel: Seq<int>) -> Seq<T> {
    Seq::new(sel.len(), |i: int| all[sel[i]])
}

/// Why a byte stream holds no share.
#[derive(Debug, Clone, Copy, PartialEq, Eq)]
pub enum StreamFault {
    /// The stream has no byte, so not even a coordinate.
    Empty,
    /// The coordinate is 0, where the polynomial takes the secret's own value.
    ZeroCoordinate,
}

/// What reading a byte stream ends in.
pub type Parsed = Result<Points, StreamFault>;

/// What a byte stream parses to.
pub open spec fn parsed(bytes: Seq<u8>) -> Parsed {
    if bytes.len() == 0 {
        Err(StreamFault::Empty)
    } else if bytes[0] == 0 {
        Err(StreamFault::ZeroCoordinate)
    } else {
        Ok(Points { x: bytes[0], ys: bytes.subrange(1, bytes.len() as int) })
    }
}

impl Share {
    /// Writes the share out as a byte stream.
    pub fn to_stream(&self) -> (out: Vec<u8>)
        ensures
            out@ == self@.image(),
    {
        let mut out: Vec<u8> = Vec::new();
        out.push(self.x);
        let mut i: usize = 0;
        while i < self.ys.len()
            invariant
                i <= self.ys.len(),
                out@ == seq![self.x] + self.ys@.subrange(0, i as int),
            decreases self.ys.len() - i,
        {
            out.push(self.ys[i]);
            i += 1;
        }
        out
    }

    /// Reads a share from a byte stream, refusing one without a usable coordinate.
    pub fn from_stream(bytes: &[u8]) -> (r: Result<Share, StreamFault>)
        ensures
            match r {
                Ok(share) => parsed(bytes@) == Parsed::Ok(share@),
                Err(fault) => parsed(bytes@) == Parsed::Err(fault),
            },
    {
        if bytes.len() == 0 {
            return Err(StreamFault::Empty);
        }
        if bytes[0] == 0 {
            return Err(StreamFault::ZeroCoordinate);
        }
        let mut ys: Vec<u8> = Vec::new();
        let mut i: usize = 1;
        while i < bytes.len()
            invariant
                1 <= i <= bytes.len(),
                ys@ == bytes@.subrange(1, i as int),
            decreases bytes.len() - i,
        {
            ys.push(bytes[i]);
            i += 1;
        }
        Ok(Share { x: bytes[0], ys })
    }
}

/// Reading back what `to_stream` wrote gives the share again, for every share
/// with a nonzero coordinate.
pub proof fn image_parses_back(p: Points)
    requires
        p.x != 0,
    ensures
        parsed(p.image()) == Parsed::Ok(p),
{
    assert(p.image().subrange(1, p.image().len() as int) == p.ys);
}

/// What is wrong with a set of shares that was offered for reconstruction.
#[derive(Debug, Clone, Copy, PartialEq, Eq)]
pub enum ShareError {
    /// The set has fewer than two shares, and no split needs fewer.
    TooFewShares,
    /// The share at `index` is the first with coordinate 0.
    ZeroCoordinate { index: usize },
    /// The share at `index` is the first whose number of points differs from
    /// that of the share at 0.
    LengthMismatch { index: usize },
    /// The share at `index` is the first whose coordinate an earlier share has too.
    DuplicateCoordinate { index: usize },
    /// Verification is on, and the shares are too short to end in a digest.
    MissingDigest,
}

/// No share of the set has coordinate 0.
pub open spec fn coordinates_nonzero(ps: Seq<Points>) -> bool {
    forall|i: int| 0 <= i < ps.len() ==> (#[trigger] ps[i]).x != 0
}

/// All shares of the set have as many points as the first.
pub open spec fn lengths_agree(ps: Seq<Points>) -> bool {
    forall|i: int| 0 <= i < ps.len() ==> (#[trigger] ps[i]).ys.len() == ps[0].ys.len()
}

/// No two shares among the first `n` of the set have the same coordinate.
pub open spec fn coordinates_distinct_below(ps: Seq<Points>, n: int) -> bool {
    forall|i: int, j: int| 0 <= i < j < n ==> (#[trigger] ps[i]).x != (#[trigger] ps[j]).x
}

/// No two shares of the set have the same coordinate.
pub open spec fn coordinates_distinct(ps: Seq<Points>) -> bool {
    coordinates_distinct_below(ps, ps.len() as int)
}

/// With verification on, the shares are long enough to end in a digest.
pub open spec fn digest_present(ps: Seq<Points>, verify: bool) -> bool {
    verify && ps.len() > 0 ==> ps[0].ys.len() >= DIGEST_LEN
}

/// A set from which a secret can be interpolated: at least two shares, every
/// coordinate nonzero and used once, every share of one length, and room for
/// the digest.
pub open spec fn sound_set(ps: Seq<Points>, verify: bool) -> bool {
    &&& ps.len() >= 2
    &&& coordinates_nonzero(ps)
    &&& lengths_agree(ps)
    &&& coordinates_distinct(ps)
    &&& digest_present(ps, verify)
}

/// The one fault that is reported for an unsound set: the first rule broken,
/// in the order of the rules of `sound_set`, at the first share that breaks it.
pub open spec fn is_fault_of(e: ShareError, ps: Seq<Points>, verify: bool) -> bool {
    match e {
        ShareError::TooFewShares => ps.len() < 2,
        ShareError::ZeroCoordinate { index } => {
            &&& ps.len() >= 2
            &&& index < ps.len()
            &&& ps[index as int].x == 0
            &&& coordinates_nonzero(ps.take(index as int))
        },
        ShareError::LengthMismatch { index } => {
            &&& ps.len() >= 2
            &&& coordinates_nonzero(ps)
            &&& index < ps.len()
            &&& ps[index as int].ys.len() != ps[0].ys.len()
            &&& lengths_agree(ps.take(index as int))
        },
        ShareError::DuplicateCoordinate { index } => {
            &&& ps.len() >= 2
            &&& coordinates_nonzero(ps)
            &&& lengths_agree(ps)
            &&& index < ps.len()
            &&& exists|j: int| 0 <= j < index && (#[trigger] ps[j]).x == ps[index as int].x
            &&& coordinates_distinct_below(ps, index as int)
        },
        ShareError::MissingDigest => {
            &&& ps.len() >= 2
            &&& coordinates_nonzero(ps)
            &&& lengths_agree(ps)
            &&& coordinates_distinct(ps)
            &&& !digest_present(ps, verify)
        },
    }
}

/// What a check of the set ends in.
pub type SetVerdict = Result<(), ShareError>;

/// The verdict on a set of shares: sound, or its fault.
pub open spec fn set_verdict(ps: Seq<Points>, verify: bool) -> SetVerdict {
    if sound_set(ps, verify) {
        Ok(())
    } else {
        Err(choose|e: ShareError| is_fault_of(e, ps, verify))
    }
}

/// A set has at most one fault, and a sound set has none.
pub proof fn fault_is_unique(e1: ShareError, e2: ShareError, ps: Seq<Points>, verify: bool)
    requires
        is_fault_of(e1, ps, verify),
        is_fault_of(e2, ps, verify),
    ensures
        e1 == e2,
        !sound_set(ps, verify),
{
    match (e1, e2) {
        (ShareError::ZeroCoordinate { index: a }, ShareError::ZeroCoordinate { index: b }) => {
            if a < b {
                assert(ps.take(b as int)[a as int].x != 0);
            } else if b < a {
                assert(ps.take(a as int)[b as int].x != 0);
            }
        },
        (ShareError::LengthMismatch { index: a }, ShareError::LengthMismatch { index: b }) => {
            if a < b {
                assert(ps.take(b as int)[a as int].ys.len() == ps.take(b as int)[0].ys.len());
            } else if b < a {
                assert(ps.take(a as int)[b as int].ys.len() == ps.take(a as int)[0].ys.len());
            }
        },
        (
            ShareError::DuplicateCoordinate { index: a },
            ShareError::DuplicateCoordinate { index: b },
        ) => {},
        _ => {},
    }
}

/// The verdict on a set with a fault is that fault.
pub proof fn fault_is_verdict(e: ShareError, ps: Seq<Points>, verify: bool)
    requires
        is_fault_of(e, ps, verify),
    ensures
        set_verdict(ps, verify) == SetVerdict::Err(e),
{
    fault_is_unique(e, e, ps, verify);
    let chosen = choose|f: ShareError| is_fault_of(f, ps, verify);
    fault_is_unique(e, chosen, ps, verify);
}

/// The first share with coordinate 0, in a set that has one.
proof fn first_zero_coordinate(ps: Seq<Points>) -> (i: int)
    requires
        !coordinates_nonzero(ps),
    ensures
        0 <= i < ps.len(),
        ps[i].x == 0,
        coordinates_nonzero(ps.take(i)),
    decreases ps.len(),
{
    let head = ps.drop_last();
    if coordinates_nonzero(head) {
        assert(ps.take(ps.len() - 1) =~= head);
        let k = choose|k: int| 0 <= k < ps.len() && (#[trigger] ps[k]).x == 0;
        if k < ps.len() - 1 {
            assert(head[k].x != 0);
        }
        ps.len() - 1
    } else {
        let i = first_zero_coordinate(head);
        assert(ps.take(i) =~= head.take(i));
        i
    }
}

/// The first share whose length differs from that of the share at 0, in a
/// set that has one.
proof fn first_other_length(ps: Seq<Points>) -> (i: int)
    requires
        !lengths_agree(ps),
    ensures
        0 < i < ps.len(),
        ps[i].ys.len() != ps[0].ys.len(),
        lengths_agree(ps.take(i)),
    decreases ps.len(),
{
    let head = ps.drop_last();
    let k = choose|k: int| 0 <= k < ps.len() && (#[trigger] ps[k]).ys.len() != ps[0].ys.len();
    if lengths_agree(head) {
        assert(ps.take(ps.len() - 1) =~= head);
        if k < ps.len() - 1 {
            assert(head[k].ys.len() == head[0].ys.len());
        }
        ps.len() - 1
    } else {
        let i = first_other_length(head);
        assert(ps.take(i) =~= head.take(i));
        assert(head[0] == ps[0]);
        i
    }
}

/// The first share whose coordinate an earlier share has too, in a set that has one.
proof fn first_repeated_coordinate(ps: Seq<Points>) -> (i: int)
    requires
        !coordinates_distinct(ps),
    ensures
        0 < i < ps.len(),
        exists|j: int| 0 <= j < i && (#[trigger] ps[j]).x == ps[i].x,
        coordinates_distinct_below(ps, i),
    decreases ps.len(),
{
    let head = ps.drop_last();
    let (a, b) = choose|a: int, b: int|
        0 <= a < b < ps.len() && (#[trigger] ps[a]).x == (#[trigger] ps[b]).x;
    if coordinates_distinct(head) {
        if b < ps.len() - 1 {
            assert(head[a].x != head[b].x);
        }
        assert forall|k: int, l: int| 0 <= k < l < ps.len() - 1 implies (#[trigger] ps[k]).x != (
        #[trigger] ps[l]).x by {
            assert(head[k].x != head[l].x);
        }
        ps.len() - 1
    } else {
        let i = first_repeated_coordinate(head);
        let j = choose|j: int| 0 <= j < i && (#[trigger] head[j]).x == head[i].x;
        assert(ps[j].x == ps[i].x);
        assert forall|k: int, l: int| 0 <= k < l < i implies (#[trigger] ps[k]).x != (
        #[trigger] ps[l]).x by {
            assert(head[k].x != head[l].x);
        }
        i
    }
}

/// An unsound set has a fault, so its verdict is one that `is_fault_of`
/// describes. The set is no longer than a `Vec` can be.
pub proof fn verdict_is_fault(ps: Seq<Points>, verify: bool)
    requires
        !sound_set(ps, verify),
        ps.len() <= usize::MAX,
    ensures
        set_verdict(ps, verify) is Err,
        is_fault_of(set_verdict(ps, verify)->Err_0, ps, verify),
{
    if ps.len() < 2 {
        assert(is_fault_of(ShareError::TooFewShares, ps, verify));
    } else if !coordinates_nonzero(ps) {
        let i = first_zero_coordinate(ps);
        assert(is_fault_of(ShareError::ZeroCoordinate { index: i as usize }, ps, verify));
    } else if !lengths_agree(ps) {
        let i = first_other_length(ps);
        assert(is_fault_of(ShareError::LengthMismatch { index: i as usize }, ps, verify));
    } else if !coordinates_distinct(ps) {
        let i = first_repeated_coordinate(ps);
        assert(is_fault_of(ShareError::DuplicateCoordinate { index: i as usize }, ps, verify));
    } else {
        assert(is_fault_of(ShareError::MissingDigest, ps, verify));
    }
}

/// Tells whether the coordinate `x` occurs among the first `n` shares.
pub(crate) fn coordinate_used(shares: &Vec<Share>, n: usize, x: u8) -> (found: bool)
    requires
        n <= shares.len(),
    ensures
        found <==> exists|j: int| 0 <= j < n && (#[trigger] points_of(shares@)[j]).x == x,
{
    let mut j: usize = 0;
    while j < n
        invariant
            j <= n <= shares.len(),
            forall|k: int| 0 <= k < j ==> (#[trigger] points_of(shares@)[k]).x != x,
        decreases n - j,
    {
        if shares[j].x == x {
            assert(points_of(shares@)[j as int].x == x);
            return true;
        }
        j += 1;
    }
    false
}

/// Checks a set of shares before reconstruction, and names the first fault.
pub fn check_share_set(shares: &Vec<Share>, verify: bool) -> (r: Result<(), ShareError>)
    ensures
        r == set_verdict(points_of(shares@), verify),
        match r {
            Ok(()) => sound_set(points_of(shares@), verify),
            Err(e) => is_fault_of(e, points_of(shares@), verify),
        },
{
    let r = first_fault(shares, verify);
    proof {
        match r {
            Ok(unit) => {
                assert(unit == ());
            },
            Err(e) => {
                fault_is_verdict(e, points_of(shares@), verify);
            },
        }
    }
    r
}

/// The scan behind `check_share_set`: one pass per rule, in their order.
fn first_fault(shares: &Vec<Share>, verify: bool) -> (r: Result<(), ShareError>)
    ensures
        match r {
            Ok(()) => sound_set(points_of(shares@), verify),
            Err(e) => is_fault_of(e, points_of(shares@), verify),
        },
{
    let ghost ps = points_of(shares@);
    let n: usize = shares.len();
    if n < 2 {
        return Err(ShareError::TooFewShares);
    }
    let mut i: usize = 0;
    while i < n
        invariant
            2 <= n,
            i <= n == shares.len(),
            ps == points_of(shares@),
            forall|k: int| 0 <= k < i ==> (#[trigger] ps[k]).x != 0,
        decreases n - i,
    {
        if shares[i].x == 0 {
            return Err(ShareError::ZeroCoordinate { index: i });
        }
        i += 1;
    }
    let len: usize = shares[0].ys.len();
    i = 0;
    while i < n
        invariant
            2 <= n,
            i <= n == shares.len(),
            ps == points_of(shares@),
            len == ps[0].ys.len(),
            coordinates_nonzero(ps),
            forall|k: int| 0 <= k < i ==> (#[trigger] ps[k]).ys.len() == len,
        decreases n - i,
    {
        if shares[i].ys.len() != len {
            assert(lengths_agree(ps.take(i as int)));
            return Err(ShareError::LengthMismatch { index: i });
        }
        i += 1;
    }
    i = 0;
    while i < n
        invariant
            2 <= n,
            i <= n == shares.len(),
            ps == points_of(shares@),
            coordinates_nonzero(ps),
            lengths_agree(ps),
            coordinates_distinct_below(ps, i as int),
        decreases n - i,
    {
        if coordinate_used(shares, i, shares[i].x) {
            return Err(ShareError::DuplicateCoordinate { index: i });
        }
        i += 1;
    }
    if verify && len < DIGEST_LEN {
        return Err(ShareError::MissingDigest);
    }
    Ok(())
}

} // verus!
