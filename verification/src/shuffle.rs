//! Password-keyed obfuscation of shares.
//!
//! The points of a share are permuted among themselves by a sequence of swaps
//! that the password and the share's coordinate determine. Whoever knows the
//! password undoes the swaps in reverse order. This hides which point belongs
//! to which byte of the secret; it is no encryption, and adds nothing to the
//! secrecy that the sharing itself gives.

use crate::share::{points_of, Points, Share};
use vstd::prelude::*;

verus! {

/// Start value of the password hash.
pub const HASH_START: u64 = 14695981039346656037;

/// Multiplier of the password hash.
pub const HASH_FACTOR: u64 = 1099511628211;

/// Multiplier of the generator that draws the swaps.
pub const STEP_FACTOR: u64 = 6364136223846793005;

/// Increment of the generator that draws the swaps.
pub const STEP_INCREMENT: u64 = 1442695040888963407;

/// The hash after one more byte.
pub open spec fn absorbed(hash: u64, byte: u8) -> u64 {
    (((hash + byte) * HASH_FACTOR) % 0x1_0000_0000_0000_0000) as u64
}

/// The hash of a byte string.
pub open spec fn hashed(bytes: Seq<u8>) -> u64
    decreases bytes.len(),
{
    if bytes.len() == 0 {
        HASH_START
    } else {
        absorbed(hashed(bytes.drop_last()), bytes.last())
    }
}

/// The generator's start state for a password and a share's coordinate.
pub open spec fn seed(password: Seq<u8>, x: u8) -> u64 {
    absorbed(hashed(password), x)
}

/// The generator's next state.
pub open spec fn stepped(state: u64) -> u64 {
    ((state * STEP_FACTOR + STEP_INCREMENT) % 0x1_0000_0000_0000_0000) as u64
}

/// The generator's state after `t` steps.
pub open spec fn state_after(start: u64, t: nat) -> u64
    decreases t,
{
    if t == 0 {
        start
    } else {
        stepped(state_after(start, (t - 1) as nat))
    }
}

/// The position below `bound` that a state picks.
pub open spec fn drawn(state: u64, bound: int) -> int {
    ((state as int) / 0x1_0000_0000) % bound
}

/// The swap made at step `t` on a sequence of `len` items: the item at
/// `len - 1 - t` changes places with one at or below it.
pub open spec fn swap_at(start: u64, len: int, t: int) -> (int, int) {
    (len - 1 - t, drawn(state_after(start, (t + 1) as nat), len - t))
}

/// The swaps made on a sequence of `len` items, in the order in which
/// shuffling makes them.
pub open spec fn plan(start: u64, len: nat) -> Seq<(int, int)> {
    Seq::new(
        if len == 0 {
            0
        } else {
            (len - 1) as nat
        },
        |t: int| swap_at(start, len as int, t),
    )
}

/// The sequence with the items at `i` and `j` exchanged.
pub open spec fn exchanged(s: Seq<u8>, i: int, j: int) -> Seq<u8> {
    s.update(i, s[j]).update(j, s[i])
}

/// The sequence after a list of swaps, made from first to last.
pub open spec fn applied(s: Seq<u8>, swaps: Seq<(int, int)>) -> Seq<u8>
    decreases swaps.len(),
{
    if swaps.len() == 0 {
        s
    } else {
        exchanged(applied(s, swaps.drop_last()), swaps.last().0, swaps.last().1)
    }
}

/// Every swap of the list stays inside a sequence of `len` items.
pub open spec fn within(swaps: Seq<(int, int)>, len: int) -> bool {
    forall|t: int|
        0 <= t < swaps.len() ==> 0 <= (#[trigger] swaps[t]).0 < len && 0 <= swaps[t].1 < len
}

/// The points of a share with coordinate `x`, shuffled under a password.
pub open spec fn shuffled(ys: Seq<u8>, password: Seq<u8>, x: u8) -> Seq<u8> {
    applied(ys, plan(seed(password, x), ys.len()))
}

/// The points of a share with coordinate `x`, with the shuffle under a
/// password undone.
pub open spec fn unshuffled(ys: Seq<u8>, password: Seq<u8>, x: u8) -> Seq<u8> {
    applied(ys, plan(seed(password, x), ys.len()).reverse())
}

/// A share shuffled under a password: its coordinate stays, its points move.
pub open spec fn shuffled_share(p: Points, password: Seq<u8>) -> Points {
    Points { x: p.x, ys: shuffled(p.ys, password, p.x) }
}

/// A share with the shuffle under a password undone.
pub open spec fn unshuffled_share(p: Points, password: Seq<u8>) -> Points {
    Points { x: p.x, ys: unshuffled(p.ys, password, p.x) }
}

/// A set of shares, each shuffled under the password.
pub open spec fn shuffled_set(ps: Seq<Points>, password: Seq<u8>) -> Seq<Points> {
    Seq::new(ps.len(), |i: int| shuffled_share(ps[i], password))
}

/// A set of shares, each with the shuffle under the password undone.
pub open spec fn unshuffled_set(ps: Seq<Points>, password: Seq<u8>) -> Seq<Points> {
    Seq::new(ps.len(), |i: int| unshuffled_share(ps[i], password))
}

/// The set after the shuffle under the password, if there is one, is undone.
pub open spec fn revealed(ps: Seq<Points>, password: Option<Seq<u8>>) -> Seq<Points> {
    match password {
        Some(pw) => unshuffled_set(ps, pw),
        None => ps,
    }
}

/// The swaps planned for `len` items stay inside them.
pub proof fn plan_stays_within(start: u64, len: nat)
    ensures
        within(plan(start, len), len as int),
        within(plan(start, len).reverse(), len as int),
        plan(start, len).reverse().len() == plan(start, len).len(),
{
    let p = plan(start, len);
    assert forall|t: int| 0 <= t < p.len() implies 0 <= (#[trigger] p[t]).0 < len && 0 <= p[t].1
        < len by {
        let s = state_after(start, (t + 1) as nat);
        let bound = len as int - t;
        assert(0 <= ((s as int) / 0x1_0000_0000) % bound < bound);
    }
}

/// Swaps keep the length.
pub proof fn applied_keeps_length(s: Seq<u8>, swaps: Seq<(int, int)>)
    requires
        within(swaps, s.len() as int),
    ensures
        applied(s, swaps).len() == s.len(),
    decreases swaps.len(),
{
    if swaps.len() > 0 {
        applied_keeps_length(s, swaps.drop_last());
    }
}

/// Swaps move the items and change none: the same items are there, each as
/// often as before.
pub proof fn applied_keeps_items(s: Seq<u8>, swaps: Seq<(int, int)>)
    requires
        within(swaps, s.len() as int),
    ensures
        applied(s, swaps).to_multiset() == s.to_multiset(),
    decreases swaps.len(),
{
    if swaps.len() > 0 {
        let before = applied(s, swaps.drop_last());
        let (i, j) = swaps.last();
        applied_keeps_items(s, swaps.drop_last());
        applied_keeps_length(s, swaps.drop_last());
        let half = before.update(i, before[j]);
        vstd::seq_lib::to_multiset_update(before, i, before[j]);
        vstd::seq_lib::to_multiset_update(half, j, before[i]);
        before.to_multiset_ensures();
        if i != j {
            assert(half[j] == before[j]);
        }
    }
}

/// Making the swaps of `a` and then those of `b` is making those of `a + b`.
pub proof fn applied_in_two_parts(s: Seq<u8>, a: Seq<(int, int)>, b: Seq<(int, int)>)
    ensures
        applied(s, a + b) == applied(applied(s, a), b),
    decreases b.len(),
{
    if b.len() > 0 {
        assert((a + b).drop_last() =~= a + b.drop_last());
        applied_in_two_parts(s, a, b.drop_last());
    }
}

/// Making a list of swaps and then the same list backwards changes nothing.
pub proof fn swaps_undone(s: Seq<u8>, swaps: Seq<(int, int)>)
    requires
        within(swaps, s.len() as int),
    ensures
        applied(applied(s, swaps), swaps.reverse()) == s,
    decreases swaps.len(),
{
    if swaps.len() > 0 {
        let head = swaps.drop_last();
        let (i, j) = swaps.last();
        let before = applied(s, head);
        let after = applied(s, swaps);
        let one = seq![swaps.last()];
        applied_keeps_length(s, head);
        assert(swaps.reverse() =~= one + head.reverse());
        applied_in_two_parts(after, one, head.reverse());
        assert(applied(after, one.drop_last()) == after);
        assert(exchanged(after, i, j) =~= before);
        swaps_undone(s, head);
    }
}

/// Undoing a shuffle under the password it was made with gives back the points.
pub proof fn unshuffle_inverts_shuffle(ys: Seq<u8>, password: Seq<u8>, x: u8)
    ensures
        shuffled(ys, password, x).len() == ys.len(),
        unshuffled(shuffled(ys, password, x), password, x) == ys,
{
    let p = plan(seed(password, x), ys.len());
    plan_stays_within(seed(password, x), ys.len());
    applied_keeps_length(ys, p);
    swaps_undone(ys, p);
}

/// A shuffle is a permutation: the shuffled points are the same points, each
/// as often as before.
pub proof fn shuffle_keeps_the_points(ys: Seq<u8>, password: Seq<u8>, x: u8)
    ensures
        shuffled(ys, password, x).to_multiset() == ys.to_multiset(),
        unshuffled(ys, password, x).to_multiset() == ys.to_multiset(),
{
    let p = plan(seed(password, x), ys.len());
    plan_stays_within(seed(password, x), ys.len());
    applied_keeps_items(ys, p);
    applied_keeps_items(ys, p.reverse());
}

/// Shuffling again what was unshuffled under the same password gives back the points.
pub proof fn shuffle_inverts_unshuffle(ys: Seq<u8>, password: Seq<u8>, x: u8)
    ensures
        unshuffled(ys, password, x).len() == ys.len(),
        shuffled(unshuffled(ys, password, x), password, x) == ys,
{
    let p = plan(seed(password, x), ys.len());
    plan_stays_within(seed(password, x), ys.len());
    applied_keeps_length(ys, p.reverse());
    swaps_undone(ys, p.reverse());
    assert(p.reverse().reverse() =~= p);
}

/// Undoing a shuffle under another password gives back the points exactly
/// when the two passwords shuffle these points alike.
pub proof fn wrong_password_law(ys: Seq<u8>, made_with: Seq<u8>, undone_with: Seq<u8>, x: u8)
    ensures
        unshuffled(shuffled(ys, made_with, x), undone_with, x) == ys <==> shuffled(
            ys,
            made_with,
            x,
        ) == shuffled(ys, undone_with, x),
{
    unshuffle_inverts_shuffle(ys, made_with, x);
    unshuffle_inverts_shuffle(ys, undone_with, x);
    shuffle_inverts_unshuffle(shuffled(ys, made_with, x), undone_with, x);
}

/// Undoing a shuffle under a password that shuffles these points otherwise
/// than the one it was made with does not give back the points.
pub proof fn another_password_gives_other_points(
    ys: Seq<u8>,
    made_with: Seq<u8>,
    undone_with: Seq<u8>,
    x: u8,
)
    requires
        shuffled(ys, made_with, x) != shuffled(ys, undone_with, x),
    ensures
        unshuffled(shuffled(ys, made_with, x), undone_with, x) != ys,
{
    wrong_password_law(ys, made_with, undone_with, x);
}

/// For a set of shares: undoing the shuffle under the same password gives
/// back every share.
pub proof fn unshuffle_inverts_shuffle_of_set(ps: Seq<Points>, password: Seq<u8>)
    ensures
        unshuffled_set(shuffled_set(ps, password), password) == ps,
{
    assert forall|i: int| 0 <= i < ps.len() implies unshuffled_share(
        #[trigger] shuffled_set(ps, password)[i],
        password,
    ) == ps[i] by {
        unshuffle_inverts_shuffle(ps[i].ys, password, ps[i].x);
    }
}

/// One more byte into the hash.
fn absorb(hash: u64, byte: u8) -> (r: u64)
    ensures
        r == absorbed(hash, byte),
{
    let sum: u128 = hash as u128 + byte as u128;
    assert(sum * 1099511628211 <= u128::MAX) by (nonlinear_arith)
        requires
            sum <= 0x1_0000_0000_0000_00ff,
    ;
    let wide: u128 = sum * (HASH_FACTOR as u128);
    (wide % 0x1_0000_0000_0000_0000u128) as u64
}

/// The generator's start state for a password and a coordinate.
fn seed_for(password: &[u8], x: u8) -> (r: u64)
    ensures
        r == seed(password@, x),
{
    let mut hash: u64 = HASH_START;
    let mut i: usize = 0;
    while i < password.len()
        invariant
            i <= password.len(),
            hash == hashed(password@.take(i as int)),
        decreases password.len() - i,
    {
        hash = absorb(hash, password[i]);
        i += 1;
        assert(password@.take(i as int).drop_last() =~= password@.take(i - 1));
    }
    assert(password@.take(i as int) =~= password@);
    absorb(hash, x)
}

/// One step of the generator.
fn step(state: u64) -> (r: u64)
    ensures
        r == stepped(state),
{
    let wide_state: u128 = state as u128;
    assert(wide_state * 6364136223846793005 + 1442695040888963407 <= u128::MAX)
        by (nonlinear_arith)
        requires
            wide_state <= 0xffff_ffff_ffff_ffff,
    ;
    let wide: u128 = wide_state * (STEP_FACTOR as u128) + (STEP_INCREMENT as u128);
    (wide % 0x1_0000_0000_0000_0000u128) as u64
}

/// The position below `bound` that a state picks.
fn draw(state: u64, bound: usize) -> (j: usize)
    requires
        bound > 0,
    ensures
        j == drawn(state, bound as int),
        j < bound,
{
    ((state / 0x1_0000_0000) % (bound as u64)) as usize
}

/// Exchanges the items at `i` and `j`.
fn exchange(ys: &mut Vec<u8>, i: usize, j: usize)
    requires
        i < old(ys).len(),
        j < old(ys).len(),
    ensures
        final(ys)@ == exchanged(old(ys)@, i as int, j as int),
{
    let a: u8 = ys[i];
    let b: u8 = ys[j];
    ys[i] = b;
    ys[j] = a;
}

/// Shuffles the points of a share with coordinate `x` under a password.
pub fn shuffle_points(ys: &mut Vec<u8>, password: &[u8], x: u8)
    ensures
        final(ys)@ == shuffled(old(ys)@, password@, x),
{
    let len: usize = ys.len();
    let start: u64 = seed_for(password, x);
    let ghost swaps = plan(start, len as nat);
    let steps: usize = if len == 0 {
        0
    } else {
        len - 1
    };
    let mut state: u64 = start;
    let mut t: usize = 0;
    proof {
        plan_stays_within(start, len as nat);
    }
    while t < steps
        invariant
            t <= steps == swaps.len(),
            steps < len || len == 0,
            ys.len() == len,
            swaps == plan(start, len as nat),
            within(swaps, len as int),
            state == state_after(start, t as nat),
            ys@ == applied(old(ys)@, swaps.take(t as int)),
        decreases steps - t,
    {
        state = step(state);
        let i: usize = len - 1 - t;
        let j: usize = draw(state, len - t);
        exchange(ys, i, j);
        proof {
            assert(swaps.take(t + 1).drop_last() =~= swaps.take(t as int));
        }
        t += 1;
    }
    assert(swaps.take(t as int) =~= swaps);
}

/// The positions drawn for a sequence of `len` items, by step.
fn draws(start: u64, len: usize) -> (js: Vec<usize>)
    ensures
        js.len() == plan(start, len as nat).len(),
        forall|t: int| 0 <= t < js.len() ==> (#[trigger] js[t]) as int == plan(start, len as nat)[t].1,
{
    let steps: usize = if len == 0 {
        0
    } else {
        len - 1
    };
    let mut js: Vec<usize> = Vec::new();
    let mut state: u64 = start;
    let mut t: usize = 0;
    while t < steps
        invariant
            t <= steps == plan(start, len as nat).len(),
            steps < len || len == 0,
            js.len() == t,
            state == state_after(start, t as nat),
            forall|k: int|
                0 <= k < t ==> (#[trigger] js[k]) as int == plan(start, len as nat)[k].1,
        decreases steps - t,
    {
        state = step(state);
        let j: usize = draw(state, len - t);
        js.push(j);
        t += 1;
    }
    js
}

/// Undoes the shuffle of the points of a share with coordinate `x` under a password.
pub fn unshuffle_points(ys: &mut Vec<u8>, password: &[u8], x: u8)
    ensures
        final(ys)@ == unshuffled(old(ys)@, password@, x),
{
    let len: usize = ys.len();
    let start: u64 = seed_for(password, x);
    let js = draws(start, len);
    let ghost swaps = plan(start, len as nat);
    let ghost back = swaps.reverse();
    let mut left: usize = js.len();
    proof {
        plan_stays_within(start, len as nat);
    }
    while left > 0
        invariant
            left <= js.len() == swaps.len() == back.len(),
            ys.len() == len,
            swaps == plan(start, len as nat),
            back == swaps.reverse(),
            within(swaps, len as int),
            forall|t: int| 0 <= t < js.len() ==> (#[trigger] js[t]) as int == swaps[t].1,
            ys@ == applied(old(ys)@, back.take(js.len() - left)),
        decreases left,
    {
        left -= 1;
        let i: usize = len - 1 - left;
        let j: usize = js[left];
        exchange(ys, i, j);
        proof {
            let done = js.len() - left;
            assert(back.take(done).drop_last() =~= back.take(done - 1));
        }
    }
    assert(back.take(js.len() as int) =~= back);
}

/// Shuffles a share's points under a password. The coordinate stays as it is.
pub fn shuffle(share: &mut Share, password: &[u8])
    ensures
        final(share)@ == shuffled_share(old(share)@, password@),
{
    let x: u8 = share.x;
    shuffle_points(&mut share.ys, password, x);
}

/// Undoes the shuffle of a share's points under a password.
pub fn unshuffle(share: &mut Share, password: &[u8])
    ensures
        final(share)@ == unshuffled_share(old(share)@, password@),
{
    let x: u8 = share.x;
    unshuffle_points(&mut share.ys, password, x);
}

/// Shuffles every share of a set under a password.
pub fn shuffle_set(shares: &mut Vec<Share>, password: &[u8])
    ensures
        points_of(final(shares)@) == shuffled_set(points_of(old(shares)@), password@),
{
    let n: usize = shares.len();
    let mut i: usize = 0;
    while i < n
        invariant
            i <= n == shares.len() == old(shares).len(),
            forall|k: int|
                0 <= k < i ==> (#[trigger] shares[k])@ == shuffled_share(old(shares)[k]@, password@),
            forall|k: int| i <= k < n ==> (#[trigger] shares[k]) == old(shares)[k],
        decreases n - i,
    {
        shuffle(&mut shares[i], password);
        i += 1;
    }
}

/// Undoes the shuffle of every share of a set under a password.
pub fn unshuffle_set(shares: &mut Vec<Share>, password: &[u8])
    ensures
        points_of(final(shares)@) == unshuffled_set(points_of(old(shares)@), password@),
{
    let n: usize = shares.len();
    let mut i: usize = 0;
    while i < n
        invariant
            i <= n == shares.len() == old(shares).len(),
            forall|k: int|
                0 <= k < i ==> (#[trigger] shares[k])@ == unshuffled_share(
                    old(shares)[k]@,
                    password@,
                ),
            forall|k: int| i <= k < n ==> (#[trigger] shares[k]) == old(shares)[k],
        decreases n - i,
    {
        unshuffle(&mut shares[i], password);
        i += 1;
    }
}

} // verus!
