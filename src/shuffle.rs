//! The oblivious shuffle of secret-shared vectors: permutation pairs drawn
//! from shared randomness, their application, and the per-round decisions of
//! the three-round shuffle and unshuffle. Resharing is left to the caller.
use crate::codec::{le_bytes, push_le};
use crate::helpers::{next_role, peer_spec, prev_role, Direction, Role};
use rand::seq::SliceRandom;
use rand::SeedableRng;
use rand_chacha::ChaCha8Rng;
use vstd::prelude::*;

verus! {

/// `p` is a bijection of `[0, n)`: every index appears exactly once.
pub open spec fn is_permutation(p: Seq<u32>, n: nat) -> bool {
    &&& p.len() == n
    &&& forall|i: int| 0 <= i < n ==> #[trigger] p[i] < n
    &&& forall|i: int, j: int| 0 <= i < n && 0 <= j < n && i != j ==> p[i] != p[j]
    &&& forall|k: int| 0 <= k < n ==> #[trigger] has_preimage(p, k)
}

/// Some position of `p` holds `k`.
pub open spec fn has_preimage(p: Seq<u32>, k: int) -> bool {
    exists|i: int| 0 <= i < p.len() && p[i] == k
}

/// `0, 1, ..., n - 1`.
pub open spec fn identity_seq(n: nat) -> Seq<u32> {
    Seq::new(n, |i: int| i as u32)
}

/// `r` is `v` permuted forwards by `p`: `r[i] = v[p[i]]`.
pub open spec fn is_applied<T>(p: Seq<u32>, v: Seq<T>, r: Seq<T>) -> bool {
    r.len() == v.len() && forall|i: int| 0 <= i < v.len() ==> r[i] == v[#[trigger] p[i] as int]
}

/// `r` is `v` permuted backwards by `p`: `r[p[i]] = v[i]`.
pub open spec fn is_applied_inv<T>(p: Seq<u32>, v: Seq<T>, r: Seq<T>) -> bool {
    r.len() == v.len() && forall|i: int| 0 <= i < v.len() ==> r[#[trigger] p[i] as int] == v[i]
}

/// `r` holds the elements of `v` in another order: some permutation `s` has `r[i] = v[s[i]]`.
pub open spec fn is_rearrangement<T>(v: Seq<T>, r: Seq<T>) -> bool {
    exists|s: Seq<u32>| is_permutation(s, v.len()) && is_applied(s, v, r)
}

/// Checks that `p` is a permutation of `[0, n)`.
pub fn permutation_valid(p: &[u32], n: usize) -> (r: bool)
    ensures
        r == is_permutation(p@, n as nat),
{
    if p.len() != n {
        return false;
    }
    let mut seen: Vec<bool> = Vec::new();
    let mut k: usize = 0;
    while k < n
        invariant
            k <= n,
            seen@.len() == k,
            forall|j: int| 0 <= j < k ==> !seen@[j],
        decreases n - k,
    {
        seen.push(false);
        k = k + 1;
    }
    let mut i: usize = 0;
    while i < n
        invariant
            p@.len() == n,
            seen@.len() == n,
            i <= n,
            forall|a: int| 0 <= a < i ==> #[trigger] p@[a] < n,
            forall|a: int, b: int| 0 <= a < i && 0 <= b < i && a != b ==> p@[a] != p@[b],
            forall|j: int| 0 <= j < n ==> (#[trigger] seen@[j] <==> exists|a: int|
                0 <= a < i && p@[a] == j),
        decreases n - i,
    {
        let x = p[i];
        if x as usize >= n {
            assert(!is_permutation(p@, n as nat)) by {
                assert(!(p@[i as int] < n));
            }
            return false;
        }
        if seen[x as usize] {
            assert(!is_permutation(p@, n as nat)) by {
                let a = choose|a: int| 0 <= a < i && p@[a] == x;
                assert(p@[a] == p@[i as int]);
            }
            return false;
        }
        seen.set(x as usize, true);
        assert forall|j: int| 0 <= j < n implies (#[trigger] seen@[j] <==> exists|a: int|
            0 <= a < i + 1 && p@[a] == j) by {
            if j == x {
                assert(p@[i as int] == j);
            }
        }
        i = i + 1;
    }
    let mut k: usize = 0;
    while k < n
        invariant
            p@.len() == n,
            seen@.len() == n,
            k <= n,
            forall|j: int| 0 <= j < k ==> #[trigger] seen@[j],
            forall|j: int| 0 <= j < n ==> (#[trigger] seen@[j] <==> exists|a: int|
                0 <= a < n && p@[a] == j),
        decreases n - k,
    {
        if !seen[k] {
            assert(!has_preimage(p@, k as int));
            return false;
        }
        k = k + 1;
    }
    assert forall|k: int| 0 <= k < n implies #[trigger] has_preimage(p@, k) by {
        assert(seen@[k]);
    }
    true
}

/// Permutes `values` forwards: afterwards `values[i]` is the old `values[perm[i]]`.
pub fn apply<T: Copy>(perm: &[u32], values: &mut Vec<T>)
    requires
        is_permutation(perm@, old(values)@.len()),
    ensures
        is_applied(perm@, old(values)@, final(values)@),
{
    let n = values.len();
    let mut out: Vec<T> = Vec::new();
    let mut i: usize = 0;
    while i < n
        invariant
            n == values@.len(),
            values@ == old(values)@,
            is_permutation(perm@, n as nat),
            i <= n,
            out@.len() == i,
            forall|k: int| 0 <= k < i ==> out@[k] == values@[#[trigger] perm@[k] as int],
        decreases n - i,
    {
        let j = perm[i] as usize;
        out.push(values[j]);
        i = i + 1;
    }
    *values = out;
}

/// Permutes `values` backwards: afterwards `values[perm[i]]` is the old `values[i]`.
pub fn apply_inv<T: Copy>(perm: &[u32], values: &mut Vec<T>)
    requires
        is_permutation(perm@, old(values)@.len()),
    ensures
        is_applied_inv(perm@, old(values)@, final(values)@),
{
    let n = values.len();
    let mut out: Vec<T> = Vec::new();
    let mut i: usize = 0;
    while i < n
        invariant
            n == values@.len(),
            i <= n,
            out@.len() == i,
            forall|k: int| 0 <= k < i ==> out@[k] == values@[k],
        decreases n - i,
    {
        out.push(values[i]);
        i = i + 1;
    }
    let mut i: usize = 0;
    while i < n
        invariant
            n == values@.len(),
            values@ == old(values)@,
            is_permutation(perm@, n as nat),
            i <= n,
            out@.len() == n,
            forall|k: int| 0 <= k < i ==> out@[#[trigger] perm@[k] as int] == values@[k],
        decreases n - i,
    {
        let j = perm[i] as usize;
        let x = values[i];
        out.set(j, x);
        assert forall|k: int| 0 <= k < i + 1 implies out@[#[trigger] perm@[k] as int]
            == values@[k] by {
            if k < i {
                assert(perm@[k] != perm@[i as int]);
            }
        }
        i = i + 1;
    }
    *values = out;
}

/// A sequence with the same elements as `0, 1, ..., n - 1`, counted with
/// multiplicity, is a permutation of `[0, n)`.
pub proof fn lemma_rearranged_identity(p: Seq<u32>, n: nat)
    requires
        n <= u32::MAX + 1,
        p.to_multiset() == identity_seq(n).to_multiset(),
    ensures
        is_permutation(p, n),
{
    broadcast use vstd::seq_lib::group_to_multiset_ensures;

    let id = identity_seq(n);
    assert(p.to_multiset().len() == p.len());
    assert(id.to_multiset().len() == id.len());
    assert(p.len() == n);
    assert(id.no_duplicates());
    id.lemma_multiset_has_no_duplicates();
    p.lemma_multiset_has_no_duplicates_conv();
    assert forall|i: int| 0 <= i < n implies #[trigger] p[i] < n by {
        assert(p.contains(p[i]));
        assert(p.to_multiset().count(p[i]) > 0);
        assert(id.contains(p[i]));
    }
    assert forall|k: int| 0 <= k < n implies #[trigger] has_preimage(p, k) by {
        assert(id[k] == k);
        assert(id.contains(id[k]));
        assert(p.to_multiset().count(id[k]) > 0);
        assert(p.contains(id[k]));
    }
}

/// What the seeded shuffle makes of `v` under the 32-byte seed `seed`.
pub uninterp spec fn chacha8_shuffle(v: Seq<u32>, seed: Seq<u8>) -> Seq<u32>;

/// Relies on `rand_chacha::ChaCha8Rng::from_seed` and `rand::seq::SliceRandom::shuffle`:
/// the generator is determined by its seed, and the Fisher-Yates shuffle only
/// swaps elements of the slice.
#[verifier::external_body]
fn shuffle_with_seed(v: &mut Vec<u32>, seed: &Vec<u8>)
    requires
        seed@.len() == 32,
    ensures
        final(v)@ == chacha8_shuffle(old(v)@, seed@),
        final(v)@.to_multiset() == old(v)@.to_multiset(),
{
    let seed: [u8; 32] = seed.as_slice().try_into().unwrap();
    v.shuffle(&mut ChaCha8Rng::from_seed(seed));
}

/// The seed made of two shared random values: both little-endian, `x` first.
pub open spec fn seed_of(x: u128, y: u128) -> Seq<u8> {
    le_bytes(x as nat, 16) + le_bytes(y as nat, 16)
}

/// The permutation of `[0, n)` drawn from the shared values `x` and `y`.
pub open spec fn permutation_from(n: nat, x: u128, y: u128) -> Seq<u32> {
    chacha8_shuffle(identity_seq(n), seed_of(x, y))
}

fn seed_from(x: u128, y: u128) -> (r: Vec<u8>)
    ensures
        r@ == seed_of(x, y),
        r@.len() == 32,
{
    let mut seed: Vec<u8> = Vec::new();
    push_le(x, 16, &mut seed);
    push_le(y, 16, &mut seed);
    proof {
        crate::codec::lemma_le_bytes_len(x as nat, 16);
        crate::codec::lemma_le_bytes_len(y as nat, 16);
        assert(seed@ =~= seed_of(x, y));
    }
    seed
}

fn identity_permutation(n: u32) -> (r: Vec<u32>)
    ensures
        r@ == identity_seq(n as nat),
{
    let mut v: Vec<u32> = Vec::new();
    let mut i: u32 = 0;
    while i < n
        invariant
            i <= n,
            v@ == identity_seq(i as nat),
        decreases n - i,
    {
        v.push(i);
        i = i + 1;
        assert(v@ =~= identity_seq(i as nat));
    }
    v
}

/// A source of randomness shared with each neighbour: `generate_values(i)`
/// returns the `i`-th value shared with the left neighbour and the `i`-th value
/// shared with the right one.
pub trait SharedRandomness {
    fn generate_values(&self, index: u128) -> (u128, u128);
}

/// The permutation pair drawn from the shared values at two indices: `a` and
/// `b` each hold a value shared with the left neighbour and one shared with the
/// right neighbour.
pub fn permutations_from_randoms(batchsize: u32, a: (u128, u128), b: (u128, u128)) -> (r: (
    Vec<u32>,
    Vec<u32>,
))
    ensures
        r.0@ == permutation_from(batchsize as nat, a.0, b.0),
        r.1@ == permutation_from(batchsize as nat, a.1, b.1),
        is_permutation(r.0@, batchsize as nat),
        is_permutation(r.1@, batchsize as nat),
{
    let seed_left = seed_from(a.0, b.0);
    let seed_right = seed_from(a.1, b.1);
    let mut left = identity_permutation(batchsize);
    let mut right = identity_permutation(batchsize);
    shuffle_with_seed(&mut left, &seed_left);
    shuffle_with_seed(&mut right, &seed_right);
    proof {
        lemma_rearranged_identity(left@, batchsize as nat);
        lemma_rearranged_identity(right@, batchsize as nat);
    }
    (left, right)
}

/// Draws this helper's two permutations of `[0, batchsize)`: the first shared
/// with its left neighbour, the second with its right one. The seeds come from
/// the shared values at indices `batchsize` and `batchsize + 1`, which resharing
/// the `batchsize` elements never uses.
pub fn get_two_of_three_random_permutations<P: SharedRandomness>(
    batchsize: usize,
    prss: &P,
) -> (r: (Vec<u32>, Vec<u32>))
    requires
        batchsize <= u32::MAX,
    ensures
        is_permutation(r.0@, batchsize as nat),
        is_permutation(r.1@, batchsize as nat),
{
    let a = prss.generate_values(batchsize as u128);
    let b = prss.generate_values(batchsize as u128 + 1);
    permutations_from_randoms(batchsize as u32, a, b)
}

/// Neighbours draw the same permutation: when a helper's values shared to
/// the right are its right neighbour's values shared to the left, the
/// helper's second permutation is the neighbour's first.
pub proof fn lemma_neighbours_share_permutation(
    n: nat,
    a: (u128, u128),
    b: (u128, u128),
    right_a: (u128, u128),
    right_b: (u128, u128),
)
    requires
        a.1 == right_a.0,
        b.1 == right_b.0,
    ensures
        permutation_from(n, a.1, b.1) == permutation_from(n, right_a.0, right_b.0),
{
}

/// The three rounds of a shuffle, each with its own recipient.
#[derive(Clone, Copy, Debug, PartialEq, Eq, Hash, Structural)]
pub enum ShuffleStep {
    Step1,
    Step2,
    Step3,
}

impl ShuffleStep {
    /// The name of the round's sub-step.
    pub fn as_str(&self) -> &'static str {
        match self {
            ShuffleStep::Step1 => "shuffle_step_1",
            ShuffleStep::Step2 => "shuffle_step_2",
            ShuffleStep::Step3 => "shuffle_step_3",
        }
    }
}

/// Whether the rounds permute backwards (shuffle) or forwards (unshuffle).
#[derive(Clone, Copy, Debug, PartialEq, Eq, Hash, Structural)]
pub enum ShuffleOrUnshuffle {
    Shuffle,
    Unshuffle,
}

impl ShuffleOrUnshuffle {
    /// The name of the sub-step.
    pub fn as_str(&self) -> &'static str {
        match self {
            ShuffleOrUnshuffle::Shuffle => "shuffle",
            ShuffleOrUnshuffle::Unshuffle => "unshuffle",
        }
    }
}

/// The recipient of each round: the helper that takes no part in permuting.
pub open spec fn recipient(step: ShuffleStep) -> Role {
    match step {
        ShuffleStep::Step1 => Role::H1,
        ShuffleStep::Step2 => Role::H2,
        ShuffleStep::Step3 => Role::H3,
    }
}

/// The round order: a shuffle runs the rounds first to last, an unshuffle last to first.
pub open spec fn round_order(mode: ShuffleOrUnshuffle) -> Seq<ShuffleStep> {
    match mode {
        ShuffleOrUnshuffle::Shuffle => seq![
            ShuffleStep::Step1,
            ShuffleStep::Step2,
            ShuffleStep::Step3,
        ],
        ShuffleOrUnshuffle::Unshuffle => seq![
            ShuffleStep::Step3,
            ShuffleStep::Step2,
            ShuffleStep::Step1,
        ],
    }
}

/// The helper that receives the reshared vector in a round.
pub fn shuffle_for_helper(which_step: ShuffleStep) -> (r: Role)
    ensures
        r == recipient(which_step),
{
    match which_step {
        ShuffleStep::Step1 => Role::H1,
        ShuffleStep::Step2 => Role::H2,
        ShuffleStep::Step3 => Role::H3,
    }
}

/// The rounds of a shuffle or an unshuffle, in the order they run.
pub fn rounds(mode: ShuffleOrUnshuffle) -> (r: [ShuffleStep; 3])
    ensures
        r@ == round_order(mode),
{
    let r = match mode {
        ShuffleOrUnshuffle::Shuffle => [ShuffleStep::Step1, ShuffleStep::Step2, ShuffleStep::Step3],
        ShuffleOrUnshuffle::Unshuffle => [
            ShuffleStep::Step3,
            ShuffleStep::Step2,
            ShuffleStep::Step1,
        ],
    };
    assert(r@ =~= round_order(mode));
    r
}

/// Which of its two permutations an acting helper uses when `to_helper`
/// receives: the one shared with the other actor. That is the left one when
/// the recipient is the helper's right neighbour.
pub open spec fn chosen_direction(role: Role, to_helper: Role) -> Direction {
    if peer_spec(to_helper, Direction::Left) == role {
        Direction::Left
    } else {
        Direction::Right
    }
}

/// The permutation a helper applies, from its pair `(left, right)`.
pub open spec fn chosen<T>(d: Direction, perms: (T, T)) -> T {
    match d {
        Direction::Left => perms.0,
        Direction::Right => perms.1,
    }
}

/// The local part of one round at helper `role`: a helper other than the
/// recipient permutes its shares with the permutation it shares with the other
/// actor, backwards to shuffle and forwards to unshuffle; the recipient keeps
/// them. Returns the vector to reshare and the recipient to reshare it to.
pub fn permute_for_round<T: Copy>(
    input: Vec<T>,
    random_permutations: (&[u32], &[u32]),
    shuffle_or_unshuffle: ShuffleOrUnshuffle,
    role: Role,
    which_step: ShuffleStep,
) -> (r: (Vec<T>, Role))
    requires
        is_permutation(random_permutations.0@, input@.len()),
        is_permutation(random_permutations.1@, input@.len()),
    ensures
        r.1 == recipient(which_step),
        role == recipient(which_step) ==> r.0@ == input@,
        role != recipient(which_step) ==> ({
            let p = chosen(
                chosen_direction(role, recipient(which_step)),
                (random_permutations.0@, random_permutations.1@),
            );
            match shuffle_or_unshuffle {
                ShuffleOrUnshuffle::Shuffle => is_applied_inv(p, input@, r.0@),
                ShuffleOrUnshuffle::Unshuffle => is_applied(p, input@, r.0@),
            }
        }),
{
    let to_helper = shuffle_for_helper(which_step);
    let mut input = input;
    if to_helper != role {
        let permutation_to_apply = if to_helper.peer(Direction::Left) == role {
            random_permutations.0
        } else {
            random_permutations.1
        };
        match shuffle_or_unshuffle {
            ShuffleOrUnshuffle::Shuffle => apply_inv(permutation_to_apply, &mut input),
            ShuffleOrUnshuffle::Unshuffle => apply(permutation_to_apply, &mut input),
        }
    }
    (input, to_helper)
}

/// The two actors of a round use the same permutation when each helper's
/// right permutation is its right neighbour's left one: a helper whose right
/// neighbour receives uses its left permutation, which is the right
/// permutation of its left neighbour, the other actor.
pub proof fn lemma_actors_agree<T>(
    step: ShuffleStep,
    pairs: spec_fn(Role) -> (T, T),
)
    requires
        forall|h: Role| (#[trigger] pairs(h)).1 == pairs(next_role(h)).0,
    ensures
        ({
            let to = recipient(step);
            let a = next_role(to);
            let b = prev_role(to);
            &&& a != to && b != to && a != b
            &&& chosen(chosen_direction(a, to), pairs(a)) == chosen(
                chosen_direction(b, to),
                pairs(b),
            )
        }),
{
    let to = recipient(step);
    let b = prev_role(to);
    assert(pairs(b).1 == pairs(next_role(b)).0);
}

/// Permuting backwards and then forwards by the same permutation gives the
/// vector back.
pub proof fn lemma_unapply_inverts<T>(p: Seq<u32>, v: Seq<T>, s: Seq<T>, u: Seq<T>)
    requires
        is_permutation(p, v.len()),
        is_applied_inv(p, v, s),
        is_applied(p, s, u),
    ensures
        u == v,
{
    assert forall|i: int| 0 <= i < v.len() implies u[i] == v[i] by {
        assert(u[i] == s[p[i] as int]);
    }
    assert(u =~= v);
}

/// Unshuffling a shuffled vector restores it: the three rounds of a shuffle
/// permute backwards by `p1`, `p2`, `p3` in turn, and the three rounds of the
/// unshuffle permute forwards by `p3`, `p2`, `p1`.
pub proof fn lemma_unshuffle_restores<T>(
    v: Seq<T>,
    p1: Seq<u32>,
    p2: Seq<u32>,
    p3: Seq<u32>,
    s1: Seq<T>,
    s2: Seq<T>,
    s3: Seq<T>,
    u1: Seq<T>,
    u2: Seq<T>,
    u3: Seq<T>,
)
    requires
        is_permutation(p1, v.len()),
        is_permutation(p2, v.len()),
        is_permutation(p3, v.len()),
        is_applied_inv(p1, v, s1),
        is_applied_inv(p2, s1, s2),
        is_applied_inv(p3, s2, s3),
        is_applied(p3, s3, u1),
        is_applied(p2, u1, u2),
        is_applied(p1, u2, u3),
    ensures
        u3 == v,
{
    lemma_unapply_inverts(p3, s2, s3, u1);
    lemma_unapply_inverts(p2, s1, s2, u2);
    lemma_unapply_inverts(p1, v, s1, u3);
}

/// The index of `k` in the permutation `p`.
pub open spec fn preimage(p: Seq<u32>, k: int) -> u32 {
    (choose|i: int| 0 <= i < p.len() && p[i] == k) as u32
}

/// The inverse of a permutation.
pub open spec fn inverse(p: Seq<u32>) -> Seq<u32> {
    Seq::new(p.len(), |k: int| preimage(p, k))
}

proof fn lemma_inverse(p: Seq<u32>, n: nat)
    requires
        is_permutation(p, n),
    ensures
        is_permutation(inverse(p), n),
        forall|k: int| 0 <= k < n ==> p[#[trigger] inverse(p)[k] as int] == k,
{
    let q = inverse(p);
    if n > u32::MAX + 1 {
        assert(has_preimage(p, u32::MAX + 1));
    }
    assert forall|k: int| 0 <= k < n implies #[trigger] q[k] < n && p[q[k] as int] == k by {
        assert(has_preimage(p, k));
        let i = choose|i: int| 0 <= i < p.len() && p[i] == k;
        assert(q[k] == i as u32);
    }
    assert forall|a: int, b: int| 0 <= a < n && 0 <= b < n && a != b implies q[a] != q[b] by {
        assert(q[a] < n && p[q[a] as int] == a);
        assert(q[b] < n && p[q[b] as int] == b);
    }
    assert forall|k: int| 0 <= k < n implies #[trigger] has_preimage(q, k) by {
        let j = p[k] as int;
        assert(p[k] < n);
        assert(q[j] < n && p[q[j] as int] == j);
        assert(q[j] == k);
    }
}

/// Permuting backwards by a permutation rearranges a vector.
proof fn lemma_applied_inv_rearranges<T>(p: Seq<u32>, v: Seq<T>, r: Seq<T>)
    requires
        is_permutation(p, v.len()),
        is_applied_inv(p, v, r),
    ensures
        is_permutation(inverse(p), v.len()),
        is_applied(inverse(p), v, r),
{
    lemma_inverse(p, v.len());
    let q = inverse(p);
    assert forall|i: int| 0 <= i < v.len() implies r[i] == v[#[trigger] q[i] as int] by {
        assert(q[i] < v.len());
        assert(p[q[i] as int] == i);
    }
}

/// The composition `k -> q[p[k]]` of two permutations.
pub open spec fn compose(p: Seq<u32>, q: Seq<u32>) -> Seq<u32> {
    Seq::new(p.len(), |k: int| q[p[k] as int])
}

proof fn lemma_compose(p: Seq<u32>, q: Seq<u32>, n: nat)
    requires
        is_permutation(p, n),
        is_permutation(q, n),
    ensures
        is_permutation(compose(p, q), n),
{
    let c = compose(p, q);
    assert forall|k: int| 0 <= k < n implies #[trigger] c[k] < n by {
        assert(p[k] < n);
    }
    assert forall|a: int, b: int| 0 <= a < n && 0 <= b < n && a != b implies c[a] != c[b] by {
        assert(p[a] < n && p[b] < n && p[a] != p[b]);
    }
    assert forall|k: int| 0 <= k < n implies #[trigger] has_preimage(c, k) by {
        assert(has_preimage(q, k));
        let j = choose|j: int| 0 <= j < q.len() && q[j] == k;
        assert(has_preimage(p, j));
        let i = choose|i: int| 0 <= i < p.len() && p[i] == j;
        assert(c[i] == k);
    }
}

/// A shuffle rearranges: after the three rounds permute backwards by `p1`,
/// `p2`, `p3`, the vector holds the same elements in another order.
pub proof fn lemma_shuffle_rearranges<T>(
    v: Seq<T>,
    p1: Seq<u32>,
    p2: Seq<u32>,
    p3: Seq<u32>,
    s1: Seq<T>,
    s2: Seq<T>,
    s3: Seq<T>,
)
    requires
        is_permutation(p1, v.len()),
        is_permutation(p2, v.len()),
        is_permutation(p3, v.len()),
        is_applied_inv(p1, v, s1),
        is_applied_inv(p2, s1, s2),
        is_applied_inv(p3, s2, s3),
    ensures
        is_rearrangement(v, s3),
{
    let n = v.len();
    lemma_applied_inv_rearranges(p1, v, s1);
    lemma_applied_inv_rearranges(p2, s1, s2);
    lemma_applied_inv_rearranges(p3, s2, s3);
    let (q1, q2, q3) = (inverse(p1), inverse(p2), inverse(p3));
    lemma_compose(q2, q1, n);
    let c12 = compose(q2, q1);
    lemma_compose(q3, c12, n);
    let c = compose(q3, c12);
    assert forall|i: int| 0 <= i < n implies s3[i] == v[#[trigger] c[i] as int] by {
        assert(q3[i] < n);
        assert(q2[q3[i] as int] < n);
    }
    assert(is_applied(c, v, s3));
}

} // verus!
