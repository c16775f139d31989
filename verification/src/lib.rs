//! Cards, turns and message framing for a two-player game of guinyot
//! played with the forty-card Spanish deck.

use rand::Rng;
use vstd::prelude::*;

use crate::serialization::{spec_tag_byte, TransferTag};

pub mod client;
pub mod playing;
pub mod serialization;

verus! {

/// The TCP port the server listens on.
pub const DEFAULT_PORT: u32 = 25545;

/// A card: its suit and its rank.
#[derive(Debug, Clone, Copy, PartialEq, Eq, Structural)]
pub struct Carta {
    pub coll: Coll,
    pub valor: Numero,
}

/// The four suits of the Spanish deck.
#[derive(Clone, Copy, Debug, PartialEq, Eq, Structural)]
pub enum Coll {
    Monedes,
    Copes,
    Espases,
    Garrots,
}

/// The ten ranks of the Spanish deck, from the ace to the king.
#[derive(Clone, Copy, Debug, PartialEq, Eq, Structural)]
pub enum Numero {
    As,
    Dos,
    Tres,
    Quatre,
    Cinc,
    Sis,
    Sete,
    Sota,
    Cavall,
    Rei,
}

/// The points a rank is worth when the cards won are counted.
pub open spec fn numero_points(n: Numero) -> u32 {
    match n {
        Numero::As => 11,
        Numero::Tres => 10,
        Numero::Rei => 4,
        Numero::Cavall => 2,
        Numero::Sota => 3,
        _ => 0,
    }
}

impl Numero {
    /// Every rank, in order from the ace to the king.
    pub const ALL: [Numero; 10] = [
        Numero::As,
        Numero::Dos,
        Numero::Tres,
        Numero::Quatre,
        Numero::Cinc,
        Numero::Sis,
        Numero::Sete,
        Numero::Sota,
        Numero::Cavall,
        Numero::Rei,
    ];

    /// Every rank, in order from the ace to the king.
    pub open spec fn spec_all() -> Seq<Numero> {
        seq![
            Numero::As,
            Numero::Dos,
            Numero::Tres,
            Numero::Quatre,
            Numero::Cinc,
            Numero::Sis,
            Numero::Sete,
            Numero::Sota,
            Numero::Cavall,
            Numero::Rei,
        ]
    }

    /// The points this rank is worth.
    pub fn value(&self) -> (r: u32)
        ensures
            r == numero_points(*self),
    {
        match self {
            Numero::As => 11,
            Numero::Tres => 10,
            Numero::Rei => 4,
            Numero::Cavall => 2,
            Numero::Sota => 3,
            _ => 0,
        }
    }
}

/// Whose turn it is.
#[derive(Debug, Clone, Copy, PartialEq, Eq, Structural)]
pub enum Torn {
    A,
    B,
}


/// The generator handle of `rand`, held opaque.
#[verifier::external_type_specification]
#[verifier::external_body]
pub struct ExThreadRng(rand::rngs::ThreadRng);

/// Calls `rand::rng`, which hands out the thread-local generator.
/// Nothing is claimed of the generator it returns.
#[verifier::external_body]
fn thread_rng() -> (rng: rand::rngs::ThreadRng) {
    rand::rng()
}

/// Calls `Rng::random_range` on `rng` with the range `0..bound`. The `rand`
/// documentation promises a value inside the range, and a panic only on an
/// empty range; claimed here: the result is below `bound`. Which value comes
/// out is chance and is not stated.
#[verifier::external_body]
fn random_below(rng: &mut rand::rngs::ThreadRng, bound: usize) -> (r: usize)
    requires
        0 < bound,
    ensures
        r < bound,
{
    rng.random_range(0..bound)
}

/// Calls `<[T]>::swap`, which std documents as exchanging the elements at
/// `i` and `j` (and panicking when either is out of bounds).
#[verifier::external_body]
fn swap_elements<T>(v: &mut Vec<T>, i: usize, j: usize)
    requires
        i < old(v)@.len(),
        j < old(v)@.len(),
    ensures
        final(v)@ == old(v)@.update(i as int, old(v)@[j as int]).update(j as int, old(v)@[i as int]),
{
    v.swap(i, j)
}

/// Exchanging two positions of a sequence leaves its multiset unchanged.
proof fn lemma_swap_keeps_multiset<T>(s: Seq<T>, i: int, j: int)
    requires
        0 <= i < s.len(),
        0 <= j < s.len(),
    ensures
        s.update(i, s[j]).update(j, s[i]).to_multiset() == s.to_multiset(),
{
    broadcast use vstd::seq_lib::group_to_multiset_ensures;
    broadcast use vstd::multiset::group_multiset_axioms;

    let s1 = s.update(i, s[j]);
    assert(s1.to_multiset() == s.to_multiset().insert(s[j]).remove(s[i]));
    assert(s1.update(j, s[i]).to_multiset() == s1.to_multiset().insert(s[i]).remove(s1[j]));
    assert(s.to_multiset().contains(s[i]));
    assert(s.to_multiset().contains(s[j]));
    if i == j {
        assert(s.update(i, s[j]).update(j, s[i]) =~= s);
    } else {
        assert(s1[j] == s[j]);
        assert(s1.update(j, s[i]).to_multiset() =~= s.to_multiset());
    }
}

/// The sequence `s` with the elements at `i` and `j` exchanged (unchanged
/// when `i == j`).
pub open spec fn spec_swapped<T>(s: Seq<T>, i: int, j: int) -> Seq<T> {
    if i == j {
        s
    } else {
        s.update(i, s[j]).update(j, s[i])
    }
}

/// The sequence `s` after the first `k` steps of a shuffle driven by
/// `draws`: step `i` exchanges position `i` with position `draws[i]`.
pub open spec fn spec_shuffle_steps<T>(s: Seq<T>, draws: Seq<usize>, k: nat) -> Seq<T>
    decreases k,
{
    if k == 0 {
        s
    } else {
        let i = k - 1;
        spec_swapped(spec_shuffle_steps(s, draws, i as nat), i, draws[i] as int)
    }
}

/// The order a shuffle of `s` gives when the positions drawn are `draws`:
/// all `s.len()` steps applied.
pub open spec fn spec_shuffled<T>(s: Seq<T>, draws: Seq<usize>) -> Seq<T> {
    spec_shuffle_steps(s, draws, s.len())
}

/// Draws that a shuffle of `n` elements can make: one position per step,
/// each below `n`.
pub open spec fn valid_draws(draws: Seq<usize>, n: nat) -> bool {
    &&& draws.len() == n
    &&& forall|k: int| 0 <= k < n ==> #[trigger] draws[k] < n
}

/// The steps of a shuffle keep the length and the multiset of a sequence.
proof fn lemma_shuffle_steps_keep_multiset<T>(s: Seq<T>, draws: Seq<usize>, k: nat)
    requires
        k <= s.len(),
        valid_draws(draws, s.len()),
    ensures
        spec_shuffle_steps(s, draws, k).len() == s.len(),
        spec_shuffle_steps(s, draws, k).to_multiset() == s.to_multiset(),
    decreases k,
{
    if k > 0 {
        let i = k - 1;
        lemma_shuffle_steps_keep_multiset(s, draws, i as nat);
        let p = spec_shuffle_steps(s, draws, i as nat);
        let j = draws[i as int] as int;
        if i != j {
            lemma_swap_keeps_multiset(p, i as int, j);
        }
    }
}

/// Applies to `x` the shuffle steps that `draws` drive: step `i` exchanges
/// position `i` with position `draws[i]`, for each position in turn.
pub fn apply_shuffle_draws<T>(x: Vec<T>, draws: &[usize]) -> (r: Vec<T>)
    requires
        valid_draws(draws@, x@.len()),
    ensures
        r@ == spec_shuffled(x@, draws@),
{
    let mut x = x;
    let ghost original = x@;
    let n = x.len();
    for i in 0..n
        invariant
            n == original.len(),
            valid_draws(draws@, n as nat),
            x@ == spec_shuffle_steps(original, draws@, i as nat),
    {
        proof {
            lemma_shuffle_steps_keep_multiset(original, draws@, i as nat);
        }
        let j = draws[i];
        assert(j == draws@[i as int]);
        if i != j {
            swap_elements(&mut x, i, j);
        }
    }
    x
}

/// Puts the elements of `x` in a random order: each position in turn is
/// exchanged with a position drawn uniformly from the whole vector.
/// The result is the shuffle of `x` for some valid draws, so it holds
/// exactly the elements of `x`, each as often as in `x`.
pub fn shuffle<T>(x: Vec<T>) -> (r: Vec<T>)
    ensures
        exists|draws: Seq<usize>| valid_draws(draws, x@.len()) && r@ == #[trigger] spec_shuffled(x@, draws),
        r@.len() == x@.len(),
        r@.to_multiset() == x@.to_multiset(),
{
    let mut rng = thread_rng();
    let n = x.len();
    let mut draws: Vec<usize> = Vec::new();
    for i in 0..n
        invariant
            n == x@.len(),
            draws@.len() == i,
            forall|k: int| 0 <= k < i ==> #[trigger] draws@[k] < n,
    {
        let j = random_below(&mut rng, n);
        draws.push(j);
    }
    let ghost d = draws@;
    let r = apply_shuffle_draws(x, &draws);
    proof {
        lemma_shuffle_steps_keep_multiset(x@, d, x@.len());
    }
    r
}

/// The byte that ends every message on the wire: a newline.
pub const END_OF_COMM: u8 = 10;

/// The bytes that carry a message: its tag, its payload, and the end byte.
pub open spec fn spec_framed(tag: TransferTag, payload: Seq<u8>) -> Seq<u8> {
    seq![spec_tag_byte(tag)] + payload + seq![END_OF_COMM]
}

/// What a receiver keeps of the bytes it read up to the end byte: those
/// bytes without the end byte, or nothing when they do not end with it
/// (the connection closed first).
pub open spec fn spec_unframed(received: Seq<u8>) -> Seq<u8> {
    if received.len() > 0 && received.last() == END_OF_COMM {
        received.drop_last()
    } else {
        Seq::empty()
    }
}

/// The bytes to write to send the message `b` with the tag `tag`.
pub fn frame_message(tag: TransferTag, b: &[u8]) -> (r: Vec<u8>)
    ensures
        r@ == spec_framed(tag, b@),
{
    let mut out: Vec<u8> = Vec::new();
    out.push(u8::from(tag));
    let mut i: usize = 0;
    while i < b.len()
        invariant
            i <= b@.len(),
            out@ == seq![spec_tag_byte(tag)] + b@.take(i as int),
        decreases b@.len() - i,
    {
        out.push(b[i]);
        assert(b@.take(i + 1) =~= b@.take(i as int).push(b@[i as int]));
        i = i + 1;
    }
    assert(b@.take(b@.len() as int) =~= b@);
    out.push(END_OF_COMM);
    out
}

/// The message in the bytes read up to and including the end byte: the
/// bytes without the end byte, or no bytes when the end byte is missing.
pub fn unframe_message(received: Vec<u8>) -> (r: Vec<u8>)
    ensures
        r@ == spec_unframed(received@),
{
    let mut received = received;
    match received.pop() {
        Some(last) => {
            if last == END_OF_COMM {
                received
            } else {
                Vec::new()
            }
        },
        None => Vec::new(),
    }
}

/// A receiver that reads a whole framed message keeps its tag byte and its
/// payload: unframing undoes framing.
pub proof fn lemma_unframe_frame(tag: TransferTag, payload: Seq<u8>)
    ensures
        spec_unframed(spec_framed(tag, payload)) == seq![spec_tag_byte(tag)] + payload,
{
    let f = spec_framed(tag, payload);
    assert(f.drop_last() =~= seq![spec_tag_byte(tag)] + payload);
}

} // verus!
