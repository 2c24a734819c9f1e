use crate::piece::PieceType;
use crate::replay::from_be_bytes;
use rand::rngs::SmallRng;
use rand::seq::SliceRandom;
use rand::SeedableRng;
use vstd::prelude::*;

verus! {

#[verifier::external_type_specification]
#[verifier::external_body]
pub struct ExSmallRng(SmallRng);

/// Relies on the `Clone` that rand derives for `SmallRng`: a copy of the
/// generator's state. Nothing is stated of it.
pub assume_specification[ <SmallRng as Clone>::clone ](rng: &SmallRng) -> SmallRng;

/// Relies on rand's `SmallRng::seed_from_u64`: a generator whose whole output
/// is fixed by the seed. Nothing is stated of that output.
#[verifier::external_body]
fn seeded_rng(seed: u64) -> SmallRng {
    SmallRng::seed_from_u64(seed)
}

/// Relies on rand's `SliceRandom::shuffle` for slices, which only swaps
/// elements in place: the result is a permutation of the input.
#[verifier::external_body]
fn shuffle(kinds: &mut Vec<PieceType>, rng: &mut SmallRng)
    ensures
        final(kinds)@.len() == old(kinds)@.len(),
        final(kinds)@.to_multiset() == old(kinds)@.to_multiset(),
{
    kinds.shuffle(rng)
}

/// The seven kinds, once each.
pub open spec fn all_kinds() -> Seq<PieceType> {
    seq![
        PieceType::I,
        PieceType::J,
        PieceType::L,
        PieceType::O,
        PieceType::S,
        PieceType::T,
        PieceType::Z,
    ]
}

/// `s` holds each of the seven kinds exactly once.
pub open spec fn is_full_bag(s: Seq<PieceType>) -> bool {
    s.len() == 7 && forall|k: PieceType| #[trigger] s.to_multiset().count(k) == 1
}

proof fn lemma_all_kinds_full()
    ensures
        is_full_bag(all_kinds()),
{
    broadcast use vstd::seq_lib::to_multiset_build;
    broadcast use vstd::multiset::group_multiset_axioms;

    let e = Seq::<PieceType>::empty();
    assert(all_kinds() =~= e.push(PieceType::I).push(PieceType::J).push(PieceType::L).push(
        PieceType::O,
    ).push(PieceType::S).push(PieceType::T).push(PieceType::Z));
    e.to_multiset_ensures();
    assert forall|k: PieceType| e.to_multiset().count(k) == 0 by {
        assert(!e.contains(k));
    }
}

/// A permutation of a full bag is a full bag.
proof fn lemma_permuted_full(a: Seq<PieceType>, b: Seq<PieceType>)
    requires
        is_full_bag(a),
        b.len() == a.len(),
        b.to_multiset() == a.to_multiset(),
    ensures
        is_full_bag(b),
{
}

/// The randomizer: the remainder of the current shuffled bag of seven kinds,
/// followed by the next bag, drawn from a generator fixed by the seed.
pub struct Bag {
    i: usize,
    rng: SmallRng,
    seed: u64,
    pieces: Vec<PieceType>,
    drawn: Ghost<Seq<PieceType>>,
    rounds: Ghost<int>,
}

impl Bag {
    /// Slots `0..7` hold the current bag, slots `7..14` the next one.
    pub closed spec fn window(&self) -> Seq<PieceType> {
        self.pieces@
    }

    /// How many kinds of the current bag have been drawn.
    pub closed spec fn cursor(&self) -> int {
        self.i as int
    }

    /// Every kind drawn since the bag was made, in order.
    pub closed spec fn drawn(&self) -> Seq<PieceType> {
        self.drawn@
    }

    pub closed spec fn seed_spec(&self) -> u64 {
        self.seed
    }

    pub closed spec fn wf(&self) -> bool {
        &&& self.pieces@.len() == 14
        &&& self.i < 7
        &&& is_full_bag(self.pieces@.subrange(0, 7))
        &&& is_full_bag(self.pieces@.subrange(7, 14))
        &&& self.rounds@ >= 0
        &&& self.drawn@.len() == 7 * self.rounds@ + self.i
        &&& self.drawn@.subrange(7 * self.rounds@, self.drawn@.len() as int)
            == self.pieces@.subrange(0, self.i as int)
        &&& forall|j: int|
            0 <= j < self.rounds@ ==> is_full_bag(
                #[trigger] self.drawn@.subrange(7 * j, 7 * j + 7),
            )
    }

    /// A fresh permutation of the seven kinds.
    fn shuffled(rng: &mut SmallRng) -> (r: Vec<PieceType>)
        ensures
            is_full_bag(r@),
    {
        let mut kinds = vec![
            PieceType::I,
            PieceType::J,
            PieceType::L,
            PieceType::O,
            PieceType::S,
            PieceType::T,
            PieceType::Z,
        ];
        proof {
            lemma_all_kinds_full();
            assert(kinds@ =~= all_kinds());
        }
        let ghost before = kinds@;
        shuffle(&mut kinds, rng);
        proof {
            lemma_permuted_full(before, kinds@);
        }
        kinds
    }

    pub fn new(seed: u64) -> (r: Self)
        ensures
            r.wf(),
            r.cursor() == 0,
            r.drawn() == Seq::<PieceType>::empty(),
            r.seed_spec() == seed,
    {
        let mut rng = seeded_rng(seed);
        let mut pieces = Bag::shuffled(&mut rng);
        let second = Bag::shuffled(&mut rng);
        assert(pieces@.subrange(0, 7) =~= pieces@);
        let mut k: usize = 0;
        while k < 7
            invariant
                k <= 7,
                second@.len() == 7,
                pieces@.len() == 7 + k,
                is_full_bag(pieces@.subrange(0, 7)),
                pieces@.subrange(7, 7 + k as int) =~= second@.subrange(0, k as int),
            decreases 7 - k,
        {
            let ghost prev = pieces@;
            pieces.push(second[k]);
            proof {
                assert(pieces@.subrange(0, 7) =~= prev.subrange(0, 7));
            }
            k += 1;
        }
        assert(pieces@.subrange(7, 14) =~= second@);
        let r = Bag { i: 0, rng, seed, pieces, drawn: Ghost(Seq::empty()), rounds: Ghost(0) };
        assert(r.drawn@.subrange(0, 0) =~= r.pieces@.subrange(0, 0));
        r
    }

    /// A bag seeded from eight bytes, most significant first.
    pub fn from_seed_bytes(seed: [u8; 8]) -> (r: Self)
        ensures
            r.wf(),
            r.cursor() == 0,
            r.drawn() == Seq::<PieceType>::empty(),
            r.seed_spec() == from_be_bytes(seed@, 0),
    {
        let n = (seed[0] as u64) << 56 | (seed[1] as u64) << 48 | (seed[2] as u64) << 40 | (seed[3] as u64)
            << 32 | (seed[4] as u64) << 24 | (seed[5] as u64) << 16 | (seed[6] as u64) << 8 | (seed[7] as u64);
        Bag::new(n)
    }

    pub fn seed(&self) -> (r: u64)
        ensures
            r == self.seed_spec(),
    {
        self.seed
    }

    pub fn next(&mut self) -> (r: PieceType)
        requires
            old(self).wf(),
        ensures
            final(self).wf(),
            r == old(self).window()[old(self).cursor()],
            final(self).drawn() == old(self).drawn().push(r),
            old(self).cursor() < 6 ==> final(self).cursor() == old(self).cursor() + 1
                && final(self).window() == old(self).window(),
            old(self).cursor() == 6 ==> final(self).cursor() == 0
                && final(self).window().subrange(0, 7) == old(self).window().subrange(7, 14),
    {
        let kind = self.pieces[self.i];
        self.i = self.i + 1;
        proof {
            self.drawn@ = self.drawn@.push(kind);
            assert forall|j: int| 0 <= j < self.rounds@ implies is_full_bag(
                #[trigger] self.drawn@.subrange(7 * j, 7 * j + 7),
            ) by {
                assert(self.drawn@.subrange(7 * j, 7 * j + 7)
                    =~= old(self).drawn@.subrange(7 * j, 7 * j + 7));
            }
            assert(self.drawn@.subrange(7 * self.rounds@, self.drawn@.len() as int)
                =~= self.pieces@.subrange(0, self.i as int));
        }
        if self.i == 7 {
            let ghost full_round = self.drawn@.subrange(7 * self.rounds@, 7 * self.rounds@ + 7);
            assert(full_round =~= self.pieces@.subrange(0, 7));
            self.i = 0;
            let ghost orig = self.pieces@;
            let ghost d0 = self.drawn@;
            let ghost r0 = self.rounds@;
            let mut k: usize = 0;
            while k < 7
                invariant
                    k <= 7,
                    orig.len() == 14,
                    self.pieces@.len() == 14,
                    self.pieces@.subrange(0, k as int) =~= orig.subrange(7, 7 + k as int),
                    self.pieces@.subrange(7, 14) =~= orig.subrange(7, 14),
                    self.i == 0,
                    self.drawn@ == d0,
                    self.rounds@ == r0,
                decreases 7 - k,
            {
                let moved = self.pieces[k + 7];
                let ghost prev = self.pieces@;
                self.pieces.set(k, moved);
                proof {
                    assert(self.pieces@.subrange(7, 14) =~= prev.subrange(7, 14));
                    assert(self.pieces@.subrange(0, k + 1) =~= prev.subrange(0, k as int).push(moved));
                    assert(orig.subrange(7, 7 + k + 1) =~= orig.subrange(7, 7 + k as int).push(orig[7 + k]));
                }
                k += 1;
            }
            let fresh = Bag::shuffled(&mut self.rng);
            let ghost first = self.pieces@.subrange(0, 7);
            let mut k: usize = 0;
            while k < 7
                invariant
                    k <= 7,
                    fresh@.len() == 7,
                    self.pieces@.len() == 14,
                    self.pieces@.subrange(0, 7) == first,
                    self.pieces@.subrange(7, 7 + k as int) =~= fresh@.subrange(0, k as int),
                    self.i == 0,
                    self.drawn@ == d0,
                    self.rounds@ == r0,
                decreases 7 - k,
            {
                let ghost prev = self.pieces@;
                self.pieces.set(k + 7, fresh[k]);
                proof {
                    assert(self.pieces@.subrange(0, 7) =~= prev.subrange(0, 7));
                    assert(self.pieces@.subrange(7, 7 + k + 1) =~= prev.subrange(7, 7 + k as int).push(fresh[k as int]));
                    assert(fresh@.subrange(0, k + 1) =~= fresh@.subrange(0, k as int).push(fresh[k as int]));
                }
                k += 1;
            }
            assert(self.pieces@.subrange(7, 14) =~= fresh@);
            assert(self.pieces@.subrange(0, 7) =~= orig.subrange(7, 14));
            proof {
                self.rounds@ = self.rounds@ + 1;
                assert(self.drawn@.subrange(7 * self.rounds@, self.drawn@.len() as int)
                    =~= self.pieces@.subrange(0, 0));
                assert forall|j: int| 0 <= j < self.rounds@ implies is_full_bag(
                    #[trigger] self.drawn@.subrange(7 * j, 7 * j + 7),
                ) by {
                    if j == r0 {
                        assert(full_round =~= orig.subrange(0, 7));
                        assert(self.drawn@.subrange(7 * j, 7 * j + 7) == full_round);
                    } else {
                        assert(self.drawn@.subrange(7 * j, 7 * j + 7)
                            =~= old(self).drawn@.subrange(7 * j, 7 * j + 7));
                    }
                }
            }
        }
        kind
    }

    /// The kind `k` places ahead within the current bag, counted modulo 7:
    /// the preview never reaches into the next bag.
    pub fn peek(&self, k: usize) -> (r: PieceType)
        requires
            self.wf(),
        ensures
            r == self.window()[(self.cursor() + k) % 7],
    {
        self.pieces[(self.i + k % 7) % 7]
    }
}

impl Clone for Bag {
    /// A copy of the bag; its generator continues from the same state.
    fn clone(&self) -> (r: Self)
        ensures
            r.window() == self.window(),
            r.cursor() == self.cursor(),
            r.drawn() == self.drawn(),
            r.seed_spec() == self.seed_spec(),
            r.wf() == self.wf(),
    {
        let mut pieces: Vec<PieceType> = Vec::new();
        let mut k: usize = 0;
        while k < self.pieces.len()
            invariant
                k <= self.pieces@.len(),
                pieces@ == self.pieces@.subrange(0, k as int),
            decreases self.pieces@.len() - k,
        {
            pieces.push(self.pieces[k]);
            assert(pieces@ =~= self.pieces@.subrange(0, k + 1));
            k += 1;
        }
        assert(pieces@ =~= self.pieces@);
        Bag {
            i: self.i,
            rng: self.rng.clone(),
            seed: self.seed,
            pieces,
            drawn: Ghost(self.drawn@),
            rounds: Ghost(self.rounds@),
        }
    }
}

/// A full bag holds no kind twice.
proof fn lemma_full_bag_no_duplicates(s: Seq<PieceType>)
    requires
        is_full_bag(s),
    ensures
        s.no_duplicates(),
{
    assert forall|i: int, j: int| 0 <= i < s.len() && 0 <= j < s.len() && i != j implies s[i]
        != s[j] by {
        if s[i] == s[j] {
            broadcast use vstd::multiset::group_multiset_axioms;

            let r = s.remove(i);
            vstd::seq_lib::to_multiset_remove(s, i);
            r.to_multiset_ensures();
            assert(s.to_multiset().count(s[i]) == 1);
            assert(r.to_multiset().count(s[i]) == 0);
            let k = if j < i { j } else { j - 1 };
            assert(r[k] == s[j]);
            assert(r.contains(s[i]));
        }
    }
}

/// In a well-formed bag the cursor lies in `0..7`, both halves of the window
/// are full bags, and the draws since the current bag began are the first
/// `cursor()` slots of the window.
pub proof fn lemma_bag_window(bag: Bag)
    requires
        bag.wf(),
    ensures
        0 <= bag.cursor() < 7,
        bag.window().len() == 14,
        is_full_bag(bag.window().subrange(0, 7)),
        is_full_bag(bag.window().subrange(7, 14)),
        bag.drawn().len() % 7 == bag.cursor(),
        bag.drawn().subrange(bag.drawn().len() - bag.cursor(), bag.drawn().len() as int)
            == bag.window().subrange(0, bag.cursor()),
{
    let n = bag.drawn().len() as int;
    let q = bag.rounds@;
    assert(n == 7 * q + bag.i);
    assert(n % 7 == bag.i as int) by (nonlinear_arith)
        requires
            n == 7 * q + bag.i,
            0 <= bag.i < 7,
            q >= 0,
    ;
}

/// Whatever the seed and however many kinds have been drawn, each complete
/// run of seven consecutive draws, counted from the first, holds each kind
/// exactly once, and the run still under way holds no kind twice.
pub proof fn lemma_draws_come_in_full_bags(bag: Bag, j: int)
    requires
        bag.wf(),
        0 <= j,
        7 * j + 7 <= bag.drawn().len(),
    ensures
        forall|k: PieceType| #[trigger] bag.drawn().subrange(7 * j, 7 * j + 7).to_multiset().count(k) == 1,
        bag.drawn().subrange(
            bag.drawn().len() - bag.drawn().len() % 7,
            bag.drawn().len() as int,
        ).no_duplicates(),
{
    assert(is_full_bag(bag.drawn().subrange(7 * j, 7 * j + 7)));
    lemma_bag_window(bag);
    let first = bag.window().subrange(0, 7);
    lemma_full_bag_no_duplicates(first);
    let part = bag.window().subrange(0, bag.cursor());
    assert forall|a: int, b: int| 0 <= a < part.len() && 0 <= b < part.len() && a != b implies part[a]
        != part[b] by {
        assert(part[a] == first[a] && part[b] == first[b]);
    }
}

} // verus!
