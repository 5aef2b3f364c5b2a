//! The queue of upcoming pieces, refilled one shuffled bag of all seven
//! shapes at a time.

use crate::piece::Piece;
use rand::rngs::StdRng;
use rand::seq::SliceRandom;
use rand::SeedableRng;
use vstd::prelude::*;

verus! {

#[verifier::external_type_specification]
#[verifier::external_body]
pub struct ExStdRng(StdRng);

/// Relies on rand's `SeedableRng::seed_from_u64`: a generator seeded from
/// the given number, which cannot fail. Nothing is known of its state.
#[verifier::external_body]
fn rng_from_seed(seed: u64) -> StdRng {
    StdRng::seed_from_u64(seed)
}

/// Relies on rand's `SliceRandom::shuffle`, which permutes the slice in
/// place by swaps, so the elements are kept and only their order changes.
#[verifier::external_body]
fn shuffle_pieces(v: &mut Vec<Piece>, rng: &mut StdRng)
    ensures
        final(v)@.to_multiset() == old(v)@.to_multiset(),
{
    v.shuffle(rng)
}

/// The seven shapes, each once.
pub open spec fn all_shapes() -> Seq<Piece> {
    seq![Piece::T, Piece::I, Piece::J, Piece::L, Piece::S, Piece::Z, Piece::O]
}

/// An ordering of the seven shapes.
pub open spec fn is_bag(s: Seq<Piece>) -> bool {
    s.to_multiset() == all_shapes().to_multiset()
}

/// The `k`-th whole bag of a queue: whole bags end at the back, so the
/// front holds what is left of an earlier bag.
pub open spec fn bag_window(q: Seq<Piece>, k: int) -> Seq<Piece> {
    q.subrange(q.len() % 7 + 7 * k, q.len() % 7 + 7 * k + 7)
}

/// The `k`-th run of seven pieces of a sequence, counted from its start.
pub open spec fn bag_at(e: Seq<Piece>, k: int) -> Seq<Piece> {
    e.subrange(7 * k, 7 * k + 7)
}

/// A sequence made of whole bags, one after the other.
pub open spec fn in_bags(e: Seq<Piece>) -> bool {
    &&& e.len() % 7 == 0
    &&& forall|k: int| 0 <= k < e.len() / 7 ==> is_bag(#[trigger] bag_at(e, k))
}

/// A bag holds each of the seven shapes exactly once, and no empty cell.
pub proof fn lemma_bag_shapes(s: Seq<Piece>)
    requires
        is_bag(s),
    ensures
        s.len() == 7,
        forall|p: Piece| p != Piece::Empty ==> #[trigger] s.to_multiset().count(p) == 1,
        forall|i: int| 0 <= i < s.len() ==> s[i] != Piece::Empty,
{
    broadcast use vstd::seq_lib::group_to_multiset_ensures;

    let a = all_shapes();
    s.to_multiset_ensures();
    a.to_multiset_ensures();
    assert(a.no_duplicates());
    a.lemma_multiset_has_no_duplicates();
    assert forall|p: Piece| p != Piece::Empty implies #[trigger] s.to_multiset().count(p) == 1 by {
        assert(a.contains(p)) by {
            match p {
                Piece::T => assert(a[0] == p),
                Piece::I => assert(a[1] == p),
                Piece::J => assert(a[2] == p),
                Piece::L => assert(a[3] == p),
                Piece::S => assert(a[4] == p),
                Piece::Z => assert(a[5] == p),
                Piece::O => assert(a[6] == p),
                Piece::Empty => {},
            }
        }
    }
    assert(!a.contains(Piece::Empty));
    assert(a.to_multiset().count(Piece::Empty) == 0);
    assert forall|i: int| 0 <= i < s.len() implies s[i] != Piece::Empty by {
        assert(s.contains(s[i]));
        assert(s.to_multiset().count(s[i]) > 0);
    }
}

/// `q1` is what `q0` becomes when its front is taken: where no more than one
/// bag was waiting, a shuffled bag is appended.
pub open spec fn popped(q0: Seq<Piece>, q1: Seq<Piece>) -> bool {
    &&& q0.len() > 7 ==> q1 == q0.drop_first()
    &&& q0.len() <= 7 ==> {
        &&& q1.len() == q0.len() + 6
        &&& q1.subrange(0, q0.len() - 1) == q0.drop_first()
        &&& is_bag(q1.subrange(q0.len() - 1, q1.len() as int))
    }
}

/// Upcoming pieces, taken from the front.
pub struct PieceQueue {
    pieces: Vec<Piece>,
    rng: StdRng,
    /// The pieces taken from the front so far, oldest first.
    dealt: Ghost<Seq<Piece>>,
}

impl View for PieceQueue {
    type V = Seq<Piece>;

    closed spec fn view(&self) -> Seq<Piece> {
        self.pieces@
    }
}

impl PieceQueue {
    /// The pieces taken from the front so far, oldest first.
    pub closed spec fn dealt(&self) -> Seq<Piece> {
        self.dealt@
    }

    /// At least one bag is waiting, no entry is empty, and the queue ends
    /// in whole bags.
    pub open spec fn wf(&self) -> bool {
        &&& 7 <= self@.len() <= 14
        &&& forall|i: int| 0 <= i < self@.len() ==> self@[i] != Piece::Empty
        &&& forall|k: int| 0 <= k < self@.len() / 7 ==> is_bag(#[trigger] bag_window(self@, k))
        &&& in_bags(self.dealt() + self@)
    }

    /// Appends a shuffled bag.
    fn add_bag(&mut self)
        requires
            forall|k: int| 0 <= k < old(self)@.len() / 7 ==> is_bag(#[trigger] bag_window(old(self)@, k)),
            in_bags(old(self).dealt() + old(self)@),
            old(self)@.len() < 1000,
        ensures
            final(self).dealt() == old(self).dealt(),
            in_bags(final(self).dealt() + final(self)@),
            final(self)@.len() == old(self)@.len() + 7,
            final(self)@.subrange(0, old(self)@.len() as int) == old(self)@,
            is_bag(final(self)@.subrange(old(self)@.len() as int, final(self)@.len() as int)),
            forall|k: int| 0 <= k < final(self)@.len() / 7 ==> is_bag(#[trigger] bag_window(final(self)@, k)),
    {
        let mut bag: Vec<Piece> = Vec::new();
        bag.push(Piece::T);
        bag.push(Piece::I);
        bag.push(Piece::J);
        bag.push(Piece::L);
        bag.push(Piece::S);
        bag.push(Piece::Z);
        bag.push(Piece::O);
        assert(bag@ =~= all_shapes());
        shuffle_pieces(&mut bag, &mut self.rng);
        let ghost q = self.pieces@;
        let ghost b = bag@;
        proof {
            b.to_multiset_ensures();
            all_shapes().to_multiset_ensures();
            assert(b.len() == 7);
        }
        self.pieces.append(&mut bag);
        proof {
            let n = q.len() as int;
            let q2 = self.pieces@;
            assert(q2 == q + b);
            assert(q2.len() % 7 == n % 7);
            assert(q2.len() / 7 == n / 7 + 1);
            assert forall|k: int| 0 <= k < q2.len() / 7 implies is_bag(#[trigger] bag_window(q2, k)) by {
                if k < n / 7 {
                    assert(bag_window(q2, k) =~= bag_window(q, k));
                } else {
                    assert(n % 7 + 7 * k == n);
                    assert(bag_window(q2, k) =~= b);
                }
            }
            assert(q2.subrange(0, n) =~= q);
            assert(q2.subrange(n, q2.len() as int) =~= b);
            let d = self.dealt@;
            let e = d + q;
            let e2 = d + q2;
            assert(e2 =~= e + b);
            assert(e2.len() / 7 == e.len() / 7 + 1);
            assert forall|k: int| 0 <= k < e2.len() / 7 implies is_bag(#[trigger] bag_at(e2, k)) by {
                if k < e.len() / 7 {
                    assert(bag_at(e2, k) =~= bag_at(e, k));
                } else {
                    assert(bag_at(e2, k) =~= b);
                }
            }
        }
    }

    /// A queue of two shuffled bags, with a generator seeded from `seed`.
    pub fn new(seed: u64) -> (q: PieceQueue)
        ensures
            q.wf(),
            q@.len() == 14,
            q.dealt() == Seq::<Piece>::empty(),
    {
        let mut q = PieceQueue { pieces: Vec::new(), rng: rng_from_seed(seed), dealt: Ghost(Seq::empty()) };
        proof {
            assert(q.dealt() + q@ =~= seq![]);
        }
        q.add_bag();
        q.add_bag();
        proof {
            let s = q@;
            lemma_bag_shapes(bag_window(s, 0));
            lemma_bag_shapes(bag_window(s, 1));
            assert forall|i: int| 0 <= i < s.len() implies s[i] != Piece::Empty by {
                if i < 7 {
                    assert(s[i] == bag_window(s, 0)[i]);
                } else {
                    assert(s[i] == bag_window(s, 1)[i - 7]);
                }
            }
        }
        q
    }

    /// Takes the piece at the front. When no more than one bag is waiting,
    /// a shuffled bag is appended first, so at least one stays.
    pub fn pop_next(&mut self) -> (r: Piece)
        requires
            old(self).wf(),
        ensures
            final(self).wf(),
            r == old(self)@[0],
            r != Piece::Empty,
            popped(old(self)@, final(self)@),
            final(self).dealt() == old(self).dealt().push(r),
    {
        let ghost q0 = self@;
        if self.pieces.len() <= 7 {
            self.add_bag();
            proof {
                let q1 = self@;
                let b = q1.subrange(q0.len() as int, q1.len() as int);
                lemma_bag_shapes(b);
                assert forall|i: int| 0 <= i < q1.len() implies q1[i] != Piece::Empty by {
                    if i < q0.len() {
                        assert(q1[i] == q1.subrange(0, q0.len() as int)[i]);
                    } else {
                        assert(q1[i] == b[i - q0.len()]);
                    }
                }
            }
        }
        let ghost q1 = self@;
        let r = self.pieces.remove(0);
        proof {
            self.dealt@ = self.dealt@.push(r);
        }
        proof {
            assert(self.dealt@ + self.pieces@ =~= old(self).dealt@ + q1);
            let q2 = self@;
            let n = q1.len() as int;
            assert(q2 =~= q1.drop_first());
            assert forall|k: int| 0 <= k < q2.len() / 7 implies is_bag(#[trigger] bag_window(q2, k)) by {
                if n % 7 == 0 {
                    assert(bag_window(q2, k) =~= bag_window(q1, k + 1));
                } else {
                    assert(bag_window(q2, k) =~= bag_window(q1, k));
                }
            }
            if q0.len() <= 7 {
                assert(q2.subrange(0, q0.len() - 1) =~= q0.drop_first());
                assert(q2.subrange(q0.len() - 1, q2.len() as int) =~= q1.subrange(
                    q0.len() as int,
                    q1.len() as int,
                ));
            }
        }
        r
    }

    /// Up to `n` upcoming pieces, front first; fewer when fewer are waiting.
    pub fn preview(&self, n: usize) -> (r: Vec<Piece>)
        ensures
            r@ == self@.take(if n < self@.len() { n as int } else { self@.len() as int }),
    {
        let mut r: Vec<Piece> = Vec::new();
        let mut i: usize = 0;
        while i < n && i < self.pieces.len()
            invariant
                i <= n,
                i <= self@.len(),
                r@ == self@.take(i as int),
            decreases n - i,
        {
            r.push(self.pieces[i]);
            i = i + 1;
            assert(r@ =~= self@.take(i as int));
        }
        r
    }
}

} // verus!
