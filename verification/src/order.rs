//! The order on paths: byte strings compare byte by byte, what a component is ordered by compares
//! byte string by byte string, and paths compare component by component.
use vstd::prelude::*;

verus! {

/// Where one value stands relative to another.
#[derive(Clone, Copy, Debug, PartialEq, Eq, Structural)]
pub enum Rank {
    Less,
    Equal,
    Greater,
}

/// `lt` is a strict total order.
pub open spec fn strict_total<T>(lt: spec_fn(T, T) -> bool) -> bool {
    &&& forall|a: T| !#[trigger] lt(a, a)
    &&& forall|a: T, b: T| a != b ==> #[trigger] lt(a, b) || lt(b, a)
    &&& forall|a: T, b: T, c: T| #[trigger] lt(a, b) && #[trigger] lt(b, c) ==> lt(a, c)
}

/// `a` and `b` agree before position `i`; there `a` ends, or has the smaller element.
pub open spec fn decided_at<T>(lt: spec_fn(T, T) -> bool, a: Seq<T>, b: Seq<T>, i: int) -> bool {
    &&& 0 <= i <= a.len()
    &&& i < b.len()
    &&& forall|j: int| 0 <= j < i ==> #[trigger] a[j] == b[j]
    &&& i == a.len() || lt(a[i], b[i])
}

/// The lexicographic order that `lt` induces on sequences.
pub open spec fn lex_lt<T>(lt: spec_fn(T, T) -> bool, a: Seq<T>, b: Seq<T>) -> bool {
    exists|i: int| decided_at(lt, a, b, i)
}

/// The lexicographic order that `lt` induces, as a relation.
pub open spec fn lexicographic<T>(lt: spec_fn(T, T) -> bool) -> spec_fn(Seq<T>, Seq<T>) -> bool {
    |a: Seq<T>, b: Seq<T>| lex_lt(lt, a, b)
}

/// What a component of a path is ordered by: byte strings, the first of which weighs most.
pub type Parts = Seq<Seq<u8>>;

/// The order on bytes.
pub open spec fn byte_lt() -> spec_fn(u8, u8) -> bool {
    |a: u8, b: u8| a < b
}

/// The order on byte strings.
pub open spec fn bytes_lt() -> spec_fn(Seq<u8>, Seq<u8>) -> bool {
    lexicographic(byte_lt())
}

/// The order on components.
pub open spec fn parts_lt() -> spec_fn(Parts, Parts) -> bool {
    lexicographic(bytes_lt())
}

/// The order on paths.
pub open spec fn before(a: Seq<Parts>, b: Seq<Parts>) -> bool {
    lex_lt(parts_lt(), a, b)
}

/// The rank that an order gives `a` relative to `b`.
pub open spec fn rank_in<T>(lt: spec_fn(T, T) -> bool, a: T, b: T) -> Rank {
    if a == b {
        Rank::Equal
    } else if lt(a, b) {
        Rank::Less
    } else {
        Rank::Greater
    }
}

/// The rank that `before` gives `a` relative to `b`.
pub open spec fn rank_of(a: Seq<Parts>, b: Seq<Parts>) -> Rank {
    rank_in(lexicographic(parts_lt()), a, b)
}

/// Two distinct sequences differ at a first position.
proof fn lemma_first_difference<T>(a: Seq<T>, b: Seq<T>) -> (i: int)
    requires
        a != b,
    ensures
        0 <= i <= a.len(),
        i <= b.len(),
        forall|j: int| 0 <= j < i ==> #[trigger] a[j] == b[j],
        i < a.len() || i < b.len(),
        i < a.len() && i < b.len() ==> a[i] != b[i],
    decreases a.len(),
{
    if a.len() == 0 || b.len() == 0 {
        assert(a.len() == 0 && b.len() == 0 ==> a =~= b);
        0
    } else if a[0] != b[0] {
        0
    } else {
        if a.drop_first() == b.drop_first() {
            assert(a =~= seq![a[0]] + a.drop_first());
            assert(b =~= seq![b[0]] + b.drop_first());
        }
        let k = lemma_first_difference(a.drop_first(), b.drop_first());
        assert forall|j: int| 0 <= j < k + 1 implies #[trigger] a[j] == b[j] by {
            if j > 0 {
                assert(a.drop_first()[j - 1] == b.drop_first()[j - 1]);
            }
        }
        k + 1
    }
}

/// A strict total order on elements induces a strict total order on sequences.
pub proof fn lemma_lex_strict_total<T>(lt: spec_fn(T, T) -> bool)
    requires
        strict_total(lt),
    ensures
        strict_total(lexicographic(lt)),
{
    let lex = lexicographic(lt);
    assert forall|a: Seq<T>| !#[trigger] lex(a, a) by {
        if lex_lt(lt, a, a) {
            let i = choose|i: int| decided_at(lt, a, a, i);
            assert(!lt(a[i], a[i]));
        }
    }
    assert forall|a: Seq<T>, b: Seq<T>| a != b implies #[trigger] lex(a, b) || lex(b, a) by {
        let i = lemma_first_difference(a, b);
        assert(forall|j: int| 0 <= j < i ==> #[trigger] b[j] == a[j]);
        if i < a.len() && i < b.len() {
            assert(lt(a[i], b[i]) || lt(b[i], a[i]));
        }
        assert(decided_at(lt, a, b, i) || decided_at(lt, b, a, i));
    }
    assert forall|a: Seq<T>, b: Seq<T>, c: Seq<T>| #[trigger] lex(a, b) && #[trigger] lex(b, c)
        implies lex(a, c) by {
        let i = choose|i: int| decided_at(lt, a, b, i);
        let k = choose|k: int| decided_at(lt, b, c, k);
        let m = if i < k { i } else { k };
        assert forall|j: int| 0 <= j < m implies #[trigger] a[j] == c[j] by {
            assert(a[j] == b[j]);
            assert(b[j] == c[j]);
        }
        if i < k {
            assert(b[i] == c[i]);
        } else if k < i {
            assert(a[k] == b[k]);
        } else if i < a.len() {
            assert(lt(a[i], b[i]) && lt(b[i], c[i]));
        }
        assert(decided_at(lt, a, c, m));
    }
}

/// The orders on byte strings, on components and on paths are strict and total.
pub proof fn lemma_strict_total()
    ensures
        strict_total(bytes_lt()),
        strict_total(parts_lt()),
        strict_total(lexicographic(parts_lt())),
{
    assert(strict_total(byte_lt()));
    lemma_lex_strict_total(byte_lt());
    lemma_lex_strict_total(bytes_lt());
    lemma_lex_strict_total(parts_lt());
}

/// No path comes before itself.
pub proof fn lemma_before_irreflexive(a: Seq<Parts>)
    ensures
        !before(a, a),
{
    lemma_strict_total();
    let lt = lexicographic(parts_lt());
    assert(!lt(a, a));
}

/// `before` is transitive.
pub proof fn lemma_before_transitive(a: Seq<Parts>, b: Seq<Parts>, c: Seq<Parts>)
    requires
        before(a, b),
        before(b, c),
    ensures
        before(a, c),
{
    lemma_strict_total();
    let lt = lexicographic(parts_lt());
    assert(lt(a, b) && lt(b, c));
    assert(lt(a, c));
}

/// Of two distinct paths one comes before the other.
pub proof fn lemma_before_total(a: Seq<Parts>, b: Seq<Parts>)
    requires
        a != b,
    ensures
        before(a, b) || before(b, a),
{
    lemma_strict_total();
    let lt = lexicographic(parts_lt());
    assert(lt(a, b) || lt(b, a));
}

/// A proper prefix comes before what it is a prefix of.
pub proof fn lemma_prefix_before(a: Seq<Parts>, b: Seq<Parts>)
    requires
        a.is_prefix_of(b),
        a != b,
    ensures
        before(a, b),
{
    if a.len() == b.len() {
        assert(a =~= b);
    }
    assert forall|j: int| 0 <= j < a.len() implies #[trigger] a[j] == b[j] by {
        assert(b.subrange(0, a.len() as int)[j] == b[j]);
    }
    assert(decided_at(parts_lt(), a, b, a.len() as int));
}

/// The first position at which two sequences differ decides their rank.
pub proof fn lemma_rank_at<T>(lt: spec_fn(T, T) -> bool, a: Seq<T>, b: Seq<T>, i: int)
    requires
        strict_total(lt),
        0 <= i <= a.len(),
        i <= b.len(),
        forall|j: int| 0 <= j < i ==> #[trigger] a[j] == b[j],
        i < a.len() && i < b.len() ==> a[i] != b[i],
    ensures
        rank_in(lexicographic(lt), a, b) == (if i == a.len() && i == b.len() {
            Rank::Equal
        } else if i == a.len() {
            Rank::Less
        } else if i == b.len() {
            Rank::Greater
        } else {
            rank_in(lt, a[i], b[i])
        }),
{
    assert(forall|j: int| 0 <= j < i ==> #[trigger] b[j] == a[j]);
    if i == a.len() && i == b.len() {
        assert(a =~= b);
    } else {
        lemma_lex_strict_total(lt);
        let lex = lexicographic(lt);
        assert(!lex(a, a));
        if i < a.len() && i < b.len() {
            assert(lt(a[i], b[i]) || lt(b[i], a[i]));
            assert(lt(a[i], b[i]) && lt(b[i], a[i]) ==> lt(a[i], a[i]));
        }
        if i == a.len() || (i < b.len() && lt(a[i], b[i])) {
            assert(decided_at(lt, a, b, i));
            assert(lex(a, b));
        } else {
            assert(decided_at(lt, b, a, i));
            assert(lex(b, a));
            assert(lex(a, b) ==> lex(a, a));
        }
    }
}

/// Compares two byte strings.
pub fn compare_bytes(a: &[u8], b: &[u8]) -> (rank: Rank)
    ensures
        rank == rank_in(bytes_lt(), a@, b@),
{
    let mut i: usize = 0;
    while i < a.len() && i < b.len() && a[i] == b[i]
        invariant
            i <= a@.len(),
            i <= b@.len(),
            forall|j: int| 0 <= j < i ==> #[trigger] a@[j] == b@[j],
        decreases a@.len() - i,
    {
        i = i + 1;
    }
    proof {
        lemma_rank_at(byte_lt(), a@, b@, i as int);
    }
    if i < a.len() && i < b.len() {
        if a[i] < b[i] {
            Rank::Less
        } else {
            Rank::Greater
        }
    } else if i < b.len() {
        Rank::Less
    } else if i < a.len() {
        Rank::Greater
    } else {
        Rank::Equal
    }
}

} // verus!
