//! Strict total orders on the mathematical keys of the library's values, and the
//! executable comparisons that decide them.
//!
//! Every collection that has to be canonical (a shape's table list, the catalog
//! of shapes, the set of key digests) is kept as a vector whose keys strictly
//! increase. The order is built up from the orders of integers and characters,
//! pairs being compared field by field and sequences lexicographically.

use vstd::prelude::*;

verus! {

/// A strict total order on a type of mathematical values.
pub trait StrictOrder: Sized {
    /// `self` comes strictly before `other`.
    spec fn before(self, other: Self) -> bool;

    /// Nothing comes before itself.
    proof fn lemma_irreflexive(a: Self)
        ensures
            !a.before(a),
    ;

    /// The order is transitive.
    proof fn lemma_transitive(a: Self, b: Self, c: Self)
        requires
            a.before(b),
            b.before(c),
        ensures
            a.before(c),
    ;

    /// Two different values are ordered one way or the other.
    proof fn lemma_connected(a: Self, b: Self)
        ensures
            a == b || a.before(b) || b.before(a),
    ;
}

impl StrictOrder for u32 {
    open spec fn before(self, other: u32) -> bool {
        self < other
    }

    proof fn lemma_irreflexive(a: u32) {
    }

    proof fn lemma_transitive(a: u32, b: u32, c: u32) {
    }

    proof fn lemma_connected(a: u32, b: u32) {
    }
}

impl StrictOrder for usize {
    open spec fn before(self, other: usize) -> bool {
        self < other
    }

    proof fn lemma_irreflexive(a: usize) {
    }

    proof fn lemma_transitive(a: usize, b: usize, c: usize) {
    }

    proof fn lemma_connected(a: usize, b: usize) {
    }
}

/// Characters are ordered by code point.
impl StrictOrder for char {
    open spec fn before(self, other: char) -> bool {
        (self as u32) < (other as u32)
    }

    proof fn lemma_irreflexive(a: char) {
    }

    proof fn lemma_transitive(a: char, b: char, c: char) {
    }

    proof fn lemma_connected(a: char, b: char) {
        vstd::utf8::char_u32_cast(a, a as u32);
        vstd::utf8::char_u32_cast(b, b as u32);
    }
}

/// Pairs are ordered by their first field, then by their second.
impl<A: StrictOrder, B: StrictOrder> StrictOrder for (A, B) {
    open spec fn before(self, other: (A, B)) -> bool {
        self.0.before(other.0) || (self.0 == other.0 && self.1.before(other.1))
    }

    proof fn lemma_irreflexive(a: (A, B)) {
        A::lemma_irreflexive(a.0);
        B::lemma_irreflexive(a.1);
    }

    proof fn lemma_transitive(a: (A, B), b: (A, B), c: (A, B)) {
        if a.0.before(b.0) && b.0.before(c.0) {
            A::lemma_transitive(a.0, b.0, c.0);
        }
        if a.1.before(b.1) && b.1.before(c.1) {
            B::lemma_transitive(a.1, b.1, c.1);
        }
    }

    proof fn lemma_connected(a: (A, B), b: (A, B)) {
        A::lemma_connected(a.0, b.0);
        B::lemma_connected(a.1, b.1);
    }
}

/// Sequences are ordered lexicographically; a proper prefix comes first.
impl<A: StrictOrder> StrictOrder for Seq<A> {
    open spec fn before(self, other: Seq<A>) -> bool
        decreases self.len(),
    {
        if other.len() == 0 {
            false
        } else if self.len() == 0 {
            true
        } else if self[0].before(other[0]) {
            true
        } else if self[0] == other[0] {
            self.skip(1).before(other.skip(1))
        } else {
            false
        }
    }

    proof fn lemma_irreflexive(a: Seq<A>)
        decreases a.len(),
    {
        if a.len() > 0 {
            A::lemma_irreflexive(a[0]);
            Self::lemma_irreflexive(a.skip(1));
        }
    }

    proof fn lemma_transitive(a: Seq<A>, b: Seq<A>, c: Seq<A>)
        decreases a.len(),
    {
        if a.len() > 0 {
            A::lemma_irreflexive(b[0]);
            if a[0].before(b[0]) && b[0].before(c[0]) {
                A::lemma_transitive(a[0], b[0], c[0]);
            }
            if a[0] == b[0] && b[0] == c[0] {
                Self::lemma_transitive(a.skip(1), b.skip(1), c.skip(1));
            }
        }
    }

    proof fn lemma_connected(a: Seq<A>, b: Seq<A>)
        decreases a.len(),
    {
        if a.len() > 0 && b.len() > 0 {
            A::lemma_connected(a[0], b[0]);
            if a[0] == b[0] {
                Self::lemma_connected(a.skip(1), b.skip(1));
                if a.skip(1) == b.skip(1) {
                    assert(a =~= seq![a[0]] + a.skip(1));
                    assert(b =~= seq![b[0]] + b.skip(1));
                }
            }
        } else if a.len() == 0 && b.len() == 0 {
            assert(a =~= b);
        }
    }
}

/// A value cannot come before one that comes before it.
pub proof fn lemma_asymmetric<K: StrictOrder>(a: K, b: K)
    requires
        a.before(b),
    ensures
        !b.before(a),
        a != b,
{
    K::lemma_irreflexive(a);
    if b.before(a) {
        K::lemma_transitive(a, b, a);
    }
}

/// Where two sequences agree on their first `i` items, their order is the order
/// of what follows.
pub proof fn lemma_before_after_common_prefix<A: StrictOrder>(a: Seq<A>, b: Seq<A>, i: int)
    requires
        0 <= i <= a.len(),
        i <= b.len(),
        forall|j: int| 0 <= j < i ==> a[j] == b[j],
    ensures
        a.before(b) == a.skip(i).before(b.skip(i)),
    decreases i,
{
    if i == 0 {
        assert(a.skip(0) =~= a);
        assert(b.skip(0) =~= b);
    } else {
        A::lemma_irreflexive(a[0]);
        assert forall|j: int| 0 <= j < i - 1 implies a.skip(1)[j] == b.skip(1)[j] by {
            assert(a[j + 1] == b[j + 1]);
        }
        lemma_before_after_common_prefix(a.skip(1), b.skip(1), i - 1);
        assert(a.skip(1).skip(i - 1) =~= a.skip(i));
        assert(b.skip(1).skip(i - 1) =~= b.skip(i));
    }
}

/// An executable value that is ordered by a mathematical key.
pub trait Keyed: Sized {
    /// The key's type.
    type Key: StrictOrder;

    /// The key by which the value is ordered and told apart.
    spec fn key(&self) -> Self::Key;

    /// Whether `self` comes strictly before `other`.
    fn precedes(&self, other: &Self) -> (r: bool)
        ensures
            r == self.key().before(other.key()),
    ;
}

/// The keys of a sequence of values, in order.
pub open spec fn keys<T: Keyed>(s: Seq<T>) -> Seq<T::Key> {
    Seq::new(s.len(), |i: int| s[i].key())
}

impl Keyed for usize {
    type Key = usize;

    open spec fn key(&self) -> usize {
        *self
    }

    fn precedes(&self, other: &usize) -> (r: bool) {
        assert(self.key().before(other.key()) == (*self < *other));
        *self < *other
    }
}

/// Strings are ordered as their sequences of characters.
impl Keyed for String {
    type Key = Seq<char>;

    open spec fn key(&self) -> Seq<char> {
        self@
    }

    fn precedes(&self, other: &String) -> (r: bool) {
        let a = self.as_str();
        let b = other.as_str();
        assert(self.key().before(other.key()) == a@.before(b@));
        let n = a.unicode_len();
        let m = b.unicode_len();
        let mut i: usize = 0;
        while i < n && i < m
            invariant
                a@ == self@,
                b@ == other@,
                self.key().before(other.key()) == a@.before(b@),
                n == a@.len(),
                m == b@.len(),
                i <= n,
                i <= m,
                forall|j: int| 0 <= j < i ==> a@[j] == b@[j],
            decreases n - i,
        {
            let x = a.get_char(i);
            let y = b.get_char(i);
            proof {
                lemma_before_after_common_prefix(a@, b@, i as int);
                if x.before(y) {
                    lemma_asymmetric(x, y);
                }
                if y.before(x) {
                    lemma_asymmetric(y, x);
                }
                char::lemma_connected(x, y);
            }
            if (x as u32) < (y as u32) {
                return true;
            }
            if (y as u32) < (x as u32) {
                return false;
            }
            i = i + 1;
        }
        proof {
            lemma_before_after_common_prefix(a@, b@, i as int);
        }
        n < m
    }
}

impl<A: Keyed, B: Keyed> Keyed for (A, B) {
    type Key = (A::Key, B::Key);

    open spec fn key(&self) -> (A::Key, B::Key) {
        (self.0.key(), self.1.key())
    }

    fn precedes(&self, other: &(A, B)) -> (r: bool) {
        proof {
            A::Key::lemma_connected(self.0.key(), other.0.key());
            if self.0.key().before(other.0.key()) {
                lemma_asymmetric(self.0.key(), other.0.key());
            }
            if other.0.key().before(self.0.key()) {
                lemma_asymmetric(other.0.key(), self.0.key());
            }
        }
        assert(self.key().before(other.key()) == (self.0.key().before(other.0.key()) || (
            self.0.key() == other.0.key() && self.1.key().before(other.1.key()))));
        if self.0.precedes(&other.0) {
            true
        } else if other.0.precedes(&self.0) {
            false
        } else {
            self.1.precedes(&other.1)
        }
    }
}

impl<T: Keyed> Keyed for Vec<T> {
    type Key = Seq<T::Key>;

    open spec fn key(&self) -> Seq<T::Key> {
        keys(self@)
    }

    fn precedes(&self, other: &Vec<T>) -> (r: bool) {
        let n = self.len();
        let m = other.len();
        let ghost a = keys(self@);
        let ghost b = keys(other@);
        assert(self.key().before(other.key()) == a.before(b));
        let mut i: usize = 0;
        while i < n && i < m
            invariant
                n == self@.len(),
                m == other@.len(),
                a == keys(self@),
                b == keys(other@),
                self.key().before(other.key()) == a.before(b),
                a.len() == n,
                b.len() == m,
                i <= n,
                i <= m,
                forall|j: int| 0 <= j < i ==> a[j] == b[j],
            decreases n - i,
        {
            proof {
                assert(a[i as int] == self@[i as int].key());
                assert(b[i as int] == other@[i as int].key());
                lemma_before_after_common_prefix(a, b, i as int);
                if a[i as int].before(b[i as int]) {
                    lemma_asymmetric(a[i as int], b[i as int]);
                }
                if b[i as int].before(a[i as int]) {
                    lemma_asymmetric(b[i as int], a[i as int]);
                }
                T::Key::lemma_connected(a[i as int], b[i as int]);
            }
            if self[i].precedes(&other[i]) {
                return true;
            }
            if other[i].precedes(&self[i]) {
                return false;
            }
            i = i + 1;
        }
        proof {
            lemma_before_after_common_prefix(a, b, i as int);
        }
        n < m
    }
}

impl<T: Keyed, const N: usize> Keyed for [T; N] {
    type Key = Seq<T::Key>;

    open spec fn key(&self) -> Seq<T::Key> {
        keys(self@)
    }

    fn precedes(&self, other: &[T; N]) -> (r: bool) {
        let ghost a = keys(self@);
        let ghost b = keys(other@);
        assert(self.key().before(other.key()) == a.before(b));
        let mut i: usize = 0;
        while i < N
            invariant
                a == keys(self@),
                b == keys(other@),
                self.key().before(other.key()) == a.before(b),
                a.len() == N,
                b.len() == N,
                i <= N,
                forall|j: int| 0 <= j < i ==> a[j] == b[j],
            decreases N - i,
        {
            proof {
                assert(a[i as int] == self@[i as int].key());
                assert(b[i as int] == other@[i as int].key());
                lemma_before_after_common_prefix(a, b, i as int);
                if a[i as int].before(b[i as int]) {
                    lemma_asymmetric(a[i as int], b[i as int]);
                }
                if b[i as int].before(a[i as int]) {
                    lemma_asymmetric(b[i as int], a[i as int]);
                }
                T::Key::lemma_connected(a[i as int], b[i as int]);
            }
            if self[i].precedes(&other[i]) {
                return true;
            }
            if other[i].precedes(&self[i]) {
                return false;
            }
            i = i + 1;
        }
        proof {
            lemma_before_after_common_prefix(a, b, i as int);
        }
        false
    }
}

} // verus!
