//! Ordered values: lists in ascending order, with and without repetitions.

use crate::tag::{tag_eq, tag_lt, TagV, TagValue};
use crate::text::{text_le, text_lt, text_lt_irreflexive, text_lt_total, text_lt_transitive, texts};
use vstd::prelude::*;

verus! {

/// Values with a strict weak order on what they stand for.
pub trait Ordered: Sized {
    /// What a value stands for.
    type M;

    spec fn model(&self) -> Self::M;

    /// Strictly before.
    spec fn lt(a: Self::M, b: Self::M) -> bool;

    /// Nothing is before what is before it.
    proof fn asymmetric(a: Self::M, b: Self::M)
        ensures
            Self::lt(a, b) ==> !Self::lt(b, a),
    ;

    /// Whatever stands between two ordered values is ordered with one of them.
    proof fn comparable(a: Self::M, b: Self::M, c: Self::M)
        ensures
            Self::lt(a, c) ==> Self::lt(a, b) || Self::lt(b, c),
    ;

    fn before(&self, other: &Self) -> (r: bool)
        ensures
            r == Self::lt(self.model(), other.model()),
    ;
}

/// Neither is before the other.
pub open spec fn level<T: Ordered>(a: T::M, b: T::M) -> bool {
    !T::lt(a, b) && !T::lt(b, a)
}

pub open spec fn models<T: Ordered>(v: Seq<T>) -> Seq<T::M> {
    Seq::new(v.len(), |i: int| v[i].model())
}

/// Strictly ascending: each stands before all that follow it.
pub open spec fn strictly_ascending<T: Ordered>(s: Seq<T::M>) -> bool {
    forall|i: int, j: int| 0 <= i < j < s.len() ==> T::lt(#[trigger] s[i], #[trigger] s[j])
}

/// Ascending, with repetitions: none stands after one that is before it.
pub open spec fn ascending<T: Ordered>(s: Seq<T::M>) -> bool {
    forall|i: int, j: int| 0 <= i < j < s.len() ==> !T::lt(#[trigger] s[j], #[trigger] s[i])
}

/// Is there a member level with `m`?
pub open spec fn member<T: Ordered>(s: Seq<T::M>, m: T::M) -> bool {
    exists|i: int| 0 <= i < s.len() && level::<T>(#[trigger] s[i], m)
}

/// The members of two lists are the same.
pub open spec fn same_members<T: Ordered>(a: Seq<T::M>, b: Seq<T::M>) -> bool {
    forall|m: T::M| #[trigger] member::<T>(a, m) == member::<T>(b, m)
}

/// The strict order chains.
pub proof fn lt_transitive<T: Ordered>(a: T::M, b: T::M, c: T::M)
    ensures
        T::lt(a, b) && T::lt(b, c) ==> T::lt(a, c),
        level::<T>(a, b) && T::lt(b, c) ==> T::lt(a, c),
        T::lt(a, b) && level::<T>(b, c) ==> T::lt(a, c),
        level::<T>(a, b) && level::<T>(b, c) ==> level::<T>(a, c),
        !T::lt(b, a) && !T::lt(c, b) ==> !T::lt(c, a),
{
    T::comparable(a, c, b);
    T::comparable(b, a, c);
    T::comparable(a, b, c);
    T::comparable(c, b, a);
    T::asymmetric(b, c);
    T::asymmetric(a, b);
    T::asymmetric(a, c);
}

/// Nothing is below itself.
pub proof fn lt_irreflexive<T: Ordered>(a: T::M)
    ensures
        !T::lt(a, a),
{
    T::asymmetric(a, a);
}

/// Strictly ascending lists of the same members are the same list.
pub proof fn strictly_ascending_lists_agree<T: Ordered>(x: Seq<T::M>, y: Seq<T::M>)
    requires
        strictly_ascending::<T>(x),
        strictly_ascending::<T>(y),
        forall|i: int| 0 <= i < x.len() ==> y.contains(#[trigger] x[i]),
        forall|i: int| 0 <= i < y.len() ==> x.contains(#[trigger] y[i]),
    ensures
        x == y,
    decreases x.len(),
{
    if x.len() == 0 {
        if y.len() > 0 {
            assert(x.contains(y[0]));
        }
        assert(x =~= y);
    } else {
        assert(y.contains(x[0]));
        assert(x.contains(y[0]));
        let i = choose|i: int| 0 <= i < x.len() && x[i] == y[0];
        let j = choose|j: int| 0 <= j < y.len() && y[j] == x[0];
        T::asymmetric(x[0], y[0]);
        if i > 0 && j > 0 {
            assert(T::lt(x[0], x[i]));
            assert(T::lt(y[0], y[j]));
        }
        assert(x[0] == y[0]);
        let (c, d) = (x.drop_first(), y.drop_first());
        lt_irreflexive::<T>(x[0]);
        assert forall|i: int| 0 <= i < c.len() implies d.contains(#[trigger] c[i]) by {
            assert(y.contains(x[i + 1]));
            let k = choose|k: int| 0 <= k < y.len() && y[k] == x[i + 1];
            assert(T::lt(x[0], x[i + 1]));
            assert(d[k - 1] == c[i]);
        }
        assert forall|i: int| 0 <= i < d.len() implies c.contains(#[trigger] d[i]) by {
            assert(x.contains(y[i + 1]));
            let k = choose|k: int| 0 <= k < x.len() && x[k] == y[i + 1];
            assert(T::lt(y[0], y[i + 1]));
            assert(c[k - 1] == d[i]);
        }
        strictly_ascending_lists_agree::<T>(c, d);
        assert(x =~= seq![x[0]] + c);
        assert(y =~= seq![y[0]] + d);
    }
}

/// What stands later in an ascending list is not before what stands earlier.
pub proof fn later_is_not_before<T: Ordered>(s: Seq<T::M>, i: int, j: int)
    requires
        ascending::<T>(s),
        0 <= i < j < s.len(),
    ensures
        !T::lt(s[j], s[i]),
{
}

/// Each value of a list is a member of it.
pub proof fn each_is_member<T: Ordered>(s: Seq<T::M>, i: int)
    requires
        0 <= i < s.len(),
    ensures
        member::<T>(s, s[i]),
{
    lt_irreflexive::<T>(s[i]);
    assert(level::<T>(s[i], s[i]));
}

/// Where a member stands.
pub proof fn place_of_member<T: Ordered>(s: Seq<T::M>, m: T::M) -> (i: int)
    requires
        member::<T>(s, m),
    ensures
        0 <= i < s.len(),
        level::<T>(s[i], m),
{
    choose|i: int| 0 <= i < s.len() && level::<T>(#[trigger] s[i], m)
}

/// The first position from which on nothing is before `m`, in an ascending list.
proof fn place_holds<T: Ordered>(s: Seq<T::M>, m: T::M, at: int)
    requires
        ascending::<T>(s),
        0 <= at <= s.len(),
        at < s.len() ==> !T::lt(s[at], m),
    ensures
        forall|i: int| at <= i < s.len() ==> !T::lt(#[trigger] s[i], m),
{
    assert forall|i: int| at <= i < s.len() implies !T::lt(#[trigger] s[i], m) by {
        if i > at {
            assert(!T::lt(s[i], s[at]));
            lt_transitive::<T>(m, s[at], s[i]);
        }
    }
}

/// Put a value into an ascending list without repetitions; one that is level with
/// a member is dropped.
pub fn add_distinct<T: Ordered>(v: &mut Vec<T>, x: T)
    requires
        strictly_ascending::<T>(models(old(v)@)),
    ensures
        strictly_ascending::<T>(models(final(v)@)),
        forall|m: T::M|
            #[trigger] member::<T>(models(final(v)@), m) == (member::<T>(models(old(v)@), m) || level::<T>(
                x.model(),
                m,
            )),
{
    let ghost s = models(v@);
    let ghost xm = x.model();
    assert(ascending::<T>(s)) by {
        assert forall|i: int, j: int| 0 <= i < j < s.len() implies !T::lt(
            #[trigger] s[j],
            #[trigger] s[i],
        ) by {
            T::asymmetric(s[i], s[j]);
        }
    }
    let mut at: usize = 0;
    while at < v.len() && v[at].before(&x)
        invariant
            at <= v@.len(),
            s == models(v@),
            xm == x.model(),
            forall|i: int| 0 <= i < at ==> T::lt(#[trigger] s[i], xm),
        decreases v@.len() - at,
    {
        assert(s[at as int] == v@[at as int].model());
        at = at + 1;
    }
    proof {
        if at < v@.len() {
            assert(s[at as int] == v@[at as int].model());
        }
        place_holds::<T>(s, xm, at as int);
    }
    if at < v.len() && !x.before(&v[at]) {
        proof {
            assert forall|m: T::M| #[trigger] member::<T>(s, m) == (member::<T>(s, m) || level::<T>(
                xm,
                m,
            )) by {
                if level::<T>(xm, m) {
                    lt_transitive::<T>(s[at as int], xm, m);
                    assert(level::<T>(s[at as int], m));
                }
            }
        }
        return;
    }
    v.insert(at, x);
    proof {
        let f = models(v@);
        assert(f =~= s.insert(at as int, xm));
        assert forall|i: int, j: int| 0 <= i < j < f.len() implies T::lt(
            #[trigger] f[i],
            #[trigger] f[j],
        ) by {
            if j < at {
                assert(f[i] == s[i] && f[j] == s[j]);
            } else if j == at {
                assert(f[i] == s[i]);
            } else if i < at {
                assert(f[i] == s[i] && f[j] == s[j - 1]);
            } else if i == at {
                assert(f[j] == s[j - 1]);
                if j - 1 > at {
                    assert(T::lt(s[at as int], s[j - 1]));
                    lt_transitive::<T>(xm, s[at as int], s[j - 1]);
                }
            } else {
                assert(f[i] == s[i - 1] && f[j] == s[j - 1]);
            }
        }
        assert forall|m: T::M| #[trigger] member::<T>(f, m) == (member::<T>(s, m) || level::<T>(
            xm,
            m,
        )) by {
            if member::<T>(s, m) {
                let i = choose|i: int| 0 <= i < s.len() && level::<T>(#[trigger] s[i], m);
                if i < at {
                    assert(level::<T>(f[i], m));
                } else {
                    assert(level::<T>(f[i + 1], m));
                }
            }
            if level::<T>(xm, m) {
                assert(level::<T>(f[at as int], m));
            }
            if member::<T>(f, m) {
                let i = choose|i: int| 0 <= i < f.len() && level::<T>(#[trigger] f[i], m);
                if i < at {
                    assert(level::<T>(s[i], m));
                } else if i > at {
                    assert(level::<T>(s[i - 1], m));
                }
            }
        }
    }
}

/// The members of a list in strictly ascending order, each once.
pub fn distinct<T: Ordered>(v: Vec<T>) -> (r: Vec<T>)
    ensures
        strictly_ascending::<T>(models(r@)),
        same_members::<T>(models(r@), models(v@)),
{
    let ghost s = models(v@);
    let mut rest = v;
    let mut r: Vec<T> = Vec::new();
    while rest.len() > 0
        invariant
            rest@.len() <= s.len(),
            models(rest@) == s.take(rest@.len() as int),
            strictly_ascending::<T>(models(r@)),
            forall|m: T::M|
                #[trigger] member::<T>(models(r@), m) == member::<T>(
                    s.skip(rest@.len() as int),
                    m,
                ),
        decreases rest@.len(),
    {
        let ghost n = rest@.len() as int;
        let ghost before = rest@;
        let ghost old_r = models(r@);
        match rest.pop() {
            None => {},
            Some(x) => {
                add_distinct(&mut r, x);
                proof {
                    assert(models(before)[n - 1] == x.model());
                    assert(s[n - 1] == x.model());
                    assert(models(rest@) =~= s.take(n - 1)) by {
                        assert forall|i: int| 0 <= i < n - 1 implies models(rest@)[i] == s[i] by {
                            assert(models(before)[i] == s.take(n)[i]);
                        }
                    }
                    let tail = s.skip(n);
                    let more = s.skip(n - 1);
                    assert forall|m: T::M| #[trigger] member::<T>(models(r@), m) == member::<T>(
                        more,
                        m,
                    ) by {
                        assert(member::<T>(old_r, m) == member::<T>(tail, m));
                        if member::<T>(tail, m) {
                            let i = choose|i: int|
                                0 <= i < tail.len() && level::<T>(#[trigger] tail[i], m);
                            assert(level::<T>(more[i + 1], m));
                        }
                        if level::<T>(x.model(), m) {
                            assert(level::<T>(more[0], m));
                        }
                        if member::<T>(more, m) {
                            let i = choose|i: int|
                                0 <= i < more.len() && level::<T>(#[trigger] more[i], m);
                            if i > 0 {
                                assert(level::<T>(tail[i - 1], m));
                            }
                        }
                    }
                }
            },
        }
    }
    assert(s.skip(0) =~= s);
    r
}

/// A list in ascending order, with its repetitions.
pub fn sorted<T: Ordered>(v: Vec<T>) -> (r: Vec<T>)
    ensures
        ascending::<T>(models(r@)),
        models(r@).to_multiset() == models(v@).to_multiset(),
{
    broadcast use vstd::seq_lib::group_to_multiset_ensures;

    let ghost s = models(v@);
    let mut rest = v;
    let mut r: Vec<T> = Vec::new();
    assert(s.skip(s.len() as int) =~= models(r@));
    while rest.len() > 0
        invariant
            rest@.len() <= s.len(),
            models(rest@) == s.take(rest@.len() as int),
            ascending::<T>(models(r@)),
            models(r@).to_multiset() == s.skip(rest@.len() as int).to_multiset(),
        decreases rest@.len(),
    {
        let ghost n = rest@.len() as int;
        let ghost before = rest@;
        match rest.pop() {
            None => {},
            Some(x) => {
                let ghost sm = models(r@);
                let ghost xm = x.model();
                let mut at: usize = 0;
                while at < r.len() && r[at].before(&x)
                    invariant
                        at <= r@.len(),
                        sm == models(r@),
                        xm == x.model(),
                        forall|i: int| 0 <= i < at ==> T::lt(#[trigger] sm[i], xm),
                    decreases r@.len() - at,
                {
                    assert(sm[at as int] == r@[at as int].model());
                    at = at + 1;
                }
                proof {
                    if at < r@.len() {
                        assert(sm[at as int] == r@[at as int].model());
                    }
                    place_holds::<T>(sm, xm, at as int);
                }
                r.insert(at, x);
                proof {
                    let f = models(r@);
                    assert(f =~= sm.insert(at as int, xm));
                    assert forall|i: int, j: int| 0 <= i < j < f.len() implies !T::lt(
                        #[trigger] f[j],
                        #[trigger] f[i],
                    ) by {
                        if j < at {
                            assert(f[i] == sm[i] && f[j] == sm[j]);
                        } else if j == at {
                            assert(f[i] == sm[i]);
                            T::asymmetric(sm[i], xm);
                        } else if i < at {
                            assert(f[i] == sm[i] && f[j] == sm[j - 1]);
                        } else if i == at {
                            assert(f[j] == sm[j - 1]);
                        } else {
                            assert(f[i] == sm[i - 1] && f[j] == sm[j - 1]);
                        }
                    }
                    assert(models(before)[n - 1] == xm);
                    assert(s[n - 1] == xm);
                    assert(models(rest@) =~= s.take(n - 1)) by {
                        assert forall|i: int| 0 <= i < n - 1 implies models(rest@)[i] == s[i] by {
                            assert(models(before)[i] == s.take(n)[i]);
                        }
                    }
                    assert(s.skip(n - 1) =~= s.skip(n).insert(0, xm));
                    vstd::seq_lib::to_multiset_insert(s.skip(n), 0, xm);
                    vstd::seq_lib::to_multiset_insert(sm, at as int, xm);
                }
            },
        }
    }
    assert(s.skip(0) =~= s);
    r
}

// ---------------------------------------------------------------- ordered values

impl Ordered for String {
    type M = Seq<char>;

    open spec fn model(&self) -> Seq<char> {
        self@
    }

    open spec fn lt(a: Seq<char>, b: Seq<char>) -> bool {
        text_lt(a, b)
    }

    proof fn asymmetric(a: Seq<char>, b: Seq<char>) {
        if text_lt(a, b) && text_lt(b, a) {
            text_lt_transitive(a, b, a);
            text_lt_irreflexive(a);
        }
    }

    proof fn comparable(a: Seq<char>, b: Seq<char>, c: Seq<char>) {
        text_lt_total(a, b);
        if text_lt(b, a) && text_lt(a, c) {
            text_lt_transitive(b, a, c);
        }
    }

    fn before(&self, other: &Self) -> (r: bool) {
        crate::text::before(self.as_str(), other.as_str())
    }
}

impl Ordered for TagValue {
    type M = TagV;

    open spec fn model(&self) -> TagV {
        self@
    }

    open spec fn lt(a: TagV, b: TagV) -> bool {
        tag_lt(a, b)
    }

    proof fn asymmetric(a: TagV, b: TagV) {
        match (a, b) {
            (TagV::Word(x), TagV::Word(y)) => {
                <String as Ordered>::asymmetric(x, y);
            },
            _ => {},
        }
    }

    proof fn comparable(a: TagV, b: TagV, c: TagV) {
        match (a, b, c) {
            (TagV::Word(x), TagV::Word(y), TagV::Word(z)) => {
                <String as Ordered>::comparable(x, y, z);
            },
            _ => {},
        }
    }

    fn before(&self, other: &Self) -> (r: bool) {
        TagValue::before(self, other)
    }
}

impl<A: Ordered, B: Ordered> Ordered for (A, B) {
    type M = (A::M, B::M);

    open spec fn model(&self) -> (A::M, B::M) {
        (self.0.model(), self.1.model())
    }

    open spec fn lt(a: (A::M, B::M), b: (A::M, B::M)) -> bool {
        A::lt(a.0, b.0) || (level::<A>(a.0, b.0) && B::lt(a.1, b.1))
    }

    proof fn asymmetric(a: (A::M, B::M), b: (A::M, B::M)) {
        A::asymmetric(a.0, b.0);
        B::asymmetric(a.1, b.1);
    }

    proof fn comparable(a: (A::M, B::M), b: (A::M, B::M), c: (A::M, B::M)) {
        A::comparable(a.0, b.0, c.0);
        B::comparable(a.1, b.1, c.1);
        lt_transitive::<A>(a.0, b.0, c.0);
        lt_transitive::<A>(b.0, a.0, c.0);
        lt_transitive::<A>(a.0, c.0, b.0);
    }

    fn before(&self, other: &Self) -> (r: bool) {
        self.0.before(&other.0) || (!other.0.before(&self.0) && self.1.before(&other.1))
    }
}

/// Lexicographic order of lists.
pub open spec fn list_lt<A: Ordered>(a: Seq<A::M>, b: Seq<A::M>) -> bool
    decreases a.len(),
{
    if b.len() == 0 {
        false
    } else if a.len() == 0 {
        true
    } else {
        A::lt(a[0], b[0]) || (level::<A>(a[0], b[0]) && list_lt::<A>(
            a.drop_first(),
            b.drop_first(),
        ))
    }
}

impl<A: Ordered> Ordered for Vec<A> {
    type M = Seq<A::M>;

    open spec fn model(&self) -> Seq<A::M> {
        models(self@)
    }

    open spec fn lt(a: Seq<A::M>, b: Seq<A::M>) -> bool {
        list_lt::<A>(a, b)
    }

    proof fn asymmetric(a: Seq<A::M>, b: Seq<A::M>)
        decreases a.len(),
    {
        if a.len() > 0 && b.len() > 0 {
            A::asymmetric(a[0], b[0]);
            Self::asymmetric(a.drop_first(), b.drop_first());
        }
    }

    proof fn comparable(a: Seq<A::M>, b: Seq<A::M>, c: Seq<A::M>)
        decreases a.len(),
    {
        if a.len() > 0 && b.len() > 0 && c.len() > 0 {
            A::comparable(a[0], b[0], c[0]);
            lt_transitive::<A>(a[0], b[0], c[0]);
            lt_transitive::<A>(b[0], a[0], c[0]);
            lt_transitive::<A>(a[0], c[0], b[0]);
            Self::comparable(a.drop_first(), b.drop_first(), c.drop_first());
        }
    }

    fn before(&self, other: &Self) -> (r: bool) {
        let ghost a = models(self@);
        let ghost b = models(other@);
        let mut i: usize = 0;
        assert(a.skip(0) =~= a && b.skip(0) =~= b);
        while i < self.len() && i < other.len()
            invariant
                i <= self@.len(),
                i <= other@.len(),
                a == models(self@),
                b == models(other@),
                list_lt::<A>(a, b) == list_lt::<A>(a.skip(i as int), b.skip(i as int)),
            decreases self@.len() - i,
        {
            proof {
                assert(a.skip(i as int).drop_first() =~= a.skip(i + 1));
                assert(b.skip(i as int).drop_first() =~= b.skip(i + 1));
                assert(a.skip(i as int)[0] == self@[i as int].model());
                assert(b.skip(i as int)[0] == other@[i as int].model());
            }
            if self[i].before(&other[i]) {
                return true;
            }
            if other[i].before(&self[i]) {
                proof {
                    A::asymmetric(other@[i as int].model(), self@[i as int].model());
                }
                return false;
            }
            i = i + 1;
        }
        i < other.len()
    }
}

/// A list of texts is the list of what they stand for.
pub proof fn texts_are_models(v: Seq<String>)
    ensures
        models(v) == texts(v),
{
    assert(models(v) =~= texts(v));
}

/// Texts are level only when they are equal.
pub proof fn level_texts_are_equal(a: Seq<char>, b: Seq<char>)
    ensures
        level::<String>(a, b) == (a == b),
{
    text_lt_total(a, b);
    text_lt_irreflexive(a);
}

/// Tag values are level exactly when they are the same value.
pub proof fn level_values_are_same(a: TagV, b: TagV)
    ensures
        level::<TagValue>(a, b) == tag_eq(a, b),
{
    match (a, b) {
        (TagV::Word(x), TagV::Word(y)) => {
            level_texts_are_equal(x, y);
        },
        _ => {},
    }
}

/// Strictly ascending texts.
pub open spec fn ascending_texts(s: Seq<Seq<char>>) -> bool {
    strictly_ascending::<String>(s)
}

/// The distinct texts of a list in ascending order.
pub fn distinct_texts(v: Vec<String>) -> (r: Vec<String>)
    ensures
        ascending_texts(texts(r@)),
        forall|t: Seq<char>| #[trigger] texts(r@).contains(t) == texts(v@).contains(t),
{
    let ghost s = v@;
    let r = distinct(v);
    proof {
        texts_are_models(s);
        texts_are_models(r@);
        assert forall|t: Seq<char>| #[trigger] texts(r@).contains(t) == texts(s).contains(t) by {
            member_is_contains(texts(r@), t);
            member_is_contains(texts(s), t);
            assert(member::<String>(models(r@), t) == member::<String>(models(s), t));
        }
    }
    r
}

/// The texts that a test holds of, where they are finitely many, in ascending order.
pub open spec fn ascending_where(test: spec_fn(Seq<char>) -> bool) -> Seq<Seq<char>> {
    choose|s: Seq<Seq<char>>| #[trigger] lists_where(s, test)
}

pub open spec fn lists_where(s: Seq<Seq<char>>, test: spec_fn(Seq<char>) -> bool) -> bool {
    ascending_texts(s) && forall|t: Seq<char>| #[trigger] s.contains(t) == test(t)
}

/// Ascending lists of the same texts are the same list.
pub proof fn ascending_lists_agree(a: Seq<Seq<char>>, b: Seq<Seq<char>>)
    requires
        ascending_texts(a),
        ascending_texts(b),
        forall|t: Seq<char>| #[trigger] a.contains(t) == b.contains(t),
    ensures
        a == b,
    decreases a.len(),
{
    if a.len() == 0 {
        if b.len() > 0 {
            assert(b.contains(b[0]));
            assert(a.contains(b[0]));
        }
        assert(a =~= b);
    } else {
        assert(a.contains(a[0]));
        assert(b.contains(a[0]));
        let (x, y) = (a.last(), b.last());
        assert(a.contains(a[a.len() - 1]));
        assert(b.contains(b[b.len() - 1]));
        assert(a.contains(x) == b.contains(x));
        assert(a.contains(y) == b.contains(y));
        let i = choose|i: int| 0 <= i < b.len() && b[i] == x;
        let j = choose|j: int| 0 <= j < a.len() && a[j] == y;
        if x != y {
            assert(text_lt(x, y));
            assert(text_lt(y, x));
            text_lt_transitive(x, y, x);
            text_lt_irreflexive(x);
        }
        let (c, d) = (a.drop_last(), b.drop_last());
        assert forall|t: Seq<char>| #[trigger] c.contains(t) == d.contains(t) by {
            if c.contains(t) {
                let k = choose|k: int| 0 <= k < c.len() && c[k] == t;
                assert(a[k] == t && text_lt(t, x));
                assert(a.contains(a[k]));
                assert(a.contains(t) == b.contains(t));
                let m = choose|m: int| 0 <= m < b.len() && b[m] == t;
                if m == b.len() - 1 {
                    text_lt_irreflexive(x);
                }
                assert(d[m] == t);
            }
            if d.contains(t) {
                let k = choose|k: int| 0 <= k < d.len() && d[k] == t;
                assert(b[k] == t && text_lt(t, y));
                assert(b.contains(b[k]));
                assert(a.contains(t) == b.contains(t));
                let m = choose|m: int| 0 <= m < a.len() && a[m] == t;
                if m == a.len() - 1 {
                    text_lt_irreflexive(x);
                }
                assert(c[m] == t);
            }
        }
        ascending_lists_agree(c, d);
        assert(a =~= c.push(x));
        assert(b =~= d.push(y));
    }
}

/// A list that is ascending and holds just the texts of a test is the list.
pub proof fn ascending_where_is(s: Seq<Seq<char>>, test: spec_fn(Seq<char>) -> bool)
    requires
        lists_where(s, test),
    ensures
        ascending_where(test) == s,
{
    let t = ascending_where(test);
    assert(lists_where(t, test));
    assert forall|x: Seq<char>| #[trigger] s.contains(x) == t.contains(x) by {}
    ascending_lists_agree(s, t);
}

/// A text is level with a member of a list when it is one of the list.
pub proof fn member_is_contains(s: Seq<Seq<char>>, t: Seq<char>)
    ensures
        member::<String>(s, t) == s.contains(t),
{
    if member::<String>(s, t) {
        let i = choose|i: int| 0 <= i < s.len() && level::<String>(#[trigger] s[i], t);
        level_texts_are_equal(s[i], t);
        assert(s[i] == t);
    }
    if s.contains(t) {
        let i = choose|i: int| 0 <= i < s.len() && s[i] == t;
        level_texts_are_equal(s[i], t);
        assert(level::<String>(s[i], t));
    }
}

/// A list of texts in ascending order, with its repetitions.
pub open spec fn sorted_texts(s: Seq<Seq<char>>) -> Seq<Seq<char>> {
    s.sort_by(|a: Seq<char>, b: Seq<char>| text_le(a, b))
}

/// The order of texts is total.
pub proof fn texts_are_totally_ordered()
    ensures
        vstd::relations::total_ordering(|a: Seq<char>, b: Seq<char>| text_le(a, b)),
{
    let leq = |a: Seq<char>, b: Seq<char>| text_le(a, b);
    assert forall|x: Seq<char>, y: Seq<char>| #[trigger] leq(x, y) && #[trigger] leq(y, x) implies x
        == y by {
        if text_lt(x, y) && text_lt(y, x) {
            text_lt_transitive(x, y, x);
            text_lt_irreflexive(x);
        }
    }
    assert forall|x: Seq<char>, y: Seq<char>, z: Seq<char>| #[trigger] leq(x, y) && #[trigger] leq(
        y,
        z,
    ) implies leq(x, z) by {
        if text_lt(x, y) && text_lt(y, z) {
            text_lt_transitive(x, y, z);
        }
    }
    assert forall|x: Seq<char>, y: Seq<char>| #[trigger] leq(x, y) || #[trigger] leq(y, x) by {
        text_lt_total(x, y);
    }
}

/// Sort a list of texts.
pub fn sort_texts(v: Vec<String>) -> (r: Vec<String>)
    ensures
        texts(r@) == sorted_texts(texts(v@)),
{
    let ghost s = v@;
    let r = sorted(v);
    proof {
        let leq = |a: Seq<char>, b: Seq<char>| text_le(a, b);
        texts_are_models(s);
        texts_are_models(r@);
        texts_are_totally_ordered();
        texts(s).lemma_sort_by_ensures(leq);
        assert forall|i: int, j: int| 0 <= i < j < texts(r@).len() implies #[trigger] leq(
            texts(r@)[i],
            texts(r@)[j],
        ) by {
            let a = models(r@)[i];
            let b = models(r@)[j];
            assert(!<String as Ordered>::lt(b, a));
            text_lt_total(a, b);
        }
        vstd::seq_lib::lemma_sorted_unique(texts(r@), sorted_texts(texts(s)), leq);
    }
    r
}

} // verus!
