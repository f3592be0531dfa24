//! Order-preserving filtering of vectors, shared by the plan operations.
use vstd::prelude::*;

verus! {

broadcast use Seq::lemma_filter_push;

/// Keeps exactly the elements for which `keep` answers `true`, in their order.
/// `pred` is the mathematical statement of the same test.
pub fn retain_where<T>(v: &mut Vec<T>, keep: impl Fn(&T) -> bool, Ghost(pred): Ghost<spec_fn(T) -> bool>)
    requires
        forall|x: &T| #[trigger] keep.requires((x,)),
        forall|x: &T, r: bool| keep.ensures((x,), r) ==> r == pred(*x),
    ensures
        final(v)@ == old(v)@.filter(pred),
{
    let mut src: Vec<T> = Vec::new();
    std::mem::swap(&mut src, v);
    let ghost s = src@;
    for x in it: src.into_iter()
        invariant
            it.seq() == s,
            v@ == s.take(it.index() as int).filter(pred),
            forall|x: &T| #[trigger] keep.requires((x,)),
            forall|x: &T, r: bool| keep.ensures((x,), r) ==> r == pred(*x),
    {
        assert(s.take(it.index() as int + 1) =~= s.take(it.index() as int).push(x));
        if keep(&x) {
            v.push(x);
        }
    }
    assert(s.take(s.len() as int) =~= s);
}

} // verus!

verus! {

/// Filtering and then mapping gives what mapping and then filtering with the
/// corresponding predicate gives.
pub proof fn lemma_filter_map_commute<A, B>(
    s: Seq<A>,
    f: spec_fn(A) -> B,
    p: spec_fn(A) -> bool,
    q: spec_fn(B) -> bool,
)
    requires
        forall|x: A| #[trigger] p(x) == q(f(x)),
    ensures
        s.filter(p).map_values(f) == s.map_values(f).filter(q),
    decreases s.len(),
{
    broadcast use Seq::lemma_filter_push;

    if s.len() > 0 {
        let rest = s.drop_last();
        let last = s.last();
        lemma_filter_map_commute(rest, f, p, q);
        assert(s =~= rest.push(last));
        assert(s.map_values(f) =~= rest.map_values(f).push(f(last)));
        if p(last) {
            assert(s.filter(p).map_values(f) =~= rest.filter(p).map_values(f).push(f(last)));
        }
    } else {
        assert(s.filter(p).map_values(f) =~= Seq::<B>::empty());
        assert(s.map_values(f).filter(q) =~= Seq::<B>::empty());
    }
}

/// A value with an identifier.
pub trait Identified {
    spec fn spec_id(&self) -> u128;

    fn id(&self) -> (r: u128)
        ensures
            r == self.spec_id(),
    ;
}

/// `i` is the first position in `s` holding identifier `id`.
pub open spec fn first_with_id<T: Identified>(s: Seq<T>, id: u128, i: int) -> bool {
    &&& 0 <= i < s.len()
    &&& s[i].spec_id() == id
    &&& forall|j: int| 0 <= j < i ==> #[trigger] s[j].spec_id() != id
}

/// Only one position is the first where `key` gives `id`.
pub proof fn lemma_first_unique<T>(s: Seq<T>, key: spec_fn(T) -> u128, id: u128, i: int, j: int)
    requires
        0 <= i < s.len(),
        key(s[i]) == id,
        forall|q: int| 0 <= q < i ==> key(#[trigger] s[q]) != id,
        0 <= j < s.len(),
        key(s[j]) == id,
        forall|q: int| 0 <= q < j ==> key(#[trigger] s[q]) != id,
    ensures
        i == j,
{
    if i < j {
        assert(key(s[i]) == id);
    }
    if j < i {
        assert(key(s[j]) == id);
    }
}

/// Only one position is the first holding identifier `id`.
pub proof fn lemma_first_with_id_unique<T: Identified>(s: Seq<T>, id: u128, i: int, j: int)
    requires
        first_with_id(s, id, i),
        first_with_id(s, id, j),
    ensures
        i == j,
{
    lemma_first_unique(s, |x: T| x.spec_id(), id, i, j);
}

/// Some element of `s` has identifier `id`.
pub open spec fn has_id<T: Identified>(s: Seq<T>, id: u128) -> bool {
    exists|i: int| 0 <= i < s.len() && #[trigger] s[i].spec_id() == id
}

/// Position of the first element with identifier `id`.
pub fn index_of_id<T: Identified>(v: &Vec<T>, id: u128) -> (r: Option<usize>)
    ensures
        match r {
            Some(i) => first_with_id(v@, id, i as int),
            None => !has_id(v@, id),
        },
{
    let n = v.len();
    let mut i: usize = 0;
    while i < n
        invariant
            n == v@.len(),
            i <= n,
            forall|j: int| 0 <= j < i ==> #[trigger] v@[j].spec_id() != id,
        decreases n - i,
    {
        if v[i].id() == id {
            return Some(i);
        }
        i = i + 1;
    }
    None
}

} // verus!

verus! {

/// Replaces every element `x` by `f(x)`, in place and in order; `rel` states
/// what `f` promises of each input and output.
pub fn map_each<T>(v: &mut Vec<T>, f: impl Fn(T) -> T, Ghost(rel): Ghost<spec_fn(T, T) -> bool>)
    requires
        forall|x: T| #[trigger] f.requires((x,)),
        forall|x: T, y: T| f.ensures((x,), y) ==> #[trigger] rel(x, y),
    ensures
        final(v)@.len() == old(v)@.len(),
        forall|i: int| 0 <= i < old(v)@.len() ==> #[trigger] rel(old(v)@[i], final(v)@[i]),
{
    let mut src: Vec<T> = Vec::new();
    std::mem::swap(&mut src, v);
    let ghost s = src@;
    for x in it: src.into_iter()
        invariant
            it.seq() == s,
            v@.len() == it.index(),
            forall|i: int| 0 <= i < v@.len() ==> #[trigger] rel(s[i], v@[i]),
            forall|x: T| #[trigger] f.requires((x,)),
            forall|x: T, y: T| f.ensures((x,), y) ==> #[trigger] rel(x, y),
    {
        let y = f(x);
        v.push(y);
    }
}

} // verus!
