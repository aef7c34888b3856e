//! Values paired with the sources that asserted them.
//!
//! Provenance is metadata. It never takes part in deciding whether two
//! values are the same: identity is decided on the wrapped value alone.

use vstd::prelude::*;
use vstd::std_specs::cmp::{PartialEqSpec, PartialOrdSpec};

verus! {

/// A value, with or without the list of sources that asserted it.
#[derive(Clone, Debug)]
pub enum Sourced<T> {
    /// A bare value of unknown origin.
    Unsourced(T),
    /// A value `v` asserted by the sources `s`, in order of first assertion.
    Sourced { v: T, s: Vec<String> },
}

/// The mathematical content of a [`Sourced`]: the view of the value and the
/// source tags as sequences of characters.
pub enum SourcedView<V> {
    Unsourced(V),
    Sourced { v: V, s: Seq<Seq<char>> },
}

/// `list` with `tag` appended, unless `list` already holds it.
pub open spec fn add_source(list: Seq<Seq<char>>, tag: Seq<char>) -> Seq<Seq<char>> {
    if list.contains(tag) {
        list
    } else {
        list.push(tag)
    }
}

/// The tags of `a` followed by those tags of `b` that `a` lacks, each once,
/// in the order in which `b` lists them.
pub open spec fn union_sources(a: Seq<Seq<char>>, b: Seq<Seq<char>>) -> Seq<Seq<char>>
    decreases b.len(),
{
    if b.len() == 0 {
        a
    } else {
        add_source(union_sources(a, b.drop_last()), b.last())
    }
}

impl<V> SourcedView<V> {
    /// The wrapped value.
    pub open spec fn value(self) -> V {
        match self {
            SourcedView::Unsourced(v) => v,
            SourcedView::Sourced { v, .. } => v,
        }
    }

    /// The source tags; none for a bare value.
    pub open spec fn sources(self) -> Seq<Seq<char>> {
        match self {
            SourcedView::Unsourced(_) => Seq::empty(),
            SourcedView::Sourced { s, .. } => s,
        }
    }

    /// The same value, also asserted by `tag`.
    pub open spec fn with_source(self, tag: Seq<char>) -> Self {
        SourcedView::Sourced { v: self.value(), s: add_source(self.sources(), tag) }
    }

    /// The result of observing `later` after `self`: the later value wins and
    /// the source lists are united. Two bare values give a bare value.
    pub open spec fn merge(self, later: Self) -> Self {
        if self is Unsourced && later is Unsourced {
            SourcedView::Unsourced(later.value())
        } else {
            SourcedView::Sourced {
                v: later.value(),
                s: union_sources(self.sources(), later.sources()),
            }
        }
    }
}

impl<T: DeepView> DeepView for Sourced<T> {
    type V = SourcedView<T::V>;

    open spec fn deep_view(&self) -> SourcedView<T::V> {
        match *self {
            Sourced::Unsourced(v) => SourcedView::Unsourced(v.deep_view()),
            Sourced::Sourced { v, s } => SourcedView::Sourced {
                v: v.deep_view(),
                s: s.deep_view(),
            },
        }
    }
}

/// Whether `list` holds a tag equal to `tag`.
pub fn contains_source(list: &Vec<String>, tag: &String) -> (found: bool)
    ensures
        found == list.deep_view().contains(tag@),
{
    let mut i: usize = 0;
    while i < list.len()
        invariant
            i <= list.len(),
            forall|j: int| 0 <= j < i ==> list.deep_view()[j] != tag@,
        decreases list.len() - i,
    {
        if list[i] == *tag {
            assert(list.deep_view()[i as int] == tag@);
            return true;
        }
        i += 1;
    }
    false
}

/// Appends `tag` to `list` unless `list` already holds it.
pub fn push_source(list: &mut Vec<String>, tag: String)
    ensures
        final(list).deep_view() == add_source(old(list).deep_view(), tag@),
{
    if !contains_source(list, &tag) {
        list.push(tag);
        assert(list.deep_view() =~= old(list).deep_view().push(tag@));
    }
}

/// Appends to `list` the tags of `more` that it lacks, in their order.
pub fn extend_sources(list: &mut Vec<String>, more: Vec<String>)
    ensures
        final(list).deep_view() == union_sources(old(list).deep_view(), more.deep_view()),
{
    let ghost all = more.deep_view();
    let mut more = more;
    let mut rest: Vec<String> = Vec::new();
    assert(all.len() == more.len());
    // Reverse `more` so that its tags can be moved out front to back.
    while more.len() > 0
        invariant
            rest.len() + more.len() == all.len(),
            forall|j: int| 0 <= j < more.len() ==> more.deep_view()[j] == all[j],
            forall|j: int|
                0 <= j < rest.len() ==> rest.deep_view()[j] == all[all.len() - 1 - j],
        decreases more.len(),
    {
        let ghost before = rest.deep_view();
        let tag = more.pop().unwrap();
        rest.push(tag);
        assert(rest.deep_view() =~= before.push(tag@));
    }
    let mut done: usize = 0;
    while rest.len() > 0
        invariant
            done + rest.len() == all.len(),
            all.len() <= usize::MAX,
            forall|j: int|
                0 <= j < rest.len() ==> rest.deep_view()[j] == all[all.len() - 1 - j],
            list.deep_view() == union_sources(old(list).deep_view(), all.subrange(0, done as int)),
        decreases rest.len(),
    {
        let ghost before = rest.deep_view();
        assert(before[before.len() - 1] == all[done as int]);
        let tag = rest.pop().unwrap();
        assert(tag@ == all[done as int]);
        assert forall|j: int| 0 <= j < rest.len() implies rest.deep_view()[j] == all[all.len() - 1
            - j] by {
            assert(rest.deep_view()[j] == before[j]);
        }
        assert(all.subrange(0, done + 1).drop_last() =~= all.subrange(0, done as int));
        push_source(list, tag);
        done += 1;
    }
    assert(all.subrange(0, done as int) =~= all);
}

impl<T> Sourced<T> {
    /// The wrapped value.
    pub open spec fn value(self) -> T {
        match self {
            Sourced::Unsourced(v) => v,
            Sourced::Sourced { v, .. } => v,
        }
    }

    /// The source tags, each as a sequence of characters; none for a bare
    /// value.
    pub open spec fn sources(self) -> Seq<Seq<char>> {
        match self {
            Sourced::Unsourced(_) => Seq::empty(),
            Sourced::Sourced { s, .. } => s.deep_view(),
        }
    }

    /// A bare value.
    pub fn new(v: T) -> (r: Self)
        ensures
            r == Sourced::Unsourced(v),
    {
        Sourced::Unsourced(v)
    }

    /// A value asserted by one source.
    pub fn from_source(v: T, tag: String) -> (r: Self)
        ensures
            r is Sourced,
            r.value() == v,
            r.sources() == seq![tag@],
    {
        let mut s: Vec<String> = Vec::new();
        s.push(tag);
        assert(s.deep_view() =~= seq![tag@]);
        Sourced::Sourced { v, s }
    }

    /// Reads the wrapped value.
    pub fn get(&self) -> (v: &T)
        ensures
            *v == self.value(),
    {
        match self {
            Sourced::Unsourced(v) => v,
            Sourced::Sourced { v, .. } => v,
        }
    }

    /// Gives up the provenance and returns the value.
    pub fn into_inner(self) -> (v: T)
        ensures
            v == self.value(),
    {
        match self {
            Sourced::Unsourced(v) => v,
            Sourced::Sourced { v, .. } => v,
        }
    }

    /// The number of sources that assert the value.
    pub fn source_count(&self) -> (n: usize)
        ensures
            n == self.sources().len(),
    {
        match self {
            Sourced::Unsourced(_) => 0,
            Sourced::Sourced { s, .. } => s.len(),
        }
    }

    /// Whether `tag` is among the sources.
    pub fn has_source(&self, tag: &String) -> (found: bool)
        ensures
            found == self.sources().contains(tag@),
    {
        match self {
            Sourced::Unsourced(_) => false,
            Sourced::Sourced { s, .. } => contains_source(s, tag),
        }
    }

    /// The same value, also asserted by `tag`. A tag that is already listed
    /// is not listed twice.
    pub fn with_source(self, tag: String) -> (r: Self)
        ensures
            r is Sourced,
            r.value() == self.value(),
            r.sources() == add_source(self.sources(), tag@),
    {
        match self {
            Sourced::Unsourced(v) => {
                let mut s: Vec<String> = Vec::new();
                s.push(tag);
                assert(s.deep_view() =~= seq![tag@]);
                assert(add_source(Seq::<Seq<char>>::empty(), tag@) =~= seq![tag@]);
                Sourced::Sourced { v, s }
            },
            Sourced::Sourced { v, s } => {
                let mut s = s;
                push_source(&mut s, tag);
                Sourced::Sourced { v, s }
            },
        }
    }

    /// Folds a later observation of the same field into this one. The later
    /// value replaces the earlier one; the source lists are united, earlier
    /// tags first and none twice. Two bare values give a bare value.
    pub fn merge(self, later: Sourced<T>) -> (r: Self)
        ensures
            r.value() == later.value(),
            r.sources() == union_sources(self.sources(), later.sources()),
            r is Unsourced <==> self is Unsourced && later is Unsourced,
    {
        match self {
            Sourced::Unsourced(_) => match later {
                Sourced::Unsourced(v) => Sourced::Unsourced(v),
                Sourced::Sourced { v, s } => {
                    let mut list: Vec<String> = Vec::new();
                    assert(list.deep_view() =~= Seq::<Seq<char>>::empty());
                    extend_sources(&mut list, s);
                    Sourced::Sourced { v, s: list }
                },
            },
            Sourced::Sourced { v: _, s } => {
                let mut list = s;
                match later {
                    Sourced::Unsourced(v) => Sourced::Sourced { v, s: list },
                    Sourced::Sourced { v, s: more } => {
                        extend_sources(&mut list, more);
                        Sourced::Sourced { v, s: list }
                    },
                }
            },
        }
    }
}

impl<T: PartialEq> PartialEq for Sourced<T> {
    /// Whether the two hold equal values. The sources play no part.
    fn eq(&self, other: &Sourced<T>) -> (same: bool) {
        *self.get() == *other.get()
    }
}

impl<T: PartialEq> vstd::std_specs::cmp::PartialEqSpecImpl for Sourced<T> {
    open spec fn obeys_eq_spec() -> bool {
        <T as PartialEqSpec>::obeys_eq_spec()
    }

    open spec fn eq_spec(&self, other: &Sourced<T>) -> bool {
        self.value().eq_spec(&other.value())
    }
}

impl<T: PartialOrd> PartialOrd for Sourced<T> {
    /// How the two values stand to each other. The sources play no part.
    fn partial_cmp(&self, other: &Sourced<T>) -> (order: Option<std::cmp::Ordering>) {
        self.get().partial_cmp(other.get())
    }
}

impl<T: PartialOrd> vstd::std_specs::cmp::PartialOrdSpecImpl for Sourced<T> {
    open spec fn obeys_partial_cmp_spec() -> bool {
        T::obeys_partial_cmp_spec()
    }

    open spec fn partial_cmp_spec(&self, other: &Sourced<T>) -> Option<std::cmp::Ordering> {
        self.value().partial_cmp_spec(&other.value())
    }
}

impl<T> std::ops::Deref for Sourced<T> {
    type Target = T;

    /// Reads the wrapped value.
    fn deref(&self) -> (r: &T)
        ensures
            *r == self.value(),
    {
        match self {
            Sourced::Unsourced(v) => v,
            Sourced::Sourced { v, .. } => v,
        }
    }
}

impl<T> std::ops::DerefMut for Sourced<T> {
    /// Gives write access to the wrapped value; the sources stay as they are.
    fn deref_mut(&mut self) -> (r: &mut T)
        ensures
            *r == old(self).value(),
            final(self).value() == *final(r),
            final(self).sources() == old(self).sources(),
            (*final(self) is Unsourced) <==> (*old(self) is Unsourced),
    {
        match self {
            Sourced::Unsourced(v) => v,
            Sourced::Sourced { v, .. } => v,
        }
    }
}

/// The tags of a united list are those of both lists, no more and no fewer.
pub proof fn lemma_union_sources(a: Seq<Seq<char>>, b: Seq<Seq<char>>)
    ensures
        union_sources(a, b).to_set() == a.to_set().union(b.to_set()),
        a.no_duplicates() ==> union_sources(a, b).no_duplicates(),
    decreases b.len(),
{
    if b.len() == 0 {
        assert(b.to_set() =~= Set::<Seq<char>>::empty());
        assert(a.to_set().union(b.to_set()) =~= a.to_set());
    } else {
        let front = b.drop_last();
        let tag = b.last();
        lemma_union_sources(a, front);
        let u = union_sources(a, front);
        let r = add_source(u, tag);
        assert forall|x: Seq<char>| r.to_set().contains(x) <==> a.to_set().union(
            b.to_set(),
        ).contains(x) by {
            if r.to_set().contains(x) {
                let k = choose|k: int| 0 <= k < r.len() && r[k] == x;
                if k < u.len() {
                    assert(u[k] == x);
                    assert(u.to_set().contains(x));
                    if front.to_set().contains(x) {
                        let m = choose|m: int| 0 <= m < front.len() && front[m] == x;
                        assert(b[m] == x);
                    }
                } else {
                    assert(x == tag);
                    assert(b[b.len() - 1] == x);
                }
            }
            if a.to_set().contains(x) {
                assert(u.to_set().contains(x));
                let k = choose|k: int| 0 <= k < u.len() && u[k] == x;
                assert(r[k] == x);
            }
            if b.to_set().contains(x) {
                let m = choose|m: int| 0 <= m < b.len() && b[m] == x;
                if m < front.len() {
                    assert(front[m] == x);
                    assert(front.to_set().contains(x));
                    assert(u.to_set().contains(x));
                    let k = choose|k: int| 0 <= k < u.len() && u[k] == x;
                    assert(r[k] == x);
                } else {
                    assert(x == tag);
                    if u.contains(tag) {
                        let k = choose|k: int| 0 <= k < u.len() && u[k] == tag;
                        assert(r[k] == x);
                    } else {
                        assert(r[u.len() as int] == x);
                    }
                }
            }
        }
        assert(r.to_set() =~= a.to_set().union(b.to_set()));
    }
}

/// Provenance does not depend on the order of observation: two lists of
/// tags that hold the same tags, in whatever order and however often, unite
/// with `a` to the same set of sources.
pub proof fn law_sources_order_independent(
    a: Seq<Seq<char>>,
    first: Seq<Seq<char>>,
    second: Seq<Seq<char>>,
)
    requires
        first.to_set() == second.to_set(),
    ensures
        union_sources(a, first).to_set() == union_sources(a, second).to_set(),
        union_sources(a, first).to_set() == a.to_set().union(first.to_set()),
{
    lemma_union_sources(a, first);
    lemma_union_sources(a, second);
}

/// Merging two observations that agree on the value gives that value, and
/// the same set of sources whichever is merged into the other.
pub proof fn law_merge_commutes_on_sources<V>(a: SourcedView<V>, b: SourcedView<V>)
    requires
        a.value() == b.value(),
    ensures
        a.merge(b).value() == b.merge(a).value(),
        a.merge(b).sources().to_set() == b.merge(a).sources().to_set(),
        a.merge(b).sources().to_set() == a.sources().to_set().union(b.sources().to_set()),
{
    lemma_union_sources(a.sources(), b.sources());
    lemma_union_sources(b.sources(), a.sources());
    assert(a.sources().to_set().union(b.sources().to_set()) =~= b.sources().to_set().union(
        a.sources().to_set(),
    ));
    if a is Unsourced && b is Unsourced {
        assert(a.sources().to_set().union(b.sources().to_set()) =~= Seq::<
            Seq<char>,
        >::empty().to_set());
    }
}

} // verus!
