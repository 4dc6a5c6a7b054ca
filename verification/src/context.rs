//! The typed context: a tag-indexed container of shared resources, built
//! once and read-only afterwards.
//!
//! Each stored resource is registered under a tag that stands for its type;
//! a lookup under the same tag yields exactly the value last registered
//! there. `Inject` is the shared, cloneable handle wrapped around one
//! resource.

use vstd::prelude::*;

use std::sync::Arc;

verus! {

broadcast use vstd::seq::group_seq_axioms, vstd::std_specs::vec::group_vec_axioms;

pub open spec fn tag_map<V>(s: Seq<(u64, V)>) -> Map<u64, V>
    decreases s.len(),
{
    if s.len() == 0 {
        Map::empty()
    } else {
        tag_map(s.drop_last()).insert(s.last().0, s.last().1)
    }
}

/// Tag-indexed store of shared resources. Registration happens while the
/// server is built; afterwards the context is only read.
pub struct Context<V> {
    entries: Vec<(u64, V)>,
}

impl<V> Context<V> {
    /// At most one entry per tag.
    pub closed spec fn wf(&self) -> bool {
        forall|i: int, j: int|
            0 <= i < j < self.entries@.len() ==> self.entries@[i].0 != self.entries@[j].0
    }

    /// The context as a map from tag to stored value.
    pub closed spec fn as_map(&self) -> Map<u64, V> {
        tag_map(self.entries@)
    }

    pub fn new() -> (r: Context<V>)
        ensures
            r.wf(),
            r.as_map() == Map::<u64, V>::empty(),
    {
        Context { entries: Vec::new() }
    }

    /// Register a value under a tag; a later insert under the same tag wins.
    pub fn insert(&mut self, tag: u64, state: V)
        requires
            old(self).wf(),
        ensures
            final(self).wf(),
            final(self).as_map() == old(self).as_map().insert(tag, state),
    {
        let n = self.entries.len();
        let mut i: usize = 0;
        while i < n
            invariant
                i <= n,
                n == self.entries@.len(),
                old(self).wf(),
                self == old(self),
                forall|t: int| 0 <= t < i as int ==> self.entries@[t].0 != tag,
            decreases n - i,
        {
            if self.entries[i].0 == tag {
                let ghost pre = self.entries@;
                self.entries.remove(i);
                let pair = (tag, state);
                let ghost gpair = pair;
                self.entries.push(pair);
                proof {
                    let q = pre.remove(i as int);
                    assert(self.entries@.drop_last() =~= q);
                    assert(self.entries@.last() == gpair);
                    lemma_tag_map_remove(pre, i as int);
                    assert(tag_map(pre).remove(tag).insert(tag, state) =~= tag_map(pre).insert(
                        tag,
                        state,
                    ));
                    lemma_tag_remove_keeps_distinct(pre, i as int);
                }
                return ;
            }
            i = i + 1;
        }
        let ghost pre = self.entries@;
        let pair = (tag, state);
        let ghost gpair = pair;
        self.entries.push(pair);
        proof {
            assert(self.entries@.drop_last() =~= pre);
            assert(self.entries@.last() == gpair);
            assert(forall|t: int| 0 <= t < pre.len() ==> #[trigger] self.entries@[t] == pre[t]);
        }
    }

    /// Look the value registered under a tag up.
    pub fn get(&self, tag: u64) -> (r: Option<&V>)
        ensures
            self.wf() ==> match self.as_map().contains_key(tag) {
                true => r matches Some(x) && *x == self.as_map()[tag],
                false => r is None,
            },
    {
        let n = self.entries.len();
        let mut i: usize = 0;
        while i < n
            invariant
                i <= n,
                n == self.entries@.len(),
                forall|t: int| 0 <= t < i as int ==> self.entries@[t].0 != tag,
            decreases n - i,
        {
            if self.entries[i].0 == tag {
                proof {
                    if self.wf() {
                        lemma_tag_map_at(self.entries@, i as int);
                    }
                }
                return Some(&self.entries[i].1);
            }
            i = i + 1;
        }
        proof {
            lemma_tag_map_absent(self.entries@, tag);
        }
        None
    }
}

impl<V> Default for Context<V> {
    /// An empty context.
    fn default() -> (r: Context<V>)
        ensures
            r.wf(),
            r.as_map() == Map::<u64, V>::empty(),
    {
        Context::new()
    }
}

// ---------------------------------------------------------------------------
// Map lemmas for the context
// ---------------------------------------------------------------------------

proof fn lemma_tag_map_absent<V>(s: Seq<(u64, V)>, tag: u64)
    requires
        forall|t: int| 0 <= t < s.len() ==> s[t].0 != tag,
    ensures
        !tag_map(s).contains_key(tag),
    decreases s.len(),
{
    if s.len() > 0 {
        assert(forall|t: int| 0 <= t < s.len() - 1 ==> #[trigger] s.drop_last()[t] == s[t]);
        lemma_tag_map_absent(s.drop_last(), tag);
    }
}

/// With distinct tags, the entry at `i` is what the map holds for its tag.
proof fn lemma_tag_map_at<V>(s: Seq<(u64, V)>, i: int)
    requires
        0 <= i < s.len(),
        forall|a: int, b: int| 0 <= a < b < s.len() ==> s[a].0 != s[b].0,
    ensures
        tag_map(s).contains_key(s[i].0),
        tag_map(s)[s[i].0] == s[i].1,
    decreases s.len(),
{
    if i == s.len() - 1 {
    } else {
        let d = s.drop_last();
        assert(forall|t: int| 0 <= t < s.len() - 1 ==> #[trigger] d[t] == s[t]);
        lemma_tag_map_at(d, i);
        assert(s[i].0 != s.last().0);
    }
}

proof fn lemma_tag_map_remove<V>(s: Seq<(u64, V)>, i: int)
    requires
        0 <= i < s.len(),
        forall|a: int, b: int| 0 <= a < b < s.len() ==> s[a].0 != s[b].0,
    ensures
        tag_map(s.remove(i)) == tag_map(s).remove(s[i].0),
    decreases s.len(),
{
    if i == s.len() - 1 {
        assert(s.remove(i) =~= s.drop_last());
        assert(forall|t: int| 0 <= t < s.len() - 1 ==> s.drop_last()[t].0 != s[i].0);
        lemma_tag_map_absent(s.drop_last(), s[i].0);
        assert(tag_map(s.drop_last()).insert(s[i].0, s[i].1).remove(s[i].0) =~= tag_map(
            s.drop_last(),
        ));
    } else {
        let d = s.drop_last();
        assert(forall|a: int, b: int| 0 <= a < b < d.len() ==> d[a].0 != d[b].0);
        lemma_tag_map_remove(d, i);
        assert(s.remove(i).drop_last() =~= d.remove(i));
        assert(s.remove(i).last() == s.last());
        assert(s[i].0 != s.last().0);
        assert(tag_map(d).remove(s[i].0).insert(s.last().0, s.last().1) =~= tag_map(d).insert(
            s.last().0,
            s.last().1,
        ).remove(s[i].0));
    }
}

proof fn lemma_tag_remove_keeps_distinct<V>(s: Seq<(u64, V)>, i: int)
    requires
        0 <= i < s.len(),
        forall|a: int, b: int| 0 <= a < b < s.len() ==> s[a].0 != s[b].0,
    ensures
        forall|a: int, b: int|
            0 <= a < b < s.remove(i).len() ==> s.remove(i)[a].0 != s.remove(i)[b].0,
{
    assert forall|a: int, b: int|
        0 <= a < b < s.remove(i).len() implies s.remove(i)[a].0 != s.remove(i)[b].0 by {
        let ra: int = if a < i {
            a
        } else {
            a + 1
        };
        let rb: int = if b < i {
            b
        } else {
            b + 1
        };
        assert(s.remove(i)[a] == s[ra]);
        assert(s.remove(i)[b] == s[rb]);
    }
}

// ---------------------------------------------------------------------------
// Shared handles
// ---------------------------------------------------------------------------

/// A shared, cloneable read handle over one resource. The resource itself
/// is immutable through this wrapper; interior mutability, if wanted, comes
/// from the resource's own type.
pub struct Inject<T>(Arc<T>);

impl<T> Inject<T> {
    /// The resource the handle shares.
    pub closed spec fn value(&self) -> T {
        *self.0
    }

    /// Wrap a resource in a fresh shared handle.
    pub fn new(state: T) -> (r: Inject<T>)
        ensures
            r.value() == state,
    {
        Inject(Arc::new(state))
    }

    /// Borrow the shared resource.
    pub fn inner(&self) -> (r: &T)
        ensures
            *r == self.value(),
    {
        &*self.0
    }

    /// Another handle to the same resource.
    pub fn duplicate(&self) -> (r: Inject<T>)
        ensures
            r.value() == self.value(),
    {
        Inject(arc_clone(&self.0))
    }
}

/// Relies on std::sync::Arc::clone: the new handle points at the same
/// referent.
#[verifier::external_body]
fn arc_clone<T>(a: &Arc<T>) -> (r: Arc<T>)
    ensures
        r == *a,
{
    Arc::clone(a)
}

/// How a tool-handler parameter is produced from the context. Implementing
/// this for a type lets tool handlers receive it by declared parameter type;
/// a lookup that finds nothing registered is the caller's error.
pub trait FromContext<V>: Sized {
    fn from_context(ctx: &Context<V>) -> Option<Self>;
}

} // verus!
