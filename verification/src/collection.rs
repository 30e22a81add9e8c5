//! Folder-like grouping of bodies and nested collections.

use vstd::prelude::*;
use crate::body::Body;
use crate::ssm::{body_matches, holds_body, added_body, added_bodies, body_eq};

verus! {

/// A named group of bodies and sub-collections.
pub struct Collection {
    pub name: String,
    pub bodies: Vec<Body>,
    pub collections: Vec<Collection>,
}

/// What `Collection::add` accepts: one body or collection, or a list of
/// either.
pub enum CAddInput {
    Body(Body),
    Bodies(Vec<Body>),
    Collection(Collection),
    Collections(Vec<Collection>),
}

/// Whether two collections hold the same name, bodies and
/// sub-collections, recursively.
pub open spec fn collection_matches(a: Collection, b: Collection) -> bool
    decreases a,
{
    &&& a.name@ == b.name@
    &&& a.bodies@.len() == b.bodies@.len()
    &&& (forall|i: int|
        0 <= i < a.bodies@.len() ==> body_matches(#[trigger] a.bodies@[i], b.bodies@[i]))
    &&& a.collections@.len() == b.collections@.len()
    &&& (forall|i: int|
        0 <= i < a.collections@.len() ==> collection_matches(
            #[trigger] a.collections@[i],
            b.collections@[i],
        ))
}

/// Whether the list already holds a collection equal to `c`.
pub open spec fn holds_collection(cs: Seq<Collection>, c: Collection) -> bool {
    exists|t: int| 0 <= t < cs.len() && collection_matches(#[trigger] cs[t], c)
}

/// The list after offering one collection: unchanged when an equal one is
/// already held, else appended.
pub open spec fn added_collection(cs: Seq<Collection>, c: Collection) -> Seq<Collection> {
    if holds_collection(cs, c) {
        cs
    } else {
        cs.push(c)
    }
}

/// The list after offering each collection of a list in order.
pub open spec fn added_collections(cs: Seq<Collection>, new: Seq<Collection>, k: int) -> Seq<
    Collection,
>
    decreases k,
{
    if k <= 0 {
        cs
    } else {
        added_collection(added_collections(cs, new, k - 1), new[k - 1])
    }
}

/// Compares two collections, name, bodies and sub-collections.
pub fn collection_eq(a: &Collection, b: &Collection) -> (r: bool)
    ensures
        r == collection_matches(*a, *b),
    decreases *a,
{
    if !(a.name == b.name) {
        return false;
    }
    if a.bodies.len() != b.bodies.len() {
        return false;
    }
    let nb: usize = a.bodies.len();
    let mut i: usize = 0;
    while i < nb
        invariant
            nb == a.bodies@.len(),
            nb == b.bodies@.len(),
            0 <= i <= nb,
            forall|t: int| 0 <= t < i ==> body_matches(#[trigger] a.bodies@[t], b.bodies@[t]),
        decreases nb - i,
    {
        if !body_eq(&a.bodies[i], &b.bodies[i]) {
            return false;
        }
        i = i + 1;
    }
    if a.collections.len() != b.collections.len() {
        return false;
    }
    let nc: usize = a.collections.len();
    let mut i: usize = 0;
    while i < nc
        invariant
            nc == a.collections@.len(),
            nc == b.collections@.len(),
            nb == a.bodies@.len(),
            nb == b.bodies@.len(),
            a.name@ == b.name@,
            forall|t: int| 0 <= t < nb ==> body_matches(#[trigger] a.bodies@[t], b.bodies@[t]),
            0 <= i <= nc,
            forall|t: int|
                0 <= t < i ==> collection_matches(#[trigger] a.collections@[t], b.collections@[t]),
        decreases nc - i,
    {
        if !collection_eq(&a.collections[i], &b.collections[i]) {
            return false;
        }
        i = i + 1;
    }
    true
}

impl Collection {
    /// An empty collection with the given name.
    pub fn new(name: String) -> (r: Collection)
        ensures
            r.name@ == name@,
            r.bodies@.len() == 0,
            r.collections@.len() == 0,
    {
        Collection { name, bodies: Vec::new(), collections: Vec::new() }
    }

    /// Files the given object: single items are skipped when an equal one
    /// is already held; lists are offered element by element.
    pub fn add(&mut self, object: CAddInput)
        ensures
            object matches CAddInput::Body(b) ==> final(self).bodies@ == added_body(
                old(self).bodies@,
                b,
            ) && final(self).collections@ == old(self).collections@,
            object matches CAddInput::Bodies(bs) ==> final(self).bodies@ == added_bodies(
                old(self).bodies@,
                bs@,
                bs@.len() as int,
            ) && final(self).collections@ == old(self).collections@,
            object matches CAddInput::Collection(c) ==> final(self).collections@
                == added_collection(old(self).collections@, c) && final(self).bodies@ == old(self).bodies@,
            object matches CAddInput::Collections(cs) ==> final(self).collections@
                == added_collections(old(self).collections@, cs@, cs@.len() as int)
                && final(self).bodies@ == old(self).bodies@,
            final(self).name@ == old(self).name@,
    {
        match object {
            CAddInput::Body(body) => {
                self.add_one_body(body);
            },
            CAddInput::Bodies(bodies) => {
                let ghost orig = bodies@;
                let n: usize = bodies.len();
                let mut rest: Vec<Body> = bodies;
                let mut k: usize = 0;
                while k < n
                    invariant
                        n == orig.len(),
                        0 <= k <= n,
                        rest@ == orig.subrange(k as int, n as int),
                        self.bodies@ == added_bodies(old(self).bodies@, orig, k as int),
                        self.collections@ == old(self).collections@,
                        self.name@ == old(self).name@,
                    decreases n - k,
                {
                    let b: Body = rest.remove(0);
                    proof {
                        assert(b == orig[k as int]);
                        assert(rest@ =~= orig.subrange(k as int + 1, n as int));
                    }
                    self.add_one_body(b);
                    k = k + 1;
                }
                proof {
                    assert(orig.subrange(0, n as int) =~= orig);
                }
            },
            CAddInput::Collection(collection) => {
                self.add_one_collection(collection);
            },
            CAddInput::Collections(collections) => {
                let ghost orig = collections@;
                let n: usize = collections.len();
                let mut rest: Vec<Collection> = collections;
                let mut k: usize = 0;
                while k < n
                    invariant
                        n == orig.len(),
                        0 <= k <= n,
                        rest@ == orig.subrange(k as int, n as int),
                        self.collections@ == added_collections(old(self).collections@, orig, k as int),
                        self.bodies@ == old(self).bodies@,
                        self.name@ == old(self).name@,
                    decreases n - k,
                {
                    let c: Collection = rest.remove(0);
                    proof {
                        assert(c == orig[k as int]);
                        assert(rest@ =~= orig.subrange(k as int + 1, n as int));
                    }
                    self.add_one_collection(c);
                    k = k + 1;
                }
                proof {
                    assert(orig.subrange(0, n as int) =~= orig);
                }
            },
        }
    }

    /// Files one body unless an equal one is already held.
    fn add_one_body(&mut self, body: Body)
        ensures
            final(self).bodies@ == added_body(old(self).bodies@, body),
            final(self).collections@ == old(self).collections@,
            final(self).name@ == old(self).name@,
    {
        let n: usize = self.bodies.len();
        let mut t: usize = 0;
        while t < n
            invariant
                n == self.bodies@.len(),
                0 <= t <= n,
                forall|k: int| 0 <= k < t ==> !body_matches(#[trigger] self.bodies@[k], body),
                self.bodies@ == old(self).bodies@,
                self.collections@ == old(self).collections@,
                self.name@ == old(self).name@,
            decreases n - t,
        {
            if body_eq(&self.bodies[t], &body) {
                proof {
                    assert(holds_body(self.bodies@, body));
                }
                return;
            }
            t = t + 1;
        }
        self.bodies.push(body);
    }

    /// Files one collection unless an equal one is already held.
    fn add_one_collection(&mut self, collection: Collection)
        ensures
            final(self).collections@ == added_collection(old(self).collections@, collection),
            final(self).bodies@ == old(self).bodies@,
            final(self).name@ == old(self).name@,
    {
        let n: usize = self.collections.len();
        let mut t: usize = 0;
        while t < n
            invariant
                n == self.collections@.len(),
                0 <= t <= n,
                forall|k: int|
                    0 <= k < t ==> !collection_matches(#[trigger] self.collections@[k], collection),
                self.bodies@ == old(self).bodies@,
                self.collections@ == old(self).collections@,
                self.name@ == old(self).name@,
            decreases n - t,
        {
            if collection_eq(&self.collections[t], &collection) {
                proof {
                    assert(holds_collection(self.collections@, collection));
                }
                return;
            }
            t = t + 1;
        }
        self.collections.push(collection);
    }

    /// The held bodies.
    pub fn bodies(&self) -> (r: &Vec<Body>)
        ensures
            r@ == self.bodies@,
    {
        &self.bodies
    }

    /// The held sub-collections.
    pub fn collections(&self) -> (r: &Vec<Collection>)
        ensures
            r@ == self.collections@,
    {
        &self.collections
    }
}

} // verus!
