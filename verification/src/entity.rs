//! Entities and their attribute maps.
//!
//! An entity is anything that can project itself into an [`Attributes`] map
//! from field name to [`Value`]. The engine only ever sees that map.

use vstd::prelude::*;

use crate::error::Error;
use crate::value::{str_eq, Value, ValueView};

verus! {

/// An attribute map from field name to value. A later insertion of the same
/// name wins, as in a hash map.
pub struct Attributes {
    pairs: Vec<(String, Value)>,
}

/// The map denoted by a sequence of name/value pairs; later pairs win.
spec fn pairs_map(s: Seq<(String, Value)>) -> Map<Seq<char>, ValueView>
    decreases s.len(),
{
    if s.len() == 0 {
        Map::empty()
    } else {
        pairs_map(s.drop_last()).insert(s.last().0@, s.last().1@)
    }
}

proof fn lemma_pairs_map_push(s: Seq<(String, Value)>, p: (String, Value))
    ensures
        pairs_map(s.push(p)) == pairs_map(s).insert(p.0@, p.1@),
{
    assert(s.push(p).drop_last() =~= s);
    assert(s.push(p).last() == p);
}

impl View for Attributes {
    type V = Map<Seq<char>, ValueView>;

    closed spec fn view(&self) -> Map<Seq<char>, ValueView> {
        pairs_map(self.pairs@)
    }
}

impl Attributes {
    /// An empty attribute map.
    pub fn new() -> (r: Self)
        ensures
            r@ == Map::<Seq<char>, ValueView>::empty(),
    {
        Attributes { pairs: Vec::new() }
    }

    /// Binds `name` to `value`, replacing any earlier binding of `name`.
    pub fn insert(&mut self, name: String, value: Value)
        ensures
            final(self)@ == old(self)@.insert(name@, value@),
    {
        let ghost old_pairs = self.pairs@;
        let ghost p = (name, value);
        self.pairs.push((name, value));
        proof {
            lemma_pairs_map_push(old_pairs, p);
        }
    }

    /// Looks up the value bound to `name`, or `None` if `name` is absent.
    pub fn get<'a>(&'a self, name: &str) -> (r: Option<&'a Value>)
        ensures
            match r {
                Some(v) => self@.contains_key(name@) && v@ == self@[name@],
                None => !self@.contains_key(name@),
            },
    {
        let mut i: usize = self.pairs.len();
        proof {
            assert(self.pairs@.take(i as int) =~= self.pairs@);
        }
        loop
            invariant
                i <= self.pairs.len(),
                self@.contains_key(name@) == pairs_map(self.pairs@.take(i as int)).contains_key(
                    name@,
                ),
                self@.contains_key(name@) ==> self@[name@] == pairs_map(
                    self.pairs@.take(i as int),
                )[name@],
            decreases i,
        {
            if i == 0 {
                proof {
                    assert(self.pairs@.take(0) =~= Seq::<(String, Value)>::empty());
                }
                return None;
            }
            i = i - 1;
            proof {
                assert(self.pairs@.take(i + 1).drop_last() =~= self.pairs@.take(i as int));
                assert(self.pairs@.take(i + 1).last() == self.pairs@[i as int]);
            }
            let p = &self.pairs[i];
            if str_eq(p.0.as_str(), name) {
                return Some(&p.1);
            }
        }
    }

    /// The names bound in this map; every bound name is listed and every
    /// listed name is bound.
    pub fn field_names(&self) -> (r: Vec<String>)
        ensures
            r@.map_values(|n: String| n@).to_set() == self@.dom(),
    {
        let mut r: Vec<String> = Vec::new();
        let mut i: usize = 0;
        while i < self.pairs.len()
            invariant
                i <= self.pairs.len(),
                r@.map_values(|n: String| n@) =~= self.pairs@.take(i as int).map_values(
                    |p: (String, Value)| p.0@,
                ),
            decreases self.pairs.len() - i,
        {
            let p = &self.pairs[i];
            r.push(p.0.clone());
            proof {
                assert(self.pairs@.take(i + 1) =~= self.pairs@.take(i as int).push(
                    self.pairs@[i as int],
                ));
                assert(r@.map_values(|n: String| n@) =~= self.pairs@.take(i as int).map_values(
                    |p: (String, Value)| p.0@,
                ).push(self.pairs@[i as int].0@));
                assert(self.pairs@.take(i + 1).map_values(|p: (String, Value)| p.0@)
                    =~= self.pairs@.take(i as int).map_values(|p: (String, Value)| p.0@).push(
                    self.pairs@[i as int].0@,
                ));
            }
            i = i + 1;
        }
        proof {
            assert(self.pairs@.take(self.pairs@.len() as int) =~= self.pairs@);
            lemma_pairs_map_dom(self.pairs@);
        }
        r
    }
}

/// The domain of the denoted map is exactly the set of listed names.
proof fn lemma_pairs_map_dom(s: Seq<(String, Value)>)
    ensures
        pairs_map(s).dom() =~= s.map_values(|p: (String, Value)| p.0@).to_set(),
    decreases s.len(),
{
    if s.len() == 0 {
        assert(s.map_values(|p: (String, Value)| p.0@) =~= Seq::<Seq<char>>::empty());
    } else {
        lemma_pairs_map_dom(s.drop_last());
        let keys = s.map_values(|p: (String, Value)| p.0@);
        assert(keys.drop_last() =~= s.drop_last().map_values(|p: (String, Value)| p.0@));
        assert forall|k: Seq<char>| keys.to_set().contains(k) implies pairs_map(s).dom().contains(
            k,
        ) by {
            let i = choose|i: int| 0 <= i < keys.len() && keys[i] == k;
            if i < keys.len() - 1 {
                assert(keys.drop_last()[i] == k);
                assert(keys.drop_last().to_set().contains(k));
            }
        }
        assert forall|k: Seq<char>| pairs_map(s).dom().contains(k) implies keys.to_set().contains(
            k,
        ) by {
            if k == s.last().0@ {
                assert(keys[keys.len() - 1] == k);
            } else {
                let i = choose|i: int|
                    0 <= i < keys.drop_last().len() && keys.drop_last()[i] == k;
                assert(keys[i] == k);
            }
        }
    }
}

impl Clone for Attributes {
    /// Clones the map; the copy denotes the same attributes.
    fn clone(&self) -> (r: Self)
        ensures
            r@ == self@,
    {
        let mut pairs: Vec<(String, Value)> = Vec::new();
        let mut i: usize = 0;
        while i < self.pairs.len()
            invariant
                i <= self.pairs.len(),
                pairs@ =~= self.pairs@.take(i as int),
            decreases self.pairs.len() - i,
        {
            let p = &self.pairs[i];
            pairs.push((p.0.clone(), p.1.clone()));
            proof {
                assert(self.pairs@.take(i + 1) =~= self.pairs@.take(i as int).push(
                    self.pairs@[i as int],
                ));
            }
            i = i + 1;
        }
        proof {
            assert(self.pairs@.take(self.pairs@.len() as int) =~= self.pairs@);
        }
        Attributes { pairs }
    }
}

/// Anything that can expose itself to the engine as an attribute map.
///
/// `model` is the mathematical attribute map of the entity;
/// `serializable` says whether the projection into that map can succeed.
pub trait Entity {
    /// The attribute map this entity denotes.
    spec fn model(&self) -> Map<Seq<char>, ValueView>;

    /// Whether the projection into attributes succeeds.
    spec fn serializable(&self) -> bool;

    /// Projects the entity into its attribute map.
    fn to_attributes(&self) -> (r: Result<Attributes, Error>)
        ensures
            match r {
                Ok(a) => self.serializable() && a@ == self.model(),
                Err(e) => !self.serializable() && (e@ is SerializationError),
            },
    ;

    /// The entity's field names.
    fn field_names(&self) -> (r: Vec<String>)
        ensures
            r@.map_values(|n: String| n@).to_set() == self.model().dom(),
    ;
}

impl Entity for Attributes {
    open spec fn model(&self) -> Map<Seq<char>, ValueView> {
        self@
    }

    open spec fn serializable(&self) -> bool {
        true
    }

    fn to_attributes(&self) -> (r: Result<Attributes, Error>) {
        Ok(self.clone())
    }

    fn field_names(&self) -> (r: Vec<String>) {
        Attributes::field_names(self)
    }
}

/// The distinguished entity with no fields, used when no resource is
/// supplied to an evaluation.
pub struct EmptyEntity;

impl Entity for EmptyEntity {
    open spec fn model(&self) -> Map<Seq<char>, ValueView> {
        Map::empty()
    }

    open spec fn serializable(&self) -> bool {
        true
    }

    fn to_attributes(&self) -> (r: Result<Attributes, Error>) {
        Ok(Attributes::new())
    }

    fn field_names(&self) -> (r: Vec<String>) {
        proof {
            assert(Seq::<Seq<char>>::empty().to_set() =~= Map::<Seq<char>, ValueView>::empty()
                .dom());
            assert(Seq::<String>::empty().map_values(|n: String| n@) =~= Seq::<Seq<char>>::empty());
        }
        Vec::new()
    }
}

/// A dummy entity with no fields at all, used in place of the object when a
/// policy is evaluated without one.
pub struct NullEntity;

impl Entity for NullEntity {
    open spec fn model(&self) -> Map<Seq<char>, ValueView> {
        Map::empty()
    }

    open spec fn serializable(&self) -> bool {
        true
    }

    fn to_attributes(&self) -> (r: Result<Attributes, Error>) {
        Ok(Attributes::new())
    }

    fn field_names(&self) -> (r: Vec<String>) {
        proof {
            assert(Seq::<Seq<char>>::empty().to_set() =~= Map::<Seq<char>, ValueView>::empty()
                .dom());
            assert(Seq::<String>::empty().map_values(|n: String| n@) =~= Seq::<Seq<char>>::empty());
        }
        Vec::new()
    }
}

} // verus!
