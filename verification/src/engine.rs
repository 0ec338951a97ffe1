//! The engine: a registry of named adapters and typed providers, frozen
//! after construction.
//!
//! The registry is type-erased: it stores adapter and provider handles of
//! caller-chosen types `A` and `P` and matches an adapter to its provider
//! through a numeric type token, checked at lookup time. The builder
//! consumes and returns the engine; once built, every lookup works on
//! `&self` and nothing mutates, so one frozen engine serves any number of
//! concurrent evaluations without shared mutable state.

use vstd::prelude::*;

use crate::error::Error;
use crate::value::str_eq;

verus! {

/// Which entity to evaluate: a resource name and an optional identifier.
pub struct EvaluateEntity {
    pub name: String,
    pub id: Option<u128>,
}

impl Clone for EvaluateEntity {
    /// Clones the reference; the copy names the same entity.
    fn clone(&self) -> (r: Self)
        ensures
            r.name@ == self.name@,
            r.id == self.id,
    {
        EvaluateEntity { name: self.name.clone(), id: self.id }
    }
}

impl EvaluateEntity {
    /// Pairs a resource name with an optional identifier.
    pub fn new(name: String, id: Option<u128>) -> (r: Self)
        ensures
            r.name@ == name@,
            r.id == id,
    {
        EvaluateEntity { name, id }
    }
}

/// The map a sequence of key/value pairs denotes; later pairs win.
spec fn assoc_map<K, V>(s: Seq<(K, V)>) -> Map<K, V>
    decreases s.len(),
{
    if s.len() == 0 {
        Map::empty()
    } else {
        assoc_map(s.drop_last()).insert(s.last().0, s.last().1)
    }
}

/// Whether no two pairs share a key.
spec fn distinct_keys<K, V>(s: Seq<(K, V)>) -> bool {
    forall|i: int, j: int| 0 <= i < j < s.len() ==> (#[trigger] s[i]).0 != (#[trigger] s[j]).0
}

proof fn lemma_assoc_push<K, V>(s: Seq<(K, V)>, p: (K, V))
    ensures
        assoc_map(s.push(p)) == assoc_map(s).insert(p.0, p.1),
{
    assert(s.push(p).drop_last() =~= s);
    assert(s.push(p).last() == p);
}

/// The domain of the denoted map is exactly the set of listed keys.
proof fn lemma_assoc_dom<K, V>(s: Seq<(K, V)>)
    ensures
        assoc_map(s).dom() =~= s.map_values(|p: (K, V)| p.0).to_set(),
    decreases s.len(),
{
    if s.len() > 0 {
        lemma_assoc_dom(s.drop_last());
        let keys = s.map_values(|p: (K, V)| p.0);
        assert(keys.drop_last() =~= s.drop_last().map_values(|p: (K, V)| p.0));
        assert forall|k: K| keys.to_set().contains(k) implies assoc_map(s).dom().contains(k) by {
            let i = choose|i: int| 0 <= i < keys.len() && keys[i] == k;
            if i < keys.len() - 1 {
                assert(keys.drop_last()[i] == k);
                assert(keys.drop_last().to_set().contains(k));
            }
        }
        assert forall|k: K| assoc_map(s).dom().contains(k) implies keys.to_set().contains(k) by {
            if k == s.last().0 {
                assert(keys[keys.len() - 1] == k);
            } else {
                let i = choose|i: int|
                    0 <= i < keys.drop_last().len() && keys.drop_last()[i] == k;
                assert(keys[i] == k);
            }
        }
    } else {
        assert(s.map_values(|p: (K, V)| p.0) =~= Seq::<K>::empty());
    }
}

/// With distinct keys, the denoted map has exactly one entry per pair.
proof fn lemma_assoc_len<K, V>(s: Seq<(K, V)>)
    requires
        distinct_keys(s),
    ensures
        assoc_map(s).len() == s.len(),
    decreases s.len(),
{
    broadcast use vstd::set::axiom_set_insert_len;

    if s.len() > 0 {
        let t = s.drop_last();
        assert(distinct_keys(t)) by {
            assert(forall|i: int| 0 <= i < t.len() ==> t[i] == s[i]);
        }
        lemma_assoc_len(t);
        lemma_assoc_dom(t);
        if assoc_map(t).dom().contains(s.last().0) {
            let keys = t.map_values(|p: (K, V)| p.0);
            let i = choose|i: int| 0 <= i < keys.len() && keys[i] == s.last().0;
            assert((s[i]).0 == (s[s.len() - 1]).0);
            assert(false);
        }
    }
}

/// Updating the pair at `i` in place denotes inserting at its key.
proof fn lemma_assoc_update<K, V>(s: Seq<(K, V)>, i: int, v: V)
    requires
        distinct_keys(s),
        0 <= i < s.len(),
    ensures
        assoc_map(s.update(i, (s[i].0, v))) == assoc_map(s).insert(s[i].0, v),
    decreases s.len(),
{
    let u = s.update(i, (s[i].0, v));
    if i == s.len() - 1 {
        assert(u.drop_last() =~= s.drop_last());
        assert(u.last() == (s[i].0, v));
        assert(assoc_map(s).insert(s[i].0, v) =~= assoc_map(s.drop_last()).insert(s[i].0, v));
    } else {
        let t = s.drop_last();
        assert(distinct_keys(t)) by {
            assert(forall|j: int| 0 <= j < t.len() ==> t[j] == s[j]);
        }
        lemma_assoc_update(t, i, v);
        assert(u.drop_last() =~= t.update(i, (t[i].0, v)));
        assert(u.last() == s.last());
        // the updated key differs from the last key, so the inserts commute
        assert((s[i]).0 != (s[s.len() - 1]).0);
        assert(assoc_map(t).insert(s[i].0, v).insert(s.last().0, s.last().1) =~= assoc_map(
            t,
        ).insert(s.last().0, s.last().1).insert(s[i].0, v));
    }
}

/// A key listed nowhere is absent from the denoted map.
proof fn lemma_assoc_absent<K, V>(s: Seq<(K, V)>, k: K)
    requires
        forall|i: int| 0 <= i < s.len() ==> (#[trigger] s[i]).0 != k,
    ensures
        !assoc_map(s).dom().contains(k),
{
    lemma_assoc_dom(s);
    let keys = s.map_values(|p: (K, V)| p.0);
    if keys.to_set().contains(k) {
        let i = choose|i: int| 0 <= i < keys.len() && keys[i] == k;
        assert((s[i]).0 == k);
    }
}

/// The engine: a frozen catalog of adapters keyed by resource name and
/// providers keyed by type token, matched to each other at lookup time.
pub struct Engine<A, P> {
    adapters: Vec<(String, u64, A)>,
    providers: Vec<(u64, P)>,
}

impl<A, P> Engine<A, P> {
    /// The pairs the adapter registry denotes, keyed by name.
    closed spec fn adapter_pairs(&self) -> Seq<(Seq<char>, (u64, A))> {
        self.adapters@.map_values(|t: (String, u64, A)| (t.0@, (t.1, t.2)))
    }

    /// The registered adapters: resource name to (provider token, adapter).
    pub closed spec fn adapters_map(&self) -> Map<Seq<char>, (u64, A)> {
        assoc_map(self.adapter_pairs())
    }

    /// The registered providers: provider token to provider.
    pub closed spec fn providers_map(&self) -> Map<u64, P> {
        assoc_map(self.providers@)
    }

    /// No resource name and no provider token is registered twice.
    pub closed spec fn wf(&self) -> bool {
        distinct_keys(self.adapter_pairs()) && distinct_keys(self.providers@)
    }

    /// An engine with nothing registered.
    pub fn new() -> (r: Self)
        ensures
            r.wf(),
            r.adapters_map() == Map::<Seq<char>, (u64, A)>::empty(),
            r.providers_map() == Map::<u64, P>::empty(),
    {
        let r = Engine { adapters: Vec::new(), providers: Vec::new() };
        proof {
            assert(r.adapter_pairs() =~= Seq::<(Seq<char>, (u64, A))>::empty());
        }
        r
    }

    /// Registers `adapter` under `name`, declaring the provider type token
    /// it needs. A later registration under the same name wins.
    pub fn register_adapter(self, name: String, provider_token: u64, adapter: A) -> (r: Self)
        requires
            self.wf(),
        ensures
            r.wf(),
            r.adapters_map() == self.adapters_map().insert(name@, (provider_token, adapter)),
            r.providers_map() == self.providers_map(),
    {
        let Engine { mut adapters, providers } = self;
        let ghost orig = adapters@;
        let mut i: usize = 0;
        while i < adapters.len()
            invariant
                i <= adapters.len(),
                adapters@ == orig,
                orig == self.adapters@,
                providers@ == self.providers@,
                self.wf(),
                forall|j: int| 0 <= j < i ==> (#[trigger] orig[j]).0@ != name@,
            decreases adapters.len() - i,
        {
            if str_eq(adapters[i].0.as_str(), name.as_str()) {
                adapters[i] = (name, provider_token, adapter);
                proof {
                    let pairs = orig.map_values(|t: (String, u64, A)| (t.0@, (t.1, t.2)));
                    lemma_assoc_update(pairs, i as int, (provider_token, adapter));
                    assert(adapters@.map_values(|t: (String, u64, A)| (t.0@, (t.1, t.2)))
                        =~= pairs.update(i as int, (pairs[i as int].0, (provider_token, adapter))));
                    assert(pairs[i as int].0 == name@);
                }
                let r = Engine { adapters, providers };
                proof {
                    assert(distinct_keys(r.adapter_pairs())) by {
                        let pairs = orig.map_values(|t: (String, u64, A)| (t.0@, (t.1, t.2)));
                        assert(forall|j: int|
                            0 <= j < r.adapter_pairs().len() ==> (#[trigger] r.adapter_pairs()[j]).0
                                == pairs[j].0);
                    }
                }
                return r;
            }
            i = i + 1;
        }
        adapters.push((name, provider_token, adapter));
        let r = Engine { adapters, providers };
        proof {
            let pairs = orig.map_values(|t: (String, u64, A)| (t.0@, (t.1, t.2)));
            assert(r.adapter_pairs() =~= pairs.push((name@, (provider_token, adapter))));
            lemma_assoc_push(pairs, (name@, (provider_token, adapter)));
            assert(distinct_keys(r.adapter_pairs())) by {
                assert(forall|j: int| 0 <= j < pairs.len() ==> (#[trigger] pairs[j]).0 != name@);
            }
        }
        r
    }

    /// Registers a provider under its type token. A later registration
    /// under the same token wins: the registry holds at most one provider
    /// per distinct type.
    pub fn with_provider(self, provider_token: u64, provider: P) -> (r: Self)
        requires
            self.wf(),
        ensures
            r.wf(),
            r.providers_map() == self.providers_map().insert(provider_token, provider),
            r.adapters_map() == self.adapters_map(),
    {
        let Engine { adapters, mut providers } = self;
        let ghost orig = providers@;
        let mut i: usize = 0;
        while i < providers.len()
            invariant
                i <= providers.len(),
                providers@ == orig,
                orig == self.providers@,
                adapters@ == self.adapters@,
                self.wf(),
                forall|j: int| 0 <= j < i ==> (#[trigger] orig[j]).0 != provider_token,
            decreases providers.len() - i,
        {
            if providers[i].0 == provider_token {
                providers[i] = (provider_token, provider);
                proof {
                    lemma_assoc_update(orig, i as int, provider);
                    assert(providers@ =~= orig.update(
                        i as int,
                        (orig[i as int].0, provider),
                    ));
                }
                let r = Engine { adapters, providers };
                proof {
                    assert(distinct_keys(r.providers@)) by {
                        assert(forall|j: int|
                            0 <= j < r.providers@.len() ==> (#[trigger] r.providers@[j]).0
                                == orig[j].0);
                    }
                }
                return r;
            }
            i = i + 1;
        }
        providers.push((provider_token, provider));
        let r = Engine { adapters, providers };
        proof {
            lemma_assoc_push(orig, (provider_token, provider));
        }
        r
    }

    /// How many adapters are registered.
    pub fn adapter_count(&self) -> (n: usize)
        requires
            self.wf(),
        ensures
            n == self.adapters_map().len(),
    {
        proof {
            lemma_assoc_len(self.adapter_pairs());
        }
        self.adapters.len()
    }

    /// How many providers are registered.
    pub fn provider_count(&self) -> (n: usize)
        requires
            self.wf(),
        ensures
            n == self.providers_map().len(),
    {
        proof {
            lemma_assoc_len(self.providers@);
        }
        self.providers.len()
    }

    /// Resolves a resource name to its adapter and that adapter's
    /// provider: `AdapterNotFound` when no adapter is registered under the
    /// name, `ProviderNotFound` when the adapter's declared token has no
    /// registered provider.
    pub fn resolve<'a>(&'a self, name: &str) -> (r: Result<(&'a A, &'a P), Error>)
        ensures
            match r {
                Ok((a, p)) => self.adapters_map().contains_key(name@) && *a
                    == self.adapters_map()[name@].1 && self.providers_map().contains_key(
                    self.adapters_map()[name@].0,
                ) && *p == self.providers_map()[self.adapters_map()[name@].0],
                Err(e) => (e@ is AdapterNotFound && !self.adapters_map().contains_key(name@)) || (
                e@ is ProviderNotFound && self.adapters_map().contains_key(name@)
                    && !self.providers_map().contains_key(self.adapters_map()[name@].0)),
            },
    {
        let mut i: usize = self.adapters.len();
        proof {
            assert(self.adapter_pairs().take(i as int) =~= self.adapter_pairs());
        }
        loop
            invariant
                i <= self.adapters.len(),
                self.adapter_pairs().len() == self.adapters.len(),
                self.adapters_map().contains_key(name@) == assoc_map(
                    self.adapter_pairs().take(i as int),
                ).contains_key(name@),
                self.adapters_map().contains_key(name@) ==> self.adapters_map()[name@]
                    == assoc_map(self.adapter_pairs().take(i as int))[name@],
            decreases i,
        {
            if i == 0 {
                proof {
                    assert(self.adapter_pairs().take(0) =~= Seq::<
                        (Seq<char>, (u64, A)),
                    >::empty());
                }
                return Err(Error::AdapterNotFound);
            }
            i = i - 1;
            proof {
                assert(self.adapter_pairs().take(i + 1).drop_last() =~= self.adapter_pairs().take(
                    i as int,
                ));
                assert(self.adapter_pairs().take(i + 1).last() == self.adapter_pairs()[i as int]);
            }
            let entry = &self.adapters[i];
            if str_eq(entry.0.as_str(), name) {
                let token = entry.1;
                let adapter = &entry.2;
                let provider = match self.find_provider(token) {
                    Some(p) => p,
                    None => {
                        return Err(Error::ProviderNotFound);
                    },
                };
                return Ok((adapter, provider));
            }
        }
    }

    /// Looks up the provider registered under `token`.
    fn find_provider<'a>(&'a self, token: u64) -> (r: Option<&'a P>)
        ensures
            match r {
                Some(p) => self.providers_map().contains_key(token) && *p
                    == self.providers_map()[token],
                None => !self.providers_map().contains_key(token),
            },
    {
        let mut i: usize = self.providers.len();
        proof {
            assert(self.providers@.take(i as int) =~= self.providers@);
        }
        loop
            invariant
                i <= self.providers.len(),
                self.providers_map().contains_key(token) == assoc_map(
                    self.providers@.take(i as int),
                ).contains_key(token),
                self.providers_map().contains_key(token) ==> self.providers_map()[token]
                    == assoc_map(self.providers@.take(i as int))[token],
            decreases i,
        {
            if i == 0 {
                proof {
                    assert(self.providers@.take(0) =~= Seq::<(u64, P)>::empty());
                }
                return None;
            }
            i = i - 1;
            proof {
                assert(self.providers@.take(i + 1).drop_last() =~= self.providers@.take(i as int));
                assert(self.providers@.take(i + 1).last() == self.providers@[i as int]);
            }
            let entry = &self.providers[i];
            if entry.0 == token {
                return Some(&entry.1);
            }
        }
    }

    /// Plans the loading of one entity reference. A reference without an
    /// identifier resolves to no fetch at all — the caller uses the empty
    /// entity — unless an identifier is required (the subject always is),
    /// which is `SubjectNotFound`. With an identifier, the name must
    /// resolve through the registry as in [`Engine::resolve`].
    pub fn plan_load<'a>(&'a self, target: &EvaluateEntity, require_id: bool) -> (r: Result<
        Option<(u128, &'a A, &'a P)>,
        Error,
    >)
        ensures
            match r {
                Ok(Some((id, a, p))) => target.id == Some(id)
                    && self.adapters_map().contains_key(target.name@) && *a
                    == self.adapters_map()[target.name@].1 && self.providers_map().contains_key(
                    self.adapters_map()[target.name@].0,
                ) && *p == self.providers_map()[self.adapters_map()[target.name@].0],
                Ok(None) => target.id is None && !require_id,
                Err(e) => (target.id is None && require_id && e@ is SubjectNotFound) || (
                target.id is Some && ((e@ is AdapterNotFound && !self.adapters_map().contains_key(
                    target.name@,
                )) || (e@ is ProviderNotFound && self.adapters_map().contains_key(target.name@)
                    && !self.providers_map().contains_key(
                    self.adapters_map()[target.name@].0,
                )))),
            },
    {
        match target.id {
            None => if require_id {
                Err(Error::SubjectNotFound)
            } else {
                Ok(None)
            },
            Some(id) => match self.resolve(target.name.as_str()) {
                Ok((a, p)) => Ok(Some((id, a, p))),
                Err(e) => Err(e),
            },
        }
    }
}

} // verus!
