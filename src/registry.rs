//! The connection registry: which connections are open, how many strong
//! handles keep each alive, and a cache from the parameters a connection was
//! opened with to that connection.
//!
//! A connection is named by the number it was opened as; numbers are handed
//! out in order and never reused. A strong handle (`Store`) keeps its
//! connection open; a weak handle (`StoreWeak`) only names it, and upgrades to
//! a strong one while some strong handle is still around. Once the last strong
//! handle is released the connection is closed for good: no weak handle to it
//! upgrades again, whatever is opened later.
use vstd::prelude::*;

use crate::context::{c_string_ok, check_c_string, Context, Error, STATUS_OK};
use crate::init::{init_error_message, InitState};

verus! {

/// What a cache key stands for: the URL, if any, and the parameters in the
/// order they were given.
pub type KeyView = (Option<Seq<char>>, Seq<(Seq<char>, Seq<char>)>);

/// The key that connections are cached under. The order of the parameters is
/// part of the key.
pub struct StoreKey {
    url: Option<String>,
    params: Vec<(String, String)>,
}

/// What an optional URL argument stands for.
pub open spec fn url_view(url: Option<&str>) -> Option<Seq<char>> {
    match url {
        Some(u) => Some(u@),
        None => None,
    }
}

/// What a list of parameter arguments stands for, in the order given.
pub open spec fn params_view(params: Seq<(&str, &str)>) -> Seq<(Seq<char>, Seq<char>)> {
    params.map_values(|p: (&str, &str)| (p.0@, p.1@))
}

/// A parameter whose name and value can both be passed as C strings.
pub open spec fn param_ok(p: (Seq<char>, Seq<char>)) -> bool {
    c_string_ok(p.0) && c_string_ok(p.1)
}

/// A key whose URL and parameters can all be passed as C strings.
pub open spec fn key_c_ok(k: KeyView) -> bool {
    (k.0 matches Some(u) ==> c_string_ok(u)) && forall|j: int|
        0 <= j < k.1.len() ==> param_ok(#[trigger] k.1[j])
}

impl View for StoreKey {
    type V = KeyView;

    closed spec fn view(&self) -> KeyView {
        (
            match self.url {
                Some(u) => Some(u@),
                None => None,
            },
            self.params@.map_values(|p: (String, String)| (p.0@, p.1@)),
        )
    }
}

fn url_eq(a: &Option<String>, b: &Option<String>) -> (r: bool)
    ensures
        r == (match a {
            Some(u) => Some(u@),
            None => None::<Seq<char>>,
        } == match b {
            Some(u) => Some(u@),
            None => None::<Seq<char>>,
        }),
{
    match (a, b) {
        (Some(x), Some(y)) => x.eq(y),
        (None, None) => true,
        _ => false,
    }
}

impl StoreKey {
    /// The key for opening with `url` and `params`, the parameters kept in
    /// the order given.
    pub fn new(url: Option<&str>, params: &[(&str, &str)]) -> (r: StoreKey)
        ensures
            r@ == (url_view(url), params_view(params@)),
    {
        let owned_url = match url {
            Some(u) => Some(u.to_owned()),
            None => None,
        };
        let mut owned: Vec<(String, String)> = Vec::new();
        let mut i: usize = 0;
        while i < params.len()
            invariant
                i <= params@.len(),
                owned@.len() == i,
                forall|j: int|
                    0 <= j < i ==> (#[trigger] owned@[j]).0@ == params@[j].0@ && owned@[j].1@
                        == params@[j].1@,
            decreases params@.len() - i,
        {
            owned.push((params[i].0.to_owned(), params[i].1.to_owned()));
            i = i + 1;
        }
        let r = StoreKey { url: owned_url, params: owned };
        assert(r@.1 =~= params_view(params@));
        r
    }

    /// Whether two keys are the same key.
    pub fn same_key(&self, other: &StoreKey) -> (r: bool)
        ensures
            r == (self@ == other@),
    {
        if !url_eq(&self.url, &other.url) {
            return false;
        }
        let n = self.params.len();
        if n != other.params.len() {
            assert(self@.1.len() != other@.1.len());
            return false;
        }
        let mut i: usize = 0;
        while i < n
            invariant
                n == self.params@.len(),
                n == other.params@.len(),
                i <= n,
                forall|j: int| 0 <= j < i ==> #[trigger] self@.1[j] == other@.1[j],
            decreases n - i,
        {
            if !(self.params[i].0 == other.params[i].0 && self.params[i].1 == other.params[i].1) {
                assert(self@.1[i as int] != other@.1[i as int]);
                return false;
            }
            i = i + 1;
        }
        assert(self@.1 =~= other@.1);
        true
    }

    /// Checks, before the native open, that the URL and every parameter name
    /// and value can be passed as C strings.
    pub fn check_c_strings(&self) -> (r: Result<(), Error>)
        ensures
            r is Ok <==> key_c_ok(self@),
    {
        match &self.url {
            Some(u) => {
                if check_c_string(u.as_str()).is_err() {
                    return Err(Error::with_detail("store URL holds a NUL character: ", u.as_str()));
                }
            },
            None => {},
        }
        let mut i: usize = 0;
        while i < self.params.len()
            invariant
                i <= self.params@.len(),
                self@.0 matches Some(u) ==> c_string_ok(u),
                forall|j: int| 0 <= j < i ==> param_ok(#[trigger] self@.1[j]),
            decreases self.params@.len() - i,
        {
            assert(self@.1[i as int] == (self.params@[i as int].0@, self.params@[i as int].1@));
            let name = self.params[i].0.as_str();
            let value = self.params[i].1.as_str();
            let a = check_c_string(name);
            let b = check_c_string(value);
            assert(name@ == self@.1[i as int].0 && value@ == self@.1[i as int].1);
            if a.is_err() || b.is_err() {
                assert(!param_ok(self@.1[i as int]));
                return Err(Error::new("store parameter holds a NUL character"));
            }
            assert(param_ok(self@.1[i as int]));
            i = i + 1;
        }
        assert(self@.1.len() == self.params@.len());
        assert(self@.0 matches Some(u) ==> c_string_ok(u));
        Ok(())
    }

    /// A copy of the key.
    pub fn duplicate(&self) -> (r: StoreKey)
        ensures
            r@ == self@,
    {
        let url = match &self.url {
            Some(u) => Some(u.clone()),
            None => None,
        };
        let mut params: Vec<(String, String)> = Vec::new();
        let mut i: usize = 0;
        while i < self.params.len()
            invariant
                i <= self.params@.len(),
                params@.len() == i,
                forall|j: int|
                    0 <= j < i ==> (#[trigger] params@[j]).0@ == self.params@[j].0@
                        && params@[j].1@ == self.params@[j].1@,
            decreases self.params@.len() - i,
        {
            params.push((self.params[i].0.clone(), self.params[i].1.clone()));
            i = i + 1;
        }
        let r = StoreKey { url, params };
        assert(r@.1 =~= self@.1);
        r
    }
}

/// A strong handle to an open connection, with an error context of its own.
pub struct Store {
    id: u64,
    context: Context,
}

/// A weak handle to a connection: it names the connection without keeping it
/// open.
pub struct StoreWeak {
    id: u64,
}

impl Store {
    /// The number of the connection this handle holds.
    pub closed spec fn conn(&self) -> nat {
        self.id as nat
    }

    /// The number of the connection this handle holds.
    pub fn connection(&self) -> (r: u64)
        ensures
            r == self.conn(),
    {
        self.id
    }

    /// A weak handle to the same connection.
    pub fn weak_ref(&self) -> (r: StoreWeak)
        ensures
            r.conn() == self.conn(),
    {
        StoreWeak { id: self.id }
    }

    /// This handle's error context, fresh when the handle was made.
    pub fn context(&self) -> (r: &Context)
        ensures
            r == self.ctx(),
    {
        &self.context
    }

    /// This handle's error context.
    pub closed spec fn ctx(&self) -> &Context {
        &self.context
    }

    /// Records in this handle's error context what a native call made
    /// through the handle reported.
    pub fn record_status(&mut self, code: i32, message: String)
        ensures
            final(self).ctx()@ == (code, message@),
            final(self).conn() == old(self).conn(),
    {
        self.context.set_err(code, message);
    }

    /// Turns the outcome of the last native call made through this handle
    /// into a `Result`, as `Context::check` does with the handle's context.
    pub fn check<T>(&mut self, value: T) -> (r: Result<T, Error>)
        ensures
            final(self).conn() == old(self).conn(),
            old(self).ctx()@.0 == STATUS_OK ==> r == Ok::<T, Error>(value) && final(self).ctx()@
                == old(self).ctx()@,
            old(self).ctx()@.0 != STATUS_OK ==> r is Err && r->Err_0@ == old(self).ctx()@.1
                && final(self).ctx()@ == Context::new_view(),
    {
        self.context.check(value)
    }
}

impl StoreWeak {
    /// The number of the connection this handle names.
    pub closed spec fn conn(&self) -> nat {
        self.id as nat
    }

    /// The number of the connection this handle names.
    pub fn connection(&self) -> (r: u64)
        ensures
            r == self.conn(),
    {
        self.id
    }

    /// A strong handle to the connection that this weak handle names, if a
    /// strong handle to it is still around; otherwise `None`.
    pub fn upgrade(&self, registry: &mut Registry) -> (r: Option<Store>)
        requires
            old(registry).wf(),
            self.conn() < old(registry).view().strong.len(),
            old(registry).view().strong[self.conn() as int] < u64::MAX,
        ensures
            final(registry).wf(),
            old(registry).view().alive(self.conn()) ==> (r matches Some(s) && s.conn() == self.conn()
                && s.ctx()@ == Context::new_view()
                && final(registry).view() == old(registry).view().acquired(self.conn())),
            !old(registry).view().alive(self.conn()) ==> r is None && final(registry).view()
                == old(registry).view(),
    {
        proof {
            registry.lemma_strong_view();
        }
        let _len = registry.strong.len();
        if registry.strong[self.id as usize] > 0 {
            Some(registry.acquire(self.id))
        } else {
            None
        }
    }
}

/// What the registry holds: the cache from keys to connection numbers, and
/// for each connection opened so far the number of strong handles to it.
pub struct RegistryView {
    pub cache: Map<KeyView, nat>,
    pub strong: Seq<nat>,
}

impl RegistryView {
    /// Connection `id` has been opened and is still held by a strong handle.
    pub open spec fn alive(self, id: nat) -> bool {
        id < self.strong.len() && self.strong[id as int] > 0
    }

    /// Connection `id` was opened and has been closed.
    pub open spec fn closed(self, id: nat) -> bool {
        id < self.strong.len() && self.strong[id as int] == 0
    }

    /// The connection that opening under `key` hands out from the cache: the
    /// one cached under `key`, where it is still alive.
    pub open spec fn cached(self, key: KeyView) -> Option<nat> {
        if self.cache.contains_key(key) && self.alive(self.cache[key]) {
            Some(self.cache[key])
        } else {
            None
        }
    }

    /// The number the next connection opened gets.
    pub open spec fn next(self) -> nat {
        self.strong.len()
    }

    /// After a new connection is opened and cached under `key`.
    pub open spec fn registered(self, key: KeyView) -> RegistryView {
        RegistryView { cache: self.cache.insert(key, self.next()), strong: self.strong.push(1) }
    }

    /// After a new connection is opened outside the cache.
    pub open spec fn registered_uncached(self) -> RegistryView {
        RegistryView { cache: self.cache, strong: self.strong.push(1) }
    }

    /// After one more strong handle to connection `id` is made.
    pub open spec fn acquired(self, id: nat) -> RegistryView {
        RegistryView {
            cache: self.cache,
            strong: self.strong.update(id as int, self.strong[id as int] + 1),
        }
    }

    /// After one strong handle to connection `id` is released.
    pub open spec fn released(self, id: nat) -> RegistryView {
        RegistryView {
            cache: self.cache,
            strong: self.strong.update(id as int, (self.strong[id as int] - 1) as nat),
        }
    }
}

/// The registry of connections.
pub struct Registry {
    keys: Vec<StoreKey>,
    ids: Vec<u64>,
    strong: Vec<u64>,
}

impl Registry {
    /// The cached keys, in the order the cache holds them.
    pub closed spec fn key_views(&self) -> Seq<KeyView> {
        self.keys@.map_values(|k: StoreKey| k@)
    }

    /// The cache and the strong counts that this registry holds.
    pub closed spec fn view(&self) -> RegistryView {
        RegistryView {
            cache: Map::new(
                |k: KeyView| self.key_views().contains(k),
                |k: KeyView| self.ids@[self.key_views().index_of(k)] as nat,
            ),
            strong: self.strong@.map_values(|c: u64| c as nat),
        }
    }

    /// The cache lists each key once, beside its connection number, and
    /// every connection number fits in a `u64`.
    pub closed spec fn wf(&self) -> bool {
        &&& self.keys@.len() == self.ids@.len()
        &&& forall|i: int, j: int|
            0 <= i < j < self.keys@.len() ==> #[trigger] self.key_views()[i]
                != #[trigger] self.key_views()[j]
        &&& forall|i: int| 0 <= i < self.ids@.len() ==> #[trigger] self.ids@[i] < self.strong@.len()
        &&& self.strong@.len() < u64::MAX
    }

    /// Whether `s` is a live strong handle of this registry.
    pub open spec fn holds(&self, s: &Store) -> bool {
        self.view().alive(s.conn())
    }

    /// An empty registry: nothing opened, nothing cached.
    pub fn new() -> (r: Registry)
        ensures
            r.wf(),
            r.view().strong.len() == 0,
            r.view().cache.dom().len() == 0,
    {
        let r = Registry { keys: Vec::new(), ids: Vec::new(), strong: Vec::new() };
        assert(r.view().cache.dom() =~= Set::<KeyView>::empty());
        r
    }

    proof fn lemma_strong_view(&self)
        ensures
            self.view().strong.len() == self.strong@.len(),
            forall|i: int|
                0 <= i < self.strong@.len() ==> #[trigger] self.view().strong[i]
                    == self.strong@[i] as nat,
    {
    }

    /// The position of `key` in the cache, if it is there.
    fn find(&self, key: &StoreKey) -> (r: Option<usize>)
        requires
            self.wf(),
        ensures
            r is None <==> !self.view().cache.contains_key(key@),
            r matches Some(i) ==> i < self.keys@.len() && self.key_views()[i as int] == key@
                && self.view().cache[key@] == self.ids@[i as int],
    {
        let n = self.keys.len();
        let mut i: usize = 0;
        while i < n
            invariant
                self.wf(),
                n == self.keys@.len(),
                i <= n,
                forall|j: int| 0 <= j < i ==> #[trigger] self.key_views()[j] != key@,
            decreases n - i,
        {
            if self.keys[i].same_key(key) {
                proof {
                    assert(self.key_views()[i as int] == key@);
                    assert(self.key_views().contains(key@));
                    let k = self.key_views().index_of(key@);
                    assert(0 <= k < self.key_views().len() && self.key_views()[k] == key@);
                    if k != i {
                        if k < i {
                            assert(self.key_views()[k] != self.key_views()[i as int]);
                        } else {
                            assert(self.key_views()[i as int] != self.key_views()[k]);
                        }
                    }
                }
                return Some(i);
            }
            i = i + 1;
        }
        None
    }

    /// The number of connections opened so far.
    pub fn opened(&self) -> (r: u64)
        ensures
            r == self.view().strong.len(),
    {
        proof {
            self.lemma_strong_view();
        }
        self.strong.len() as u64
    }

    /// The number of strong handles to connection `id`.
    pub fn strong_count(&self, id: u64) -> (r: u64)
        requires
            id < self.view().strong.len(),
        ensures
            r == self.view().strong[id as int],
    {
        proof {
            self.lemma_strong_view();
        }
        let _len = self.strong.len();
        self.strong[id as usize]
    }

    fn acquire(&mut self, id: u64) -> (r: Store)
        requires
            old(self).wf(),
            old(self).view().alive(id as nat),
            old(self).view().strong[id as int] < u64::MAX,
        ensures
            final(self).wf(),
            final(self).view() == old(self).view().acquired(id as nat),
            final(self).key_views() == old(self).key_views(),
            final(self).ids@ == old(self).ids@,
            r.conn() == id,
            r.ctx()@ == Context::new_view(),
    {
        proof {
            old(self).lemma_strong_view();
        }
        let _len = self.strong.len();
        let i = id as usize;
        let c = self.strong[i];
        self.strong[i] = c + 1;
        proof {
            self.lemma_strong_view();
            assert(self.view().strong =~= old(self).view().acquired(id as nat).strong);
            assert(self.key_views() =~= old(self).key_views());
            assert(self.view().cache =~= old(self).view().cache);
        }
        Store { id, context: Context::new() }
    }

    /// Opening under `key` from the cache: where a connection cached under
    /// `key` is still alive, a new strong handle to it, and no new connection
    /// need be opened; otherwise `None`, and the registry is unchanged.
    pub fn lookup(&mut self, key: &StoreKey) -> (r: Option<Store>)
        requires
            old(self).wf(),
            old(self).view().cached(key@) matches Some(id) ==> old(self).view().strong[id as int]
                < u64::MAX,
        ensures
            final(self).wf(),
            match old(self).view().cached(key@) {
                Some(id) => r matches Some(s) && s.conn() == id && s.ctx()@ == Context::new_view()
                    && final(self).view() == old(self).view().acquired(id),
                None => r is None && final(self).view() == old(self).view(),
            },
    {
        proof {
            self.lemma_strong_view();
        }
        match self.find(key) {
            Some(i) => {
                let id = self.ids[i];
                let _len = self.strong.len();
                if self.strong[id as usize] > 0 {
                    Some(self.acquire(id))
                } else {
                    None
                }
            },
            None => None,
        }
    }

    /// Records a connection that was just opened for `key`: it gets the next
    /// number, one strong handle, and replaces whatever the cache held under
    /// `key`.
    pub fn register(&mut self, key: StoreKey) -> (r: Store)
        requires
            old(self).wf(),
            old(self).view().strong.len() + 1 < u64::MAX,
        ensures
            final(self).wf(),
            final(self).view() == old(self).view().registered(key@),
            r.conn() == old(self).view().next(),
            r.ctx()@ == Context::new_view(),
    {
        let id = self.strong.len() as u64;
        let ghost kv = key@;
        let ghost n0 = self.keys@.len();
        match self.find(&key) {
            Some(i) => {
                self.ids[i] = id;
                proof {
                    assert forall|j: int| 0 <= j < n0 implies #[trigger] self.ids@[j] == if old(
                        self,
                    ).key_views()[j] == kv {
                        id
                    } else {
                        old(self).ids@[j]
                    } by {
                        if j != i && old(self).key_views()[j] == kv {
                            if j < i {
                                assert(old(self).key_views()[j] != old(self).key_views()[i as int]);
                            } else {
                                assert(old(self).key_views()[i as int] != old(self).key_views()[j]);
                            }
                        }
                    }
                }
            },
            None => {
                proof {
                    assert forall|j: int| 0 <= j < n0 implies #[trigger] old(self).key_views()[j]
                        != kv by {
                        if old(self).key_views()[j] == kv {
                            assert(old(self).key_views().contains(kv));
                        }
                    }
                }
                self.keys.push(key);
                self.ids.push(id);
            },
        }
        self.strong.push(1);
        proof {
            let nk = self.keys@.len();
            assert(nk == n0 || (nk == n0 + 1 && self.key_views()[n0 as int] == kv
                && self.ids@[n0 as int] == id));
            assert(nk == n0 ==> old(self).key_views().contains(kv));
            assert forall|j: int| 0 <= j < n0 implies #[trigger] self.key_views()[j] == old(
                self,
            ).key_views()[j] by {}
            assert(nk == n0 + 1 ==> forall|j: int| 0 <= j < n0 ==> #[trigger] old(self).key_views()[j] != kv);
            assert(forall|j: int| 0 <= j < n0 ==> #[trigger] self.ids@[j] == if old(self).key_views()[j] == kv {
                id
            } else {
                old(self).ids@[j]
            });
            assert(self.view().strong =~= old(self).view().registered(kv).strong);
            assert forall|i: int| 0 <= i < self.ids@.len() implies #[trigger] self.ids@[i]
                < self.strong@.len() by {}
            assert forall|i: int, j: int|
                0 <= i < j < self.keys@.len() implies #[trigger] self.key_views()[i]
                != #[trigger] self.key_views()[j] by {
                assert(self.key_views()[i] == old(self).key_views()[i]);
                if j < n0 {
                    assert(self.key_views()[j] == old(self).key_views()[j]);
                }
            }
            let want = old(self).view().registered(kv).cache;
            assert forall|k: KeyView| self.view().cache.contains_key(k) <==> want.contains_key(k) by {
                if want.contains_key(k) {
                    if k != kv {
                        let j = old(self).key_views().index_of(k);
                        assert(self.key_views()[j] == k);
                    } else if nk == n0 {
                        let j = old(self).key_views().index_of(kv);
                        assert(self.key_views()[j] == kv);
                    } else {
                        assert(self.key_views()[n0 as int] == kv);
                    }
                }
                if self.view().cache.contains_key(k) && k != kv {
                    let j = self.key_views().index_of(k);
                    if j < n0 {
                        assert(old(self).key_views()[j] == k);
                    }
                }
            }
            assert forall|k: KeyView| #[trigger] self.view().cache.contains_key(k) implies self.view().cache[k]
                == want[k] by {
                let j = self.key_views().index_of(k);
                assert(0 <= j < nk && self.key_views()[j] == k);
                if k != kv {
                    assert(j < n0);
                    assert(old(self).key_views()[j] == k);
                    assert(old(self).key_views().contains(k));
                    let j0 = old(self).key_views().index_of(k);
                    if j != j0 {
                        if j < j0 {
                            assert(old(self).key_views()[j] != old(self).key_views()[j0]);
                        } else {
                            assert(old(self).key_views()[j0] != old(self).key_views()[j]);
                        }
                    }
                } else if j < n0 {
                    assert(old(self).key_views()[j] == kv);
                }
            }
            assert(self.view().cache =~= want);
        }
        Store { id, context: Context::new() }
    }

    /// Records a connection that was just opened outside the cache: it gets
    /// the next number and one strong handle, and the cache is unchanged.
    pub fn register_uncached(&mut self) -> (r: Store)
        requires
            old(self).wf(),
            old(self).view().strong.len() + 1 < u64::MAX,
        ensures
            final(self).wf(),
            final(self).view() == old(self).view().registered_uncached(),
            r.conn() == old(self).view().next(),
            r.ctx()@ == Context::new_view(),
    {
        let id = self.strong.len() as u64;
        self.strong.push(1);
        proof {
            assert(self.view().strong =~= old(self).view().registered_uncached().strong);
            assert(self.view().cache =~= old(self).view().cache);
        }
        Store { id, context: Context::new() }
    }

    /// Another strong handle to the connection that `s` holds, with a fresh
    /// error context of its own.
    pub fn clone_store(&mut self, s: &Store) -> (r: Store)
        requires
            old(self).wf(),
            old(self).holds(s),
            old(self).view().strong[s.conn() as int] < u64::MAX,
        ensures
            final(self).wf(),
            final(self).view() == old(self).view().acquired(s.conn()),
            r.conn() == s.conn(),
            r.ctx()@ == Context::new_view(),
    {
        self.acquire(s.id)
    }

    /// Releases strong handle `s`; returns whether it was the last one, in
    /// which case the connection is closed.
    pub fn release(&mut self, s: Store) -> (r: bool)
        requires
            old(self).wf(),
            old(self).holds(&s),
        ensures
            final(self).wf(),
            final(self).view() == old(self).view().released(s.conn()),
            r == (final(self).view().strong[s.conn() as int] == 0),
    {
        proof {
            old(self).lemma_strong_view();
        }
        let _len = self.strong.len();
        let i = s.id as usize;
        let c = self.strong[i];
        self.strong[i] = c - 1;
        proof {
            self.lemma_strong_view();
            assert(self.view().strong =~= old(self).view().released(s.conn()).strong);
            assert(self.key_views() =~= old(self).key_views());
            assert(self.view().cache =~= old(self).view().cache);
        }
        c == 1
    }
}

/// What opening under a key comes to before any native call: a connection
/// from the cache, or the key to open a new connection for.
pub enum OpenStep {
    Cached(Store),
    NeedsOpen(StoreKey),
}

impl Store {
    /// The first half of opening a connection with `url` and `params`. Where
    /// the cache holds a live connection under that key, a new strong handle
    /// to it. Otherwise nothing changes, and the open fails where the native
    /// library's initialization failed, or a string holds a NUL character;
    /// else the caller opens a connection natively for the returned key and
    /// records it with `Registry::register`.
    pub fn open(
        registry: &mut Registry,
        init: &InitState,
        url: Option<&str>,
        params: &[(&str, &str)],
    ) -> (r: Result<OpenStep, Error>)
        requires
            old(registry).wf(),
            init@ is Some,
            old(registry).view().cached((url_view(url), params_view(params@))) matches Some(id)
                ==> old(registry).view().strong[id as int] < u64::MAX,
        ensures
            final(registry).wf(),
            ({
                let key = (url_view(url), params_view(params@));
                match old(registry).view().cached(key) {
                    Some(id) => {
                        &&& r matches Ok(OpenStep::Cached(s)) && s.conn() == id && s.ctx()@
                            == Context::new_view()
                        &&& final(registry).view() == old(registry).view().acquired(id)
                    },
                    None => {
                        &&& final(registry).view() == old(registry).view()
                        &&& (r is Ok <==> init@ == Some(None::<Seq<char>>) && key_c_ok(key))
                        &&& (r matches Ok(step) ==> step matches OpenStep::NeedsOpen(k) && k@ == key)
                        &&& (init@ matches Some(Some(m)) ==> r matches Err(e) && e@
                            == init_error_message(m))
                    },
                }
            }),
    {
        let key = StoreKey::new(url, params);
        match registry.lookup(&key) {
            Some(s) => Ok(OpenStep::Cached(s)),
            None => {
                init.outcome()?;
                key.check_c_strings()?;
                Ok(OpenStep::NeedsOpen(key))
            },
        }
    }

    /// The first half of opening a connection outside the cache: it fails
    /// where the native library's initialization failed, or a string holds a
    /// NUL character; else the caller opens natively and records the
    /// connection with `Registry::register_uncached`.
    pub fn open_uncached(init: &InitState, url: Option<&str>, params: &[(&str, &str)]) -> (r:
        Result<StoreKey, Error>)
        requires
            init@ is Some,
        ensures
            r is Ok <==> init@ == Some(None::<Seq<char>>) && key_c_ok(
                (url_view(url), params_view(params@)),
            ),
            r matches Ok(k) ==> k@ == (url_view(url), params_view(params@)),
            init@ matches Some(Some(m)) ==> r matches Err(e) && e@ == init_error_message(m),
    {
        init.outcome()?;
        let key = StoreKey::new(url, params);
        key.check_c_strings()?;
        Ok(key)
    }
}

/// Opening twice under the same key while the first connection is still held
/// hands out that same connection, with no new open; once its last strong
/// handle is released, opening under that key finds nothing in the cache and
/// opens a new connection, with a new number.
pub proof fn lemma_open_coalesces(r: RegistryView, key: KeyView)
    ensures
        r.registered(key).cached(key) == Some(r.next()),
        r.registered(key).released(r.next()).cached(key) is None,
        r.registered(key).released(r.next()).registered(key).cached(key) == Some(r.next() + 1),
{
    let r1 = r.registered(key);
    assert(r1.strong[r.next() as int] == 1);
    let r2 = r1.released(r.next());
    assert(r2.strong[r.next() as int] == 0);
    let r3 = r2.registered(key);
    assert(r3.strong[r.next() + 1 as int] == 1);
}

/// A connection that has been closed stays closed: no step of the registry
/// revives it, no weak handle to it upgrades, and a connection opened later
/// under the same key has another number.
pub proof fn lemma_closed_stays_closed(r: RegistryView, id: nat, key: KeyView, other: nat)
    requires
        r.closed(id),
    ensures
        !r.alive(id),
        r.registered(key).closed(id),
        r.registered(key).cached(key) != Some(id),
        r.registered_uncached().closed(id),
        r.alive(other) ==> r.acquired(other).closed(id),
        r.alive(other) ==> r.released(other).closed(id),
{
}

} // verus!
