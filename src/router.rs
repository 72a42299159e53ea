use vstd::prelude::*;

verus! {

/// A route's key: method and exact path.
pub type RouteKey = (Seq<char>, Seq<char>);

/// The handler of the last entry whose key is `k`, if any.
pub open spec fn route_lookup<H>(s: Seq<(RouteKey, H)>, k: RouteKey) -> Option<H>
    decreases s.len(),
{
    if s.len() == 0 {
        None
    } else if s.last().0 == k {
        Some(s.last().1)
    } else {
        route_lookup(s.drop_last(), k)
    }
}

/// The table that a sequence of entries stands for.
pub open spec fn route_table<H>(s: Seq<(RouteKey, H)>) -> Map<RouteKey, H> {
    Map::new(|k: RouteKey| route_lookup(s, k) is Some, |k: RouteKey| route_lookup(s, k)->Some_0)
}

proof fn lemma_route_lookup_update<H>(s: Seq<(RouteKey, H)>, i: int, h: H, k: RouteKey)
    requires
        0 <= i < s.len(),
        forall|j: int| i < j < s.len() ==> s[j].0 != s[i].0,
    ensures
        route_lookup(s.update(i, (s[i].0, h)), k) == (if k == s[i].0 {
            Some(h)
        } else {
            route_lookup(s, k)
        }),
    decreases s.len(),
{
    let t = s.update(i, (s[i].0, h));
    if i < s.len() - 1 {
        assert(t.drop_last() =~= s.drop_last().update(i, (s[i].0, h)));
        lemma_route_lookup_update(s.drop_last(), i, h, k);
    } else {
        assert(t.drop_last() =~= s.drop_last());
    }
}

proof fn lemma_route_lookup_absent<H>(s: Seq<(RouteKey, H)>, k: RouteKey)
    requires
        forall|j: int| 0 <= j < s.len() ==> s[j].0 != k,
    ensures
        route_lookup(s, k) is None,
    decreases s.len(),
{
    if s.len() > 0 {
        lemma_route_lookup_absent(s.drop_last(), k);
    }
}

struct Route<H> {
    method: String,
    path: String,
    handler: H,
}

/// An exact-match table from method and path to a handler.
pub struct Router<H> {
    routes: Vec<Route<H>>,
}

impl<H> Router<H> {
    closed spec fn entries(&self) -> Seq<(RouteKey, H)> {
        self.routes@.map_values(|r: Route<H>| ((r.method@, r.path@), r.handler))
    }

    /// An empty table.
    pub fn new() -> (r: Router<H>)
        ensures
            r@ == Map::<RouteKey, H>::empty(),
    {
        let r = Router { routes: Vec::new() };
        assert(route_table(r.entries()) =~= Map::<RouteKey, H>::empty());
        r
    }

    fn position(&self, method: &String, path: &String) -> (r: Option<usize>)
        ensures
            match r {
                Some(i) => i < self.entries().len() && self.entries()[i as int].0 == (
                method@,
                path@,
                ) && forall|j: int|
                    i < j < self.entries().len() ==> self.entries()[j].0 != (method@, path@),
                None => forall|j: int|
                    0 <= j < self.entries().len() ==> self.entries()[j].0 != (method@, path@),
            },
    {
        let mut i: usize = self.routes.len();
        while i > 0
            invariant
                i <= self.routes@.len(),
                forall|j: int|
                    i <= j < self.entries().len() ==> self.entries()[j].0 != (method@, path@),
            decreases i,
        {
            let r = &self.routes[i - 1];
            if r.method == *method && r.path == *path {
                return Some(i - 1);
            }
            i = i - 1;
        }
        None
    }

    /// Maps `method` and `path` to `handler`, replacing the handler that the
    /// same pair had.
    pub fn register(&mut self, method: &str, path: &str, handler: H)
        ensures
            final(self)@ == old(self)@.insert((method@, path@), handler),
    {
        let m = method.to_owned();
        let p = path.to_owned();
        let ghost s = self.entries();
        let ghost k = (method@, path@);
        match self.position(&m, &p) {
            Some(i) => {
                let Route { method: om, path: op, handler: _ } = self.routes.remove(i);
                self.routes.insert(i, Route { method: om, path: op, handler });
                let ghost t = self.entries();
                assert(t =~= s.update(i as int, (s[i as int].0, handler)));
                assert forall|k2: RouteKey| #[trigger] route_lookup(t, k2) == (if k2 == k {
                    Some(handler)
                } else {
                    route_lookup(s, k2)
                }) by {
                    lemma_route_lookup_update(s, i as int, handler, k2);
                }
            },
            None => {
                self.routes.push(Route { method: m, path: p, handler });
                let ghost t = self.entries();
                assert(t =~= s.push((k, handler)));
                assert(t.drop_last() =~= s);
                assert forall|k2: RouteKey| #[trigger] route_lookup(t, k2) == (if k2 == k {
                    Some(handler)
                } else {
                    route_lookup(s, k2)
                }) by {}
            },
        }
        assert(route_table(self.entries()) =~= route_table(s).insert(k, handler));
    }

    /// Registers a handler for `GET` on `path`.
    pub fn add_get(&mut self, path: &str, handler: H)
        ensures
            final(self)@ == old(self)@.insert(("GET"@, path@), handler),
    {
        self.register("GET", path, handler)
    }

    /// Registers a handler for `POST` on `path`.
    pub fn add_post(&mut self, path: &str, handler: H)
        ensures
            final(self)@ == old(self)@.insert(("POST"@, path@), handler),
    {
        self.register("POST", path, handler)
    }

    /// The handler registered for exactly this method and path.
    pub fn resolve(&self, method: &str, path: &str) -> (r: Option<&H>)
        ensures
            r.is_some() <==> self@.contains_key((method@, path@)),
            r.is_some() ==> *r.unwrap() == self@[(method@, path@)],
    {
        let m = method.to_owned();
        let p = path.to_owned();
        match self.position(&m, &p) {
            Some(i) => {
                proof {
                    let s = self.entries();
                    assert(s.subrange(0, i + 1).last() == s[i as int]);
                    lemma_route_lookup_suffix(s, i as int, (method@, path@));
                }
                Some(&self.routes[i].handler)
            },
            None => {
                proof {
                    lemma_route_lookup_absent(self.entries(), (method@, path@));
                }
                None
            },
        }
    }
}

proof fn lemma_route_lookup_suffix<H>(s: Seq<(RouteKey, H)>, i: int, k: RouteKey)
    requires
        0 <= i < s.len(),
        s[i].0 == k,
        forall|j: int| i < j < s.len() ==> s[j].0 != k,
    ensures
        route_lookup(s, k) == Some(s[i].1),
    decreases s.len(),
{
    if i < s.len() - 1 {
        lemma_route_lookup_suffix(s.drop_last(), i, k);
    }
}

impl<H> View for Router<H> {
    type V = Map<RouteKey, H>;

    closed spec fn view(&self) -> Map<RouteKey, H> {
        route_table(self.entries())
    }
}

/// Routing is exact: once one method and path are registered on an empty
/// table, any other method or path, such as the same path with a trailing
/// slash or under another method, finds no handler.
pub proof fn lemma_exact_match<H>(
    before: Router<H>,
    after: Router<H>,
    method: Seq<char>,
    path: Seq<char>,
    handler: H,
    other_method: Seq<char>,
    other_path: Seq<char>,
)
    requires
        before@ == Map::<RouteKey, H>::empty(),
        after@ == before@.insert((method, path), handler),
        other_method != method || other_path != path,
    ensures
        !after@.contains_key((other_method, other_path)),
        after@.contains_key((method, path)),
{
}

/// Registering the same method and path again replaces the handler: the
/// table then finds the new handler there and holds no other key.
pub proof fn lemma_reregister_replaces<H>(
    first: Router<H>,
    second: Router<H>,
    method: Seq<char>,
    path: Seq<char>,
    handler: H,
)
    requires
        first@.contains_key((method, path)),
        second@ == first@.insert((method, path), handler),
    ensures
        second@[(method, path)] == handler,
        second@.dom() == first@.dom(),
{
    assert(second@.dom() =~= first@.dom());
}

/// The table that a sequence of registrations builds from an empty one.
pub open spec fn registrations<H>(ops: Seq<(RouteKey, H)>) -> Map<RouteKey, H>
    decreases ops.len(),
{
    if ops.len() == 0 {
        Map::empty()
    } else {
        registrations(ops.drop_last()).insert(ops.last().0, ops.last().1)
    }
}

/// After any sequence of registrations on an empty router, a method and path
/// find a handler exactly when some registration named that same method and
/// path, with no normalization, and the handler found is that of the last
/// such registration.
pub proof fn lemma_registrations_exact<H>(r: Router<H>, ops: Seq<(RouteKey, H)>, k: RouteKey)
    requires
        r@ == registrations(ops),
    ensures
        r@.contains_key(k) <==> exists|i: int| 0 <= i < ops.len() && ops[i].0 == k,
        r@.contains_key(k) ==> exists|i: int|
            0 <= i < ops.len() && ops[i].0 == k && r@[k] == ops[i].1 && forall|j: int|
                i < j < ops.len() ==> ops[j].0 != k,
    decreases ops.len(),
{
    lemma_registrations_lookup(ops, k);
}

proof fn lemma_registrations_lookup<H>(ops: Seq<(RouteKey, H)>, k: RouteKey)
    ensures
        registrations(ops).contains_key(k) <==> exists|i: int| 0 <= i < ops.len() && ops[i].0 == k,
        registrations(ops).contains_key(k) ==> exists|i: int|
            0 <= i < ops.len() && ops[i].0 == k && registrations(ops)[k] == ops[i].1 && forall|
                j: int,
            |
                i < j < ops.len() ==> ops[j].0 != k,
    decreases ops.len(),
{
    if ops.len() > 0 {
        let init = ops.drop_last();
        let n = ops.len() - 1;
        lemma_registrations_lookup(init, k);
        if ops.last().0 == k {
            assert(ops[n].0 == k);
        } else {
            if registrations(init).contains_key(k) {
                let i = choose|i: int|
                    0 <= i < init.len() && init[i].0 == k && registrations(init)[k] == init[i].1
                        && forall|j: int| i < j < init.len() ==> init[j].0 != k;
                assert(ops[i].0 == k);
                assert forall|j: int| i < j < ops.len() implies ops[j].0 != k by {
                    if j < n {
                        assert(ops[j] == init[j]);
                    }
                }
            }
            if exists|i: int| 0 <= i < ops.len() && ops[i].0 == k {
                let i = choose|i: int| 0 <= i < ops.len() && ops[i].0 == k;
                assert(i < n);
                assert(init[i].0 == k);
            }
        }
    }
}

} // verus!
