//! The registry: the address kept under each identity.

use crate::fault::Fault;
use crate::id::{Credentials, Id};
use vstd::hash_map::StringHashMap;
use vstd::prelude::*;

verus! {

/// The user with a dot before each of its characters.
spec fn dotted(user: Seq<char>) -> Seq<char> {
    Seq::new(
        2 * user.len(),
        |i: int|
            if i % 2 == 0 {
                '.'
            } else {
                user[i / 2]
            },
    )
}

/// The text under which the registry files a pair: the dotted user, a
/// colon, the password. The first colon at an even index ends the user, so
/// no two pairs are filed under one text.
spec fn key_of(c: Credentials) -> Seq<char> {
    dotted(c.user) + seq![':'] + c.password
}

/// Two pairs filed under one text are one pair.
proof fn lemma_key_of_is_one_to_one(a: Credentials, b: Credentials)
    requires
        key_of(a) == key_of(b),
    ensures
        a == b,
{
    let n = a.user.len() as int;
    let m = b.user.len() as int;
    assert(key_of(a)[2 * n] == ':');
    assert(key_of(b)[2 * m] == ':');
    if n < m {
        assert(key_of(b)[2 * n] == '.');
    }
    if m < n {
        assert(key_of(a)[2 * m] == '.');
    }
    assert(a.user =~= b.user) by {
        assert forall|i: int| 0 <= i < n implies a.user[i] == b.user[i] by {
            assert(key_of(a)[2 * i + 1] == a.user[i]);
            assert(key_of(b)[2 * i + 1] == b.user[i]);
        }
    }
    assert(a.password =~= b.password) by {
        assert(a.password == key_of(a).skip(2 * n + 1));
        assert(b.password == key_of(b).skip(2 * n + 1));
    }
}

/// The text under which the registry files `id`.
fn key_for(id: &Id) -> (key: String)
    ensures
        key@ == key_of(id@),
{
    let mut key = String::new();
    let user = id.user();
    for c in it: user.chars()
        invariant
            it.seq() == user@,
            key@ == dotted(user@.take(it.index())),
    {
        key.push('.');
        key.push(c);
        assert(key@ == dotted(user@.take(it.index() + 1)));
    }
    assert(user@.take(user@.len() as int) == user@);
    proof {
        reveal_strlit(":");
    }
    key.append(":");
    key.append(id.password());
    key
}

/// What a search for `c` in `kept` finds: the address kept under `c`, or
/// that none is.
pub open spec fn looked_up(kept: Map<Credentials, Seq<char>>, c: Credentials) -> Result<
    Seq<char>,
    Fault,
> {
    if kept.contains_key(c) {
        Ok(kept[c])
    } else {
        Err(Fault::NotFound)
    }
}

/// The addresses that are kept, each under the identity that published it.
pub struct Registry {
    entries: StringHashMap<String>,
}

impl View for Registry {
    type V = Map<Credentials, Seq<char>>;

    closed spec fn view(&self) -> Map<Credentials, Seq<char>> {
        Map::new(
            |c: Credentials| self.entries@.contains_key(key_of(c)),
            |c: Credentials| self.entries@[key_of(c)]@,
        )
    }
}

impl Registry {
    /// A registry that keeps nothing.
    pub fn new() -> (r: Registry)
        ensures
            r@ == Map::<Credentials, Seq<char>>::empty(),
    {
        let r = Registry { entries: StringHashMap::new() };
        assert(r@ =~= Map::<Credentials, Seq<char>>::empty());
        r
    }

    /// The address kept under `id`.
    pub fn lookup(&self, id: &Id) -> (r: Result<String, Fault>)
        ensures
            match r {
                Ok(address) => looked_up(self@, id@) == Ok::<Seq<char>, Fault>(address@),
                Err(fault) => looked_up(self@, id@) == Err::<Seq<char>, Fault>(fault),
            },
    {
        let key = key_for(id);
        match self.entries.get(key.as_str()) {
            Some(address) => Ok(address.clone()),
            None => Err(Fault::NotFound),
        }
    }

    /// Keeps `address` under `id`, in place of what was kept under it.
    pub fn store(&mut self, id: &Id, address: String)
        ensures
            final(self)@ == old(self)@.insert(id@, address@),
    {
        let key = key_for(id);
        self.entries.insert(key, address);
        proof {
            assert forall|c: Credentials| #[trigger] key_of(c) == key_of(id@) implies c == id@ by {
                lemma_key_of_is_one_to_one(c, id@);
            }
            assert(self@ =~= old(self)@.insert(id@, address@));
        }
    }

    /// Takes away what is kept under `id`, and returns it.
    pub fn remove(&mut self, id: &Id) -> (r: Result<String, Fault>)
        ensures
            match r {
                Ok(address) => looked_up(old(self)@, id@) == Ok::<Seq<char>, Fault>(address@),
                Err(fault) => looked_up(old(self)@, id@) == Err::<Seq<char>, Fault>(fault),
            },
            final(self)@ == old(self)@.remove(id@),
    {
        let key = key_for(id);
        let kept = match self.entries.get(key.as_str()) {
            Some(address) => address.clone(),
            None => {
                assert(self@ =~= self@.remove(id@));
                return Err(Fault::NotFound);
            },
        };
        self.entries.remove(key.as_str());
        proof {
            assert forall|c: Credentials| #[trigger] key_of(c) == key_of(id@) implies c == id@ by {
                lemma_key_of_is_one_to_one(c, id@);
            }
            assert(self@ =~= old(self)@.remove(id@));
        }
        Ok(kept)
    }
}

/// A second address published under an identity takes the place of the
/// first: the search finds the second, and the registry is as if the first
/// had never been published.
pub proof fn lemma_store_overwrites(
    kept: Map<Credentials, Seq<char>>,
    c: Credentials,
    first: Seq<char>,
    second: Seq<char>,
)
    ensures
        looked_up(kept.insert(c, first).insert(c, second), c) == Ok::<Seq<char>, Fault>(second),
        kept.insert(c, first).insert(c, second) == kept.insert(c, second),
{
    assert(kept.insert(c, first).insert(c, second) =~= kept.insert(c, second));
}

/// What is published under one identity is not found under another: a
/// search for `other` finds what it found before, and nothing where nothing
/// was kept under it.
pub proof fn lemma_store_is_isolated(
    kept: Map<Credentials, Seq<char>>,
    c: Credentials,
    address: Seq<char>,
    other: Credentials,
)
    requires
        other != c,
    ensures
        looked_up(kept.insert(c, address), other) == looked_up(kept, other),
        !kept.contains_key(other) ==> looked_up(kept.insert(c, address), other) == Err::<
            Seq<char>,
            Fault,
        >(Fault::NotFound),
{
}

/// Under an identity that keeps nothing there is nothing to take away, and
/// once an address is taken away nothing is kept under its identity: a
/// second removal finds nothing.
pub proof fn lemma_remove_once(kept: Map<Credentials, Seq<char>>, c: Credentials)
    ensures
        !kept.contains_key(c) ==> looked_up(kept, c) == Err::<Seq<char>, Fault>(Fault::NotFound)
            && kept.remove(c) == kept,
        looked_up(kept.remove(c), c) == Err::<Seq<char>, Fault>(Fault::NotFound),
        kept.remove(c).remove(c) == kept.remove(c),
{
    assert(kept.remove(c).remove(c) =~= kept.remove(c));
    if !kept.contains_key(c) {
        assert(kept.remove(c) =~= kept);
    }
}

} // verus!
