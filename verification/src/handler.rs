//! The three operations on the registry, from a request's headers to the
//! reply or the fault.

use crate::fault::Fault;
use crate::id::{identity_of, joined, Credentials, Id};
use crate::registry::{looked_up, Registry};
use vstd::prelude::*;

verus! {

/// The kind of request that is served.
#[derive(Debug, Clone, Copy, PartialEq, Eq, Structural)]
pub enum Rest {
    Post,
    Get,
    Delete,
}

/// The word that names a kind of request.
pub open spec fn name_of(rest: Rest) -> Seq<char> {
    match rest {
        Rest::Post => "POST"@,
        Rest::Get => "GET"@,
        Rest::Delete => "DELETE"@,
    }
}

impl Rest {
    /// The word that names this kind of request.
    pub fn to_string(&self) -> (r: String)
        ensures
            r@ == name_of(*self),
    {
        match self {
            Rest::Post => "POST".to_owned(),
            Rest::Get => "GET".to_owned(),
            Rest::Delete => "DELETE".to_owned(),
        }
    }
}

/// What a served request leaves to be written down, and what it answers.
pub struct Answer {
    pub body: Seq<char>,
    pub operation: Rest,
    pub user: Seq<char>,
    pub address: Seq<char>,
}

/// The line that is written down for a served request.
pub open spec fn line_of(operation: Rest, user: Seq<char>, address: Seq<char>) -> Seq<char> {
    "["@ + name_of(operation) + "] USER:"@ + user + " IP:"@ + address
}

/// The record of a served request: what was done, for which user, with
/// which address.
#[derive(Debug)]
pub struct LogRecord {
    pub operation: Rest,
    pub user: String,
    pub address: String,
}

impl LogRecord {
    /// The line that is written down for this record.
    pub fn line(&self) -> (r: String)
        ensures
            r@ == line_of(self.operation, self.user@, self.address@),
    {
        let mut r = "[".to_owned();
        let name = self.operation.to_string();
        r.append(name.as_str());
        r.append("] USER:");
        r.append(self.user.as_str());
        r.append(" IP:");
        r.append(self.address.as_str());
        r
    }
}

/// What a served request answers: the body, and the record to write down.
#[derive(Debug)]
pub struct Reply {
    pub body: String,
    pub record: LogRecord,
}

impl View for Reply {
    type V = Answer;

    open spec fn view(&self) -> Answer {
        Answer {
            body: self.body@,
            operation: self.record.operation,
            user: self.record.user@,
            address: self.record.address@,
        }
    }
}

/// The user that is written down where a request presents none.
pub open spec fn nobody() -> Seq<char> {
    "UNKNOWN"@
}

/// The words before the identity in the body that confirms a removal.
pub open spec fn removal_words() -> Seq<char> {
    "IP deleted for ID: "@
}

/// The identity that a request may act as: the one that its header
/// presents, unless a key is set and the identity is another.
pub open spec fn authorized(key: Option<Credentials>, header: Seq<char>) -> Result<
    Credentials,
    Fault,
> {
    match identity_of(header) {
        None => Err(Fault::Malformed),
        Some(c) => if key matches Some(k) && k != c {
            Err(Fault::Unauthorized)
        } else {
            Ok(c)
        },
    }
}

/// What a search under `c` answers.
pub open spec fn found(kept: Map<Credentials, Seq<char>>, c: Credentials) -> Result<Answer, Fault> {
    match looked_up(kept, c) {
        Ok(address) => Ok(
            Answer { body: address, operation: Rest::Get, user: c.user, address: address },
        ),
        Err(fault) => Err(fault),
    }
}

/// What the publication of `address` under `c` answers.
pub open spec fn stored(c: Credentials, address: Seq<char>) -> Answer {
    Answer { body: address, operation: Rest::Post, user: c.user, address: address }
}

/// What the removal of what is kept under `c` answers.
pub open spec fn removed(kept: Map<Credentials, Seq<char>>, c: Credentials) -> Result<
    Answer,
    Fault,
> {
    match looked_up(kept, c) {
        Ok(address) => Ok(
            Answer {
                body: removal_words() + joined(c),
                operation: Rest::Delete,
                user: c.user,
                address: address,
            },
        ),
        Err(fault) => Err(fault),
    }
}

/// What a request to fetch answers: the address kept under the identity
/// that the header presents.
pub open spec fn fetched(kept: Map<Credentials, Seq<char>>, header: Seq<char>) -> Result<
    Answer,
    Fault,
> {
    match authorized(None, header) {
        Ok(c) => found(kept, c),
        Err(fault) => Err(fault),
    }
}

/// What a request to publish answers: the address, where the identity that
/// the header presents may publish.
pub open spec fn published(key: Option<Credentials>, header: Seq<char>, address: Seq<char>) -> Result<
    Answer,
    Fault,
> {
    match authorized(key, header) {
        Ok(c) => Ok(stored(c, address)),
        Err(fault) => Err(fault),
    }
}

/// What is kept after a request to publish: the address under the
/// identity, where it may publish; else what was kept before.
pub open spec fn kept_after_publish(
    kept: Map<Credentials, Seq<char>>,
    key: Option<Credentials>,
    header: Seq<char>,
    address: Seq<char>,
) -> Map<Credentials, Seq<char>> {
    match authorized(key, header) {
        Ok(c) => kept.insert(c, address),
        Err(_) => kept,
    }
}

/// What a request to revoke answers: the confirmation, where an address
/// was kept under the identity that the header presents.
pub open spec fn revoked(kept: Map<Credentials, Seq<char>>, header: Seq<char>) -> Result<
    Answer,
    Fault,
> {
    match authorized(None, header) {
        Ok(c) => removed(kept, c),
        Err(fault) => Err(fault),
    }
}

/// What is kept after a request to revoke: nothing under the identity that
/// the header presents, and all else as before.
pub open spec fn kept_after_revoke(kept: Map<Credentials, Seq<char>>, header: Seq<char>) -> Map<
    Credentials,
    Seq<char>,
> {
    match authorized(None, header) {
        Ok(c) => kept.remove(c),
        Err(_) => kept,
    }
}

/// Whether `r` is the outcome `expected`, the reply taken by its view.
pub open spec fn answers(r: Result<Reply, Fault>, expected: Result<Answer, Fault>) -> bool {
    match r {
        Ok(reply) => expected == Ok::<Answer, Fault>(reply@),
        Err(fault) => expected == Err::<Answer, Fault>(fault),
    }
}

/// Serves the requests, with the key that alone may publish, if one is
/// set.
pub struct Handler {
    key: Option<Id>,
}

impl Handler {
    /// The key that alone may publish, if one is set.
    pub closed spec fn key(&self) -> Option<Credentials> {
        match self.key {
            Some(id) => Some(id@),
            None => None,
        }
    }

    /// A handler with `key` as the one identity that may publish; where
    /// `key` is `None`, every identity may.
    pub fn new(key: Option<Id>) -> (handler: Handler)
        ensures
            handler.key() == match key {
                Some(id) => Some(id@),
                None => None,
            },
    {
        Handler { key }
    }

    /// The identity that `authorization` presents.
    pub fn identify(authorization: &str) -> (r: Result<Id, Fault>)
        ensures
            match r {
                Ok(id) => authorized(None, authorization@) == Ok::<Credentials, Fault>(id@),
                Err(fault) => authorized(None, authorization@) == Err::<Credentials, Fault>(fault),
            },
    {
        match Id::from_basic(authorization) {
            Ok(id) => Ok(id),
            Err(_) => Err(Fault::Malformed),
        }
    }

    /// The identity that `authorization` presents, where it may publish.
    pub fn authorize(&self, authorization: &str) -> (r: Result<Id, Fault>)
        ensures
            match r {
                Ok(id) => authorized(self.key(), authorization@) == Ok::<Credentials, Fault>(id@),
                Err(fault) => authorized(self.key(), authorization@) == Err::<Credentials, Fault>(
                    fault,
                ),
            },
    {
        let id = Handler::identify(authorization)?;
        match &self.key {
            Some(key) => {
                if *key == id {
                    Ok(id)
                } else {
                    Err(Fault::Unauthorized)
                }
            },
            None => Ok(id),
        }
    }

    /// Answers with the address kept under `id`, or with the fault that
    /// the registry could not be reached, where `access` is `None`.
    pub fn fetch_in(access: Option<&Registry>, id: &Id) -> (r: Result<Reply, Fault>)
        ensures
            answers(
                r,
                match access {
                    Some(registry) => found(registry@, id@),
                    None => Err(Fault::StorageFault),
                },
            ),
    {
        let registry = match access {
            Some(registry) => registry,
            None => {
                return Err(Fault::StorageFault);
            },
        };
        let address = registry.lookup(id)?;
        let record = LogRecord {
            operation: Rest::Get,
            user: id.user().to_owned(),
            address: address.clone(),
        };
        Ok(Reply { body: address, record })
    }

    /// Keeps `address` under `id` and answers with it, or answers with the
    /// fault that the registry could not be reached, where `access` is
    /// `None`.
    pub fn publish_in(access: Option<&mut Registry>, id: &Id, address: &str) -> (r: Result<
        Reply,
        Fault,
    >)
        ensures
            match access {
                Some(registry) => answers(r, Ok(stored(id@, address@))) && final(registry)@
                    == registry@.insert(id@, address@),
                None => answers(r, Err(Fault::StorageFault)),
            },
    {
        let registry = match access {
            Some(registry) => registry,
            None => {
                return Err(Fault::StorageFault);
            },
        };
        registry.store(id, address.to_owned());
        let record = LogRecord {
            operation: Rest::Post,
            user: id.user().to_owned(),
            address: address.to_owned(),
        };
        Ok(Reply { body: address.to_owned(), record })
    }

    /// Takes away what is kept under `id` and answers with the
    /// confirmation, or answers with the fault that the registry could not
    /// be reached, where `access` is `None`.
    pub fn revoke_in(access: Option<&mut Registry>, id: &Id) -> (r: Result<Reply, Fault>)
        ensures
            match access {
                Some(registry) => answers(r, removed(registry@, id@)) && final(registry)@
                    == registry@.remove(id@),
                None => answers(r, Err(Fault::StorageFault)),
            },
    {
        let registry = match access {
            Some(registry) => registry,
            None => {
                return Err(Fault::StorageFault);
            },
        };
        let address = registry.remove(id)?;
        let mut body = "IP deleted for ID: ".to_owned();
        let name = id.to_string();
        body.append(name.as_str());
        let record = LogRecord { operation: Rest::Delete, user: id.user().to_owned(), address };
        Ok(Reply { body, record })
    }

    /// Serves a request to fetch: answers with the address kept under the
    /// identity that `authorization` presents.
    pub fn fetch(&self, registry: &Registry, authorization: &str) -> (r: Result<Reply, Fault>)
        ensures
            answers(r, fetched(registry@, authorization@)),
    {
        let id = Handler::identify(authorization)?;
        Handler::fetch_in(Some(registry), &id)
    }

    /// Serves a request to publish: keeps `address` under the identity that
    /// `authorization` presents, where it may publish, and answers with the
    /// address. The registry is left as it was where it may not.
    pub fn publish(&self, registry: &mut Registry, authorization: &str, address: &str) -> (r:
        Result<Reply, Fault>)
        ensures
            answers(r, published(self.key(), authorization@, address@)),
            final(registry)@ == kept_after_publish(
                old(registry)@,
                self.key(),
                authorization@,
                address@,
            ),
    {
        let id = self.authorize(authorization)?;
        Handler::publish_in(Some(registry), &id, address)
    }

    /// Serves a request to revoke: takes away what is kept under the
    /// identity that `authorization` presents, and answers with the
    /// confirmation.
    pub fn revoke(&self, registry: &mut Registry, authorization: &str) -> (r: Result<Reply, Fault>)
        ensures
            answers(r, revoked(old(registry)@, authorization@)),
            final(registry)@ == kept_after_revoke(old(registry)@, authorization@),
    {
        let id = Handler::identify(authorization)?;
        Handler::revoke_in(Some(registry), &id)
    }

    /// Serves a request that presents no identity: answers with the
    /// address the request came from.
    pub fn show(address: &str) -> (reply: Reply)
        ensures
            reply@ == (Answer {
                body: address@,
                operation: Rest::Get,
                user: nobody(),
                address: address@,
            }),
    {
        let record = LogRecord {
            operation: Rest::Get,
            user: "UNKNOWN".to_owned(),
            address: address.to_owned(),
        };
        Reply { body: address.to_owned(), record }
    }
}

/// With a key set, the key itself may publish, and no other identity may: a
/// request that presents the key is answered with the address, which is
/// then kept under the key; one that presents another identity is refused
/// as unauthorized, and the registry is left as it was.
pub proof fn lemma_key_gates_publish(
    kept: Map<Credentials, Seq<char>>,
    key: Credentials,
    header: Seq<char>,
    address: Seq<char>,
)
    ensures
        identity_of(header) == Some(key) ==> published(Some(key), header, address) == Ok::<
            Answer,
            Fault,
        >(stored(key, address)) && kept_after_publish(kept, Some(key), header, address)
            == kept.insert(key, address),
        identity_of(header) matches Some(c) && c != key ==> published(
            Some(key),
            header,
            address,
        ) == Err::<Answer, Fault>(Fault::Unauthorized) && kept_after_publish(
            kept,
            Some(key),
            header,
            address,
        ) == kept,
{
}

} // verus!
