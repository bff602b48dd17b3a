//! Identities: a user and a password, and the token that stands for the
//! pair in a header.

use crate::outside::{
    base64_decoded, base64_encoded, decode, encode, encodes, is_base64_char, lossy, text_of,
};
use crate::text::{
    chars_of, count, find_single, lemma_count_concat, lemma_count_trimmed,
    lemma_count_zero, lemma_position, lemma_position_first, lemma_trimmed_fixed,
    position, scheme, skip_scheme, strip_once,
    trim_window, trimmed,
};
use vstd::prelude::*;
use vstd::std_specs::cmp::PartialEqSpecImpl;
use vstd::utf8::{
    encode_utf8, encode_utf8_decode_utf8, encode_utf8_valid_utf8, is_ascii_chars,
    is_ascii_chars_encode_utf8,
};

verus! {

/// What an identity is: its user and its password. Two identities are the
/// same exactly where both agree.
pub struct Credentials {
    pub user: Seq<char>,
    pub password: Seq<char>,
}

/// The plain form of a pair: the user, a colon, the password.
pub open spec fn joined(c: Credentials) -> Seq<char> {
    c.user + seq![':'] + c.password
}

/// Whether `text` is short enough to be encoded: its UTF-8 form takes at
/// most an eighth of the address space, so that its base64 form can be
/// made, and decoded again.
pub open spec fn fits(text: Seq<char>) -> bool {
    encode_utf8(text).len() <= usize::MAX / 8
}

/// Whether `token` is short enough to be decoded from base64: its UTF-8
/// form takes at most a quarter of the address space.
pub open spec fn token_fits(token: Seq<char>) -> bool {
    encode_utf8(token).len() <= usize::MAX / 4
}

/// The pair that a text stands for as it is: the text holds exactly one
/// colon, and the user stands before it, the password after it. Either of
/// them may be empty, and white space counts as any other character.
pub open spec fn split(text: Seq<char>) -> Option<Credentials> {
    if count(text, ':') == 1 {
        let p = position(text, ':');
        Some(Credentials { user: text.take(p), password: text.skip(p + 1) })
    } else {
        None
    }
}

/// The pair that a text stands for once the white space around it is
/// gone.
pub open spec fn credentials(text: Seq<char>) -> Option<Credentials> {
    split(trimmed(text))
}

/// The token of a header: the header trimmed, without the scheme word if it
/// starts with one, and trimmed again.
pub open spec fn header_token(header: Seq<char>) -> Seq<char> {
    trimmed(strip_once(trimmed(header)))
}

/// The pair that a header stands for: its token decoded from base64, read
/// as text, and that text split at its colon as it is.
pub open spec fn header_credentials(header: Seq<char>) -> Option<Credentials> {
    match base64_decoded(header_token(header)) {
        Some(data) => split(text_of(data)),
        None => None,
    }
}

/// The header that stands for a pair: the scheme word, then the plain form
/// of the pair in base64.
pub open spec fn basic_header(c: Credentials) -> Seq<char> {
    scheme() + base64_encoded(encode_utf8(joined(c)))
}

/// The identity that a header presents: the pair it stands for, where its
/// token is short enough to be decoded.
pub open spec fn identity_of(header: Seq<char>) -> Option<Credentials> {
    if token_fits(header_token(header)) {
        header_credentials(header)
    } else {
        None
    }
}

/// Whether a pair is one that a text can stand for: neither part holds a
/// colon.
pub open spec fn plain(c: Credentials) -> bool {
    &&& count(c.user, ':') == 0
    &&& count(c.password, ':') == 0
}

/// The plain form of a plain pair is split into the pair.
pub proof fn lemma_joined_read_back(c: Credentials)
    requires
        plain(c),
    ensures
        split(joined(c)) == Some(c),
{
    let t = joined(c);
    let mark = seq![':'];
    assert(count(mark, ':') == 1) by {
        assert(count(mark.drop_last(), ':') == 0);
    }
    lemma_count_concat(c.user, mark, ':');
    lemma_count_concat(c.user + mark, c.password, ':');
    lemma_count_zero(c.user, ':');
    lemma_position(t, ':', c.user.len() as int);
    assert(t.take(c.user.len() as int) == c.user);
    assert(t.skip(c.user.len() as int + 1) == c.password);
}

/// Every pair that a text is split into is plain, and its plain form is
/// the text.
pub proof fn lemma_read_is_plain(text: Seq<char>)
    ensures
        split(text) matches Some(c) ==> plain(c) && joined(c) == text,
{
    if let Some(c) = split(text) {
        let mark = seq![':'];
        lemma_position_first(text, ':');
        lemma_count_zero(text, ':');
        assert(text == c.user + mark + c.password);
        assert(count(mark, ':') == 1) by {
            assert(count(mark.drop_last(), ':') == 0);
        }
        lemma_count_concat(c.user, mark, ':');
        lemma_count_concat(c.user + mark, c.password, ':');
    }
}

/// A text stands for a pair, once trimmed, exactly where it holds one
/// colon.
pub proof fn lemma_one_colon(text: Seq<char>)
    ensures
        credentials(text) is Some <==> count(text, ':') == 1,
{
    lemma_count_trimmed(text, ':');
}

/// Decoding undoes encoding: the header made of the scheme word and the
/// base64 form of a pair without colons presents that pair, white space
/// and all.
pub proof fn lemma_round_trip(c: Credentials, token: Seq<char>)
    requires
        plain(c),
        fits(joined(c)),
        encodes(token, encode_utf8(joined(c))),
    ensures
        identity_of(scheme() + token) == Some(c),
{
    let data = encode_utf8(joined(c));
    let header = scheme() + token;
    assert(token_fits(token)) by {
        assert(is_ascii_chars(token)) by {
            assert forall|i: int| 0 <= i < token.len() implies '\0' <= #[trigger] token[i]
                <= '\u{7f}' by {
                assert(is_base64_char(token[i]));
            }
        }
        is_ascii_chars_encode_utf8(token);
    }
    assert(data.len() > 0) by {
        assert(joined(c)[c.user.len() as int] == ':');
    }
    assert(token.len() >= 4);
    assert(is_base64_char(token[0]) && is_base64_char(token.last()));
    assert(header.last() == token.last());
    lemma_trimmed_fixed(header);
    assert(scheme().is_prefix_of(header)) by {
        assert(header.subrange(0, 6) == scheme());
    }
    assert(strip_once(header) == token) by {
        assert(header.skip(6) == token);
    }
    lemma_trimmed_fixed(token);
    encode_utf8_valid_utf8(joined(c));
    encode_utf8_decode_utf8(joined(c));
    lemma_joined_read_back(c);
}

/// Encoding undoes decoding: the identity that a header presents is
/// presented again by the header made of the scheme word and the base64
/// form of that identity.
pub proof fn lemma_presented_again(header: Seq<char>, token: Seq<char>)
    requires
        identity_of(header) is Some,
        fits(joined(identity_of(header)->0)),
        encodes(token, encode_utf8(joined(identity_of(header)->0))),
    ensures
        identity_of(scheme() + token) == identity_of(header),
{
    let c = identity_of(header)->0;
    let data = base64_decoded(header_token(header))->0;
    lemma_read_is_plain(text_of(data));
    lemma_round_trip(c, token);
}

/// A text or a header that stands for no identity.
#[derive(Debug, Clone, Copy, PartialEq, Eq, Structural)]
pub struct Malformed;

/// The token of `header`: what is left of it without the white space
/// around it, the scheme word before the token, if one stands there, and
/// the white space around the token.
pub fn basic_token<'a>(header: &'a str) -> (token: &'a str)
    ensures
        token@ == header_token(header@),
{
    let v = chars_of(header);
    let (lo, hi) = trim_window(&v, 0, v.len());
    assert(v@.subrange(0, v.len() as int) == v@);
    let lo = skip_scheme(&v, lo, hi);
    let (lo, hi) = trim_window(&v, lo, hi);
    header.substring_char(lo, hi)
}

/// An identity: the key under which an address is kept, and the credential
/// that a request presents.
#[derive(Debug, Hash)]
pub struct Id {
    user: String,
    password: String,
    encoded: Option<String>,
}

impl View for Id {
    type V = Credentials;

    closed spec fn view(&self) -> Credentials {
        Credentials { user: self.user@, password: self.password@ }
    }
}

impl Id {
    /// The encoded form is the one derived from the user and the password,
    /// and it is there exactly where the pair is short enough to have one.
    #[verifier::type_invariant]
    spec fn coherent(&self) -> bool {
        match self.encoded {
            Some(text) => fits(joined(self@)) && encodes(text@, encode_utf8(joined(self@))),
            None => !fits(joined(self@)),
        }
    }

    /// The identity of `user` and `password`.
    pub fn new(user: &str, password: &str) -> (id: Id)
        ensures
            id@ == (Credentials { user: user@, password: password@ }),
    {
        let mut plain = user.to_owned();
        plain.append(":");
        plain.append(password);
        proof {
            reveal_strlit(":");
            assert(plain@ == joined(Credentials { user: user@, password: password@ }));
        }
        let data = plain.as_str().as_bytes();
        let encoded = if data.len() <= usize::MAX / 8 {
            Some(encode(data))
        } else {
            None
        };
        Id { user: user.to_owned(), password: password.to_owned(), encoded }
    }

    /// Splits the window `lo..hi` of `s`, whose characters are `v`, at its
    /// colon.
    fn split_window(s: &str, v: &Vec<char>, lo: usize, hi: usize) -> (r: Result<Id, Malformed>)
        requires
            v@ == s@,
            lo <= hi <= v.len(),
        ensures
            match r {
                Ok(id) => split(s@.subrange(lo as int, hi as int)) == Some(id@),
                Err(_) => split(s@.subrange(lo as int, hi as int)) is None,
            },
    {
        match find_single(v, lo, hi, ':') {
            Some(p) => {
                let user = s.substring_char(lo, p);
                let password = s.substring_char(p + 1, hi);
                proof {
                    let t = s@.subrange(lo as int, hi as int);
                    assert(user@ == t.take(p - lo));
                    assert(password@ == t.skip(p - lo + 1));
                }
                Ok(Id::new(user, password))
            },
            None => Err(Malformed),
        }
    }

    /// Reads a text as an identity, as it is: the text stands for one
    /// exactly where it holds one colon, and then for the user before the
    /// colon and the password after it. No white space is taken off.
    pub fn from_plain(s: &str) -> (r: Result<Id, Malformed>)
        ensures
            r is Ok <==> count(s@, ':') == 1,
            match r {
                Ok(id) => split(s@) == Some(id@),
                Err(_) => split(s@) is None,
            },
    {
        let v = chars_of(s);
        assert(s@.subrange(0, v.len() as int) == s@);
        Id::split_window(s, &v, 0, v.len())
    }

    /// Reads a text as an identity, without the white space around the
    /// text: it stands for one exactly where it holds one colon, and then
    /// for the user before the colon and the password after it.
    pub fn try_from(s: &str) -> (r: Result<Id, Malformed>)
        ensures
            r is Ok <==> count(s@, ':') == 1,
            match r {
                Ok(id) => credentials(s@) == Some(id@),
                Err(_) => credentials(s@) is None,
            },
    {
        let v = chars_of(s);
        let (lo, hi) = trim_window(&v, 0, v.len());
        proof {
            assert(s@.subrange(0, v.len() as int) == s@);
            lemma_one_colon(s@);
        }
        Id::split_window(s, &v, lo, hi)
    }

    /// Reads a header as an identity: the token of the header is decoded
    /// from base64, read as text, and that text read as `from_plain` reads
    /// it. A header whose token is too long to be decoded stands for no
    /// identity. The identity that is read holds no colon in either part,
    /// and where it can be encoded, its own header presents it again.
    pub fn from_basic(s: &str) -> (r: Result<Id, Malformed>)
        ensures
            match r {
                Ok(id) => identity_of(s@) == Some(id@) && plain(id@) && (fits(joined(id@))
                    ==> identity_of(basic_header(id@)) == Some(id@)),
                Err(_) => identity_of(s@) is None,
            },
    {
        let token = basic_token(s);
        if token.as_bytes().len() > usize::MAX / 4 {
            return Err(Malformed);
        }
        let data = match decode(token) {
            Ok(data) => data,
            Err(_) => {
                return Err(Malformed);
            },
        };
        let text = lossy(data.as_slice());
        let id = Id::from_plain(text.as_str())?;
        proof {
            use_type_invariant(&id);
            lemma_read_is_plain(text@);
            if id.encoded is Some {
                lemma_presented_again(s@, id.encoded->0@);
            }
        }
        Ok(id)
    }

    /// The user.
    pub fn user(&self) -> (r: &str)
        ensures
            r@ == self@.user,
    {
        self.user.as_str()
    }

    /// The password.
    pub fn password(&self) -> (r: &str)
        ensures
            r@ == self@.password,
    {
        self.password.as_str()
    }

    /// Whether this identity is short enough to be encoded.
    pub fn encodable(&self) -> (r: bool)
        ensures
            r == fits(joined(self@)),
    {
        proof {
            use_type_invariant(self);
        }
        self.encoded.is_some()
    }

    /// The plain form of the pair in base64.
    pub fn encoded(&self) -> (r: &str)
        requires
            fits(joined(self@)),
        ensures
            encodes(r@, encode_utf8(joined(self@))),
    {
        proof {
            use_type_invariant(self);
        }
        self.encoded.as_ref().unwrap().as_str()
    }

    /// The header that presents this identity. Where neither part holds a
    /// colon, reading the header gives the identity back as it is.
    pub fn basic(&self) -> (r: String)
        requires
            fits(joined(self@)),
        ensures
            r@ == basic_header(self@),
            plain(self@) ==> identity_of(r@) == Some(self@),
    {
        let encoded = self.encoded();
        proof {
            reveal_strlit("Basic ");
            if plain(self@) {
                lemma_round_trip(self@, encoded@);
            }
        }
        let mut r = "Basic ".to_owned();
        assert(r@ == scheme());
        r.append(encoded);
        r
    }

    /// The plain form of the pair: the user, a colon, the password.
    pub fn to_string(&self) -> (r: String)
        ensures
            r@ == joined(self@),
    {
        proof {
            reveal_strlit(":");
        }
        let mut r = self.user.clone();
        r.append(":");
        r.append(self.password.as_str());
        r
    }
}

impl Clone for Id {
    fn clone(&self) -> (r: Self)
        ensures
            r@ == self@,
    {
        proof {
            use_type_invariant(self);
        }
        let encoded = match &self.encoded {
            Some(text) => Some(text.clone()),
            None => None,
        };
        Id { user: self.user.clone(), password: self.password.clone(), encoded }
    }
}

impl std::str::FromStr for Id {
    type Err = Malformed;

    /// Reads a header as an identity, as `from_basic` does.
    fn from_str(s: &str) -> (r: Result<Id, Malformed>)
        ensures
            match r {
                Ok(id) => identity_of(s@) == Some(id@) && plain(id@) && (fits(joined(id@))
                    ==> identity_of(basic_header(id@)) == Some(id@)),
                Err(_) => identity_of(s@) is None,
            },
    {
        Id::from_basic(s)
    }
}

impl PartialEq for Id {
    fn eq(&self, other: &Self) -> (r: bool) {
        self.user == other.user && self.password == other.password
    }
}

impl Eq for Id {

}

impl PartialEqSpecImpl for Id {
    open spec fn obeys_eq_spec() -> bool {
        true
    }

    open spec fn eq_spec(&self, other: &Self) -> bool {
        self@ == other@
    }
}

} // verus!
