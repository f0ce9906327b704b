//! The authentication store.
//!
//! A reloadable map from user to stored secret, and the handshake check.
//! Two methods exist: `none` accepts anyone, naming the user the
//! credentials carry; `htpasswd` compares the presented secret against the
//! stored entry for the user.  Credentials travel as bytes holding the
//! user, a newline, and the secret.

use vstd::prelude::*;
use vstd::string::StrSliceExecFns;
use vstd::utf8::{decode_utf8, valid_utf8};

use crate::codec::string_from_utf8;
use crate::keyed::{
    has_key, key_idx, lemma_key_idx_absent, lemma_key_idx_at, Keyed,
};

verus! {

/// One stored login: a user and its stored (hashed) secret.
#[derive(Clone, Debug, PartialEq)]
pub struct Credential {
    pub user: String,
    pub secret: String,
}

pub struct CredentialV {
    pub user: Seq<char>,
    pub secret: Seq<char>,
}

impl DeepView for Credential {
    type V = CredentialV;

    open spec fn deep_view(&self) -> CredentialV {
        CredentialV { user: self.user@, secret: self.secret@ }
    }
}

impl Keyed for CredentialV {
    open spec fn key(self) -> Seq<char> {
        self.user
    }
}

/// The stored secret of a user, if any.
pub open spec fn secret_of(s: Seq<CredentialV>, user: Seq<char>) -> Option<Seq<char>> {
    if has_key(s, user) {
        Some(s[key_idx(s, user)].secret)
    } else {
        None
    }
}

/// Index of the first newline byte, or -1.
pub open spec fn nl_idx(b: Seq<u8>) -> int
    decreases b.len(),
{
    if b.len() == 0 {
        -1
    } else if b[0] == 10 {
        0
    } else {
        let r = nl_idx(b.drop_first());
        if r < 0 {
            -1
        } else {
            r + 1
        }
    }
}

proof fn lemma_nl_idx_bounds(b: Seq<u8>)
    ensures
        -1 <= nl_idx(b) < b.len(),
        nl_idx(b) >= 0 ==> b[nl_idx(b)] == 10,
    decreases b.len(),
{
    if b.len() > 0 && b[0] != 10 {
        lemma_nl_idx_bounds(b.drop_first());
    }
}

proof fn lemma_nl_idx_at(b: Seq<u8>, i: int)
    requires
        0 <= i < b.len(),
        b[i] == 10,
        forall|j: int| 0 <= j < i ==> b[j] != 10,
    ensures
        nl_idx(b) == i,
    decreases b.len(),
{
    if i > 0 {
        lemma_nl_idx_at(b.drop_first(), i - 1);
    }
}

proof fn lemma_nl_idx_absent(b: Seq<u8>)
    requires
        forall|j: int| 0 <= j < b.len() ==> b[j] != 10,
    ensures
        nl_idx(b) == -1,
    decreases b.len(),
{
    if b.len() > 0 {
        lemma_nl_idx_absent(b.drop_first());
    }
}

/// The user and secret parts of the credential bytes: split at the first
/// newline, or the whole as user with an empty secret.
pub open spec fn credential_parts(b: Seq<u8>) -> (Seq<u8>, Seq<u8>) {
    let i = nl_idx(b);
    if i < 0 {
        (b, Seq::empty())
    } else {
        (b.take(i), b.skip(i + 1))
    }
}

/// The decoded credentials; refused unless both parts are valid UTF-8.
pub open spec fn credential_texts(b: Seq<u8>) -> Option<(Seq<char>, Seq<char>)> {
    let (u, s) = credential_parts(b);
    if valid_utf8(u) && valid_utf8(s) {
        Some((decode_utf8(u), decode_utf8(s)))
    } else {
        None
    }
}

/// Splits and decodes the credential bytes.
pub fn parse_credentials(bytes: &Vec<u8>) -> (r: Option<(String, String)>)
    ensures
        match r {
            Some((u, s)) => credential_texts(bytes@) == Some((u@, s@)),
            None => credential_texts(bytes@) is None,
        },
{
    let n = bytes.len();
    let mut i: usize = 0;
    let mut found: bool = false;
    while i < n && !found
        invariant
            i <= n,
            n == bytes@.len(),
            found ==> i < n && bytes@[i as int] == 10,
            forall|j: int| 0 <= j < i ==> bytes@[j] != 10,
        decreases n - i + (if found { 0int } else { 1int }),
    {
        if bytes[i] == 10 {
            found = true;
        } else {
            i = i + 1;
        }
    }
    let (upart, spart) = if found {
        proof {
            lemma_nl_idx_at(bytes@, i as int);
        }
        (
            vstd::slice::slice_to_vec(vstd::slice::slice_subrange(bytes.as_slice(), 0, i)),
            vstd::slice::slice_to_vec(
                vstd::slice::slice_subrange(bytes.as_slice(), i + 1, bytes.len()),
            ),
        )
    } else {
        proof {
            lemma_nl_idx_absent(bytes@);
        }
        let empty: Vec<u8> = Vec::new();
        proof {
            assert(empty@ =~= Seq::<u8>::empty());
        }
        (vstd::slice::slice_to_vec(bytes.as_slice()), empty)
    };
    proof {
        assert(upart@ =~= credential_parts(bytes@).0);
        assert(spart@ =~= credential_parts(bytes@).1);
    }
    let user = match string_from_utf8(upart) {
        Some(u) => u,
        None => {
            return None;
        },
    };
    let secret = match string_from_utf8(spart) {
        Some(s) => s,
        None => {
            return None;
        },
    };
    Some((user, secret))
}

/// Whether a string equals a literal, character by character.
pub fn string_eq_str(s: &String, t: &str) -> (r: bool)
    ensures
        r == (s@ == t@),
{
    let sl = s.as_str();
    let n = sl.unicode_len();
    if n != t.unicode_len() {
        proof {
            if s@ == t@ {
                assert(s@.len() == t@.len());
            }
        }
        return false;
    }
    let mut i: usize = 0;
    while i < n
        invariant
            i <= n,
            n == s@.len(),
            n == t@.len(),
            sl@ == s@,
            forall|j: int| 0 <= j < i ==> s@[j] == t@[j],
        decreases n - i,
    {
        if sl.get_char(i) != t.get_char(i) {
            proof {
                if s@ == t@ {
                    assert(s@[i as int] == t@[i as int]);
                }
            }
            return false;
        }
        i = i + 1;
    }
    proof {
        assert(s@ =~= t@);
    }
    true
}

/// What an authentication attempt yields: the accepted user, or nothing.
pub open spec fn auth_outcome(
    entries: Seq<CredentialV>,
    method: Seq<char>,
    credentials: Seq<u8>,
) -> Option<Seq<char>> {
    match credential_texts(credentials) {
        None => None,
        Some((user, secret)) => {
            if method == "none"@ {
                Some(user)
            } else if method == "htpasswd"@ {
                if secret_of(entries, user) == Some(secret) {
                    Some(user)
                } else {
                    None
                }
            } else {
                None
            }
        },
    }
}

/// The reloadable store of logins.
pub struct AuthenticationManager {
    entries: Vec<Credential>,
}

impl DeepView for AuthenticationManager {
    type V = Seq<CredentialV>;

    closed spec fn deep_view(&self) -> Seq<CredentialV> {
        self.entries.deep_view()
    }
}

impl AuthenticationManager {
    pub fn new(entries: Vec<Credential>) -> (r: AuthenticationManager)
        ensures
            r.deep_view() == entries.deep_view(),
    {
        AuthenticationManager { entries }
    }

    /// Replaces every login, as a reload of the password file does.
    pub fn reset(&mut self, entries: Vec<Credential>)
        ensures
            final(self).deep_view() == entries.deep_view(),
    {
        self.entries = entries;
    }

    /// The stored secret of a user.
    fn lookup(&self, user: &String) -> (r: Option<&String>)
        ensures
            match r {
                Some(s) => secret_of(self.deep_view(), user@) == Some(s@),
                None => secret_of(self.deep_view(), user@) is None,
            },
    {
        let ghost s = self.deep_view();
        let n = self.entries.len();
        let mut i: usize = 0;
        while i < n
            invariant
                i <= n,
                n == s.len(),
                s == self.deep_view(),
                forall|j: int| 0 <= j < i ==> (#[trigger] s[j]).key() != user@,
            decreases n - i,
        {
            if self.entries[i].user == *user {
                proof {
                    lemma_key_idx_at(s, user@, i as int);
                }
                return Some(&self.entries[i].secret);
            }
            i = i + 1;
        }
        proof {
            lemma_key_idx_absent(s, user@);
        }
        None
    }

    /// Runs one authentication attempt; `Some` carries the accepted user.
    pub fn authenticate(&self, method: &String, credentials: &Vec<u8>) -> (r: Option<String>)
        ensures
            match r {
                Some(u) => auth_outcome(self.deep_view(), method@, credentials@) == Some(u@),
                None => auth_outcome(self.deep_view(), method@, credentials@) is None,
            },
    {
        let (user, secret) = match parse_credentials(credentials) {
            Some(p) => p,
            None => {
                return None;
            },
        };
        if string_eq_str(method, "none") {
            Some(user)
        } else if string_eq_str(method, "htpasswd") {
            match self.lookup(&user) {
                Some(stored) => {
                    if *stored == secret {
                        Some(user)
                    } else {
                        None
                    }
                },
                None => None,
            }
        } else {
            None
        }
    }
}

} // verus!
