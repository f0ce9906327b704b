//! The client registry.
//!
//! One record per connected client, keyed by the client id the server
//! issued at connect time.  A record exists from the connect event to the
//! close event and holds what routing needs: the peer host and the
//! authenticated user.

use vstd::prelude::*;

use crate::keyed::{
    has_key, key_idx, keys_unique, lemma_key_idx_absent, lemma_key_idx_at, lemma_key_idx_bounds,
    lemma_key_idx_update, lemma_key_removed, lemma_keys_unique_push, lemma_keys_unique_remove,
    lemma_keys_unique_update, Keyed,
};

verus! {

/// What the hub knows of one connected client.
#[derive(Clone, Debug, PartialEq)]
pub struct ClientRec {
    pub id: String,
    pub host: String,
    pub user: String,
}

pub struct ClientRecV {
    pub id: Seq<char>,
    pub host: Seq<char>,
    pub user: Seq<char>,
}

impl DeepView for ClientRec {
    type V = ClientRecV;

    open spec fn deep_view(&self) -> ClientRecV {
        ClientRecV { id: self.id@, host: self.host@, user: self.user@ }
    }
}

impl Keyed for ClientRecV {
    open spec fn key(self) -> Seq<char> {
        self.id
    }
}

/// The record held for a client id, if any.
pub open spec fn client_of(s: Seq<ClientRecV>, id: Seq<char>) -> Option<ClientRecV> {
    if has_key(s, id) {
        Some(s[key_idx(s, id)])
    } else {
        None
    }
}

/// The registry after a connect: a fresh id is appended, a reconnecting id
/// replaces its record.
pub open spec fn cm_connect(s: Seq<ClientRecV>, rec: ClientRecV) -> Seq<ClientRecV> {
    let i = key_idx(s, rec.id);
    if i < 0 {
        s.push(rec)
    } else {
        s.update(i, rec)
    }
}

/// The registry after a close: the id's record is gone.
pub open spec fn cm_remove(s: Seq<ClientRecV>, id: Seq<char>) -> Seq<ClientRecV> {
    let i = key_idx(s, id);
    if i < 0 {
        s
    } else {
        s.remove(i)
    }
}

pub struct ClientManager {
    clients: Vec<ClientRec>,
}

impl DeepView for ClientManager {
    type V = Seq<ClientRecV>;

    closed spec fn deep_view(&self) -> Seq<ClientRecV> {
        self.clients.deep_view()
    }
}

impl ClientManager {
    pub open spec fn wf(&self) -> bool {
        keys_unique(self.deep_view())
    }

    pub fn new() -> (r: ClientManager)
        ensures
            r.deep_view() == Seq::<ClientRecV>::empty(),
            r.wf(),
    {
        let r = ClientManager { clients: Vec::new() };
        proof {
            assert(r.deep_view() =~= Seq::<ClientRecV>::empty());
        }
        r
    }

    /// Index of the id's record, if the id is registered.
    fn find(&self, id: &String) -> (r: Option<usize>)
        ensures
            match r {
                Some(i) => i < self.deep_view().len() && key_idx(self.deep_view(), id@) == i,
                None => !has_key(self.deep_view(), id@),
            },
    {
        let ghost s = self.deep_view();
        let n = self.clients.len();
        let mut i: usize = 0;
        while i < n
            invariant
                i <= n,
                n == s.len(),
                s == self.deep_view(),
                forall|j: int| 0 <= j < i ==> (#[trigger] s[j]).key() != id@,
            decreases n - i,
        {
            if self.clients[i].id == *id {
                proof {
                    lemma_key_idx_at(s, id@, i as int);
                }
                return Some(i);
            }
            i = i + 1;
        }
        proof {
            lemma_key_idx_absent(s, id@);
        }
        None
    }

    /// The record of a client id.
    pub fn get(&self, id: &String) -> (r: Option<&ClientRec>)
        ensures
            match r {
                Some(c) => client_of(self.deep_view(), id@) == Some(c.deep_view()),
                None => client_of(self.deep_view(), id@) is None,
            },
    {
        match self.find(id) {
            Some(i) => Some(&self.clients[i]),
            None => None,
        }
    }

    pub fn contains(&self, id: &String) -> (r: bool)
        ensures
            r == has_key(self.deep_view(), id@),
    {
        self.find(id).is_some()
    }

    /// Registers a client at connect time.
    pub fn handle_connect(&mut self, id: String, host: String, user: String)
        requires
            old(self).wf(),
        ensures
            final(self).deep_view() == cm_connect(
                old(self).deep_view(),
                ClientRecV { id: id@, host: host@, user: user@ },
            ),
            final(self).wf(),
    {
        let ghost s = self.deep_view();
        let ghost recv = ClientRecV { id: id@, host: host@, user: user@ };
        let rec = ClientRec { id, host, user };
        proof {
            lemma_key_idx_bounds(s, recv.id);
        }
        match self.find(&rec.id) {
            Some(i) => {
                proof {
                    lemma_keys_unique_update(s, i as int, recv);
                    lemma_key_idx_update(s, i as int, recv, recv.id);
                }
                let e = &mut self.clients[i];
                *e = rec;
                proof {
                    assert(self.deep_view() =~= cm_connect(s, recv));
                }
            },
            None => {
                proof {
                    lemma_keys_unique_push(s, recv);
                }
                self.clients.push(rec);
                proof {
                    assert(self.deep_view() =~= cm_connect(s, recv));
                }
            },
        }
    }

    /// Drops a client's record at close time.
    pub fn handle_close(&mut self, id: &String)
        requires
            old(self).wf(),
        ensures
            final(self).deep_view() == cm_remove(old(self).deep_view(), id@),
            !has_key(final(self).deep_view(), id@),
            final(self).wf(),
    {
        let ghost s = self.deep_view();
        proof {
            lemma_key_idx_bounds(s, id@);
        }
        match self.find(id) {
            Some(i) => {
                proof {
                    lemma_keys_unique_remove(s, i as int);
                    lemma_key_removed(s, id@);
                }
                let _ = self.clients.remove(i);
                proof {
                    assert(self.deep_view() =~= cm_remove(s, id@));
                }
            },
            None => {
                proof {
                    assert(self.deep_view() =~= cm_remove(s, id@));
                }
            },
        }
    }
}

} // verus!
