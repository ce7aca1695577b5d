//! The durable session store: at most one credential record per account,
//! looked up, appended and removed by exact account identifier.
//!
//! The store itself is pure in-memory state; reading and rewriting its backing
//! file is the caller's task, performed around each mutation.

use vstd::prelude::*;
use crate::text::{str_eq, str_le, lex_le, lemma_lex_lt_trichotomy, lemma_lex_le_transitive};
use vstd::multiset::Multiset;

verus! {

/// One persisted login session: the durable credentials of one account.
pub struct Session {
    pub user_id: String,
    pub device_id: String,
    pub access_token: String,
    pub refresh_token: Option<String>,
}

impl Clone for Session {
    fn clone(&self) -> (r: Self)
        ensures
            r == *self,
    {
        Session {
            user_id: self.user_id.clone(),
            device_id: self.device_id.clone(),
            access_token: self.access_token.clone(),
            refresh_token: match &self.refresh_token {
                Some(t) => Some(t.clone()),
                None => None,
            },
        }
    }
}

/// Why a session-store operation failed.
#[derive(Debug)]
pub enum SessionError {
    /// No stored session matches the given account identifier.
    NotFound { user_id: String },
    /// A session for the given account identifier is already stored.
    AlreadyExists { user_id: String },
    /// The persisted session list could not be accepted as a store.
    CorruptState,
}

/// The first stored record whose account identifier is `user_id`, if any.
pub open spec fn stored_session(records: Seq<Session>, user_id: Seq<char>) -> Option<Session>
    decreases records.len(),
{
    if records.len() == 0 {
        None
    } else if records[0].user_id@ == user_id {
        Some(records[0])
    } else {
        stored_session(records.drop_first(), user_id)
    }
}

/// Whether some stored record has the account identifier `user_id`.
pub open spec fn has_session(records: Seq<Session>, user_id: Seq<char>) -> bool {
    stored_session(records, user_id) is Some
}

/// A lookup comes back empty exactly when no record carries the identifier.
pub proof fn lemma_stored_session_none_iff(records: Seq<Session>, user_id: Seq<char>)
    ensures
        (stored_session(records, user_id) is None) <==> (forall|i: int|
            0 <= i < records.len() ==> records[i].user_id@ != user_id),
    decreases records.len(),
{
    if records.len() > 0 {
        let rest = records.drop_first();
        lemma_stored_session_none_iff(rest, user_id);
        assert(forall|i: int| 0 <= i < rest.len() ==> #[trigger] rest[i] == records[i + 1]);
        if stored_session(records, user_id) is None {
            assert forall|i: int| 0 <= i < records.len() implies records[i].user_id@
                != user_id by {
                if i > 0 {
                    assert(rest[i - 1] == records[i]);
                }
            }
        } else {
            if records[0].user_id@ != user_id {
                assert(exists|i: int| 0 <= i < rest.len() && rest[i].user_id@ == user_id);
                let i = choose|i: int| 0 <= i < rest.len() && rest[i].user_id@ == user_id;
                assert(records[i + 1].user_id@ == user_id);
            }
        }
    }
}

/// Unfolds a lookup one record at a time, for loops that scan the store.
pub proof fn lemma_stored_session_skip_step(records: Seq<Session>, user_id: Seq<char>, i: int)
    requires
        0 <= i < records.len(),
    ensures
        stored_session(records.skip(i), user_id) == if records[i].user_id@ == user_id {
            Some(records[i])
        } else {
            stored_session(records.skip(i + 1), user_id)
        },
{
    assert(records.skip(i).drop_first() =~= records.skip(i + 1));
    assert(records.skip(i)[0] == records[i]);
}

/// The in-memory image of the sessions file.
pub struct SessionsFile {
    pub sessions: Vec<Session>,
}

impl SessionsFile {
    /// The store invariant: account identifiers are unique across records.
    pub open spec fn wf(&self) -> bool {
        forall|i: int, j: int|
            0 <= i < j < self.sessions@.len() ==> self.sessions@[i].user_id@
                != self.sessions@[j].user_id@
    }

    /// A store with no sessions, as an absent backing file denotes.
    pub fn empty() -> (r: Self)
        ensures
            r.wf(),
            r.sessions@.len() == 0,
    {
        SessionsFile { sessions: Vec::new() }
    }

    /// Accepts a parsed record list as a store, refusing duplicate accounts.
    #[verifier::loop_isolation(false)]
    pub fn from_records(records: Vec<Session>) -> (r: Result<Self, SessionError>)
        ensures
            match r {
                Ok(f) => f.wf() && f.sessions@ == records@,
                Err(e) => {
                    &&& e is CorruptState
                    &&& exists|i: int, j: int|
                        0 <= i < j < records@.len() && records@[i].user_id@
                            == records@[j].user_id@
                },
            },
    {
        let n = records.len();
        let mut i: usize = 0;
        while i < n
            invariant
                i <= n,
                n == records@.len(),
                forall|p: int, q: int|
                    0 <= p < q < i ==> records@[p].user_id@ != records@[q].user_id@,
            decreases n - i,
        {
            let mut j: usize = 0;
            while j < i
                invariant
                    j <= i,
                    i < n,
                    n == records@.len(),
                    forall|q: int| 0 <= q < j ==> records@[q].user_id@ != records@[i as int].user_id@,
                decreases i - j,
            {
                if str_eq(records[j].user_id.as_str(), records[i].user_id.as_str()) {
                    return Err(SessionError::CorruptState);
                }
                j += 1;
            }
            i += 1;
        }
        Ok(SessionsFile { sessions: records })
    }

    /// Returns a copy of the stored session for `user_id`, or reports that
    /// none exists.
    #[verifier::loop_isolation(false)]
    pub fn get(&self, user_id: &str) -> (r: Result<Session, SessionError>)
        ensures
            match r {
                Ok(s) => stored_session(self.sessions@, user_id@) == Some(s),
                Err(e) => {
                    &&& !has_session(self.sessions@, user_id@)
                    &&& e matches SessionError::NotFound { user_id: u } && u@ == user_id@
                },
            },
    {
        let n = self.sessions.len();
        let mut i: usize = 0;
        proof {
            assert(self.sessions@.skip(0) =~= self.sessions@);
        }
        while i < n
            invariant
                i <= n,
                n == self.sessions@.len(),
                stored_session(self.sessions@, user_id@) == stored_session(
                    self.sessions@.skip(i as int),
                    user_id@,
                ),
            decreases n - i,
        {
            proof {
                lemma_stored_session_skip_step(self.sessions@, user_id@, i as int);
            }
            let record = &self.sessions[i];
            if str_eq(record.user_id.as_str(), user_id) {
                return Ok(record.clone());
            }
            i += 1;
        }
        proof {
            assert(self.sessions@.skip(n as int) =~= Seq::<Session>::empty());
        }
        Err(SessionError::NotFound { user_id: user_id.to_owned() })
    }

    /// Appends a new session, refusing an account that is already stored;
    /// a refusal leaves the store untouched.
    #[verifier::loop_isolation(false)]
    pub fn new_session(&mut self, session: Session) -> (r: Result<(), SessionError>)
        requires
            old(self).wf(),
        ensures
            final(self).wf(),
            match r {
                Ok(()) => {
                    &&& !has_session(old(self).sessions@, session.user_id@)
                    &&& final(self).sessions@ == old(self).sessions@.push(session)
                    &&& stored_session(final(self).sessions@, session.user_id@) == Some(session)
                },
                Err(e) => {
                    &&& has_session(old(self).sessions@, session.user_id@)
                    &&& *final(self) == *old(self)
                    &&& e matches SessionError::AlreadyExists { user_id: u } && u@
                        == session.user_id@
                },
            },
    {
        let n = self.sessions.len();
        let mut i: usize = 0;
        proof {
            assert(self.sessions@.skip(0) =~= self.sessions@);
        }
        while i < n
            invariant
                i <= n,
                n == self.sessions@.len(),
                stored_session(self.sessions@, session.user_id@) == stored_session(
                    self.sessions@.skip(i as int),
                    session.user_id@,
                ),
            decreases n - i,
        {
            proof {
                lemma_stored_session_skip_step(self.sessions@, session.user_id@, i as int);
            }
            if str_eq(self.sessions[i].user_id.as_str(), session.user_id.as_str()) {
                return Err(SessionError::AlreadyExists { user_id: session.user_id });
            }
            i += 1;
        }
        proof {
            assert(self.sessions@.skip(n as int) =~= Seq::<Session>::empty());
            lemma_stored_session_none_iff(self.sessions@, session.user_id@);
        }
        let ghost prior = self.sessions@;
        let ghost fresh = session;
        self.sessions.push(session);
        proof {
            assert(forall|i: int|
                0 <= i < prior.len() ==> #[trigger] self.sessions@[i] == prior[i]);
            assert(self.sessions@[prior.len() as int] == fresh);
            assert forall|i: int, j: int|
                0 <= i < j < self.sessions@.len() implies self.sessions@[i].user_id@
                != self.sessions@[j].user_id@ by {
                if j < prior.len() {
                } else {
                    assert(self.sessions@[j] == fresh);
                    assert(prior[i].user_id@ != fresh.user_id@);
                }
            }
            lemma_new_session_then_get(prior, fresh);
        }
        Ok(())
    }

    /// Removes the stored session for `user_id`, or reports that none exists;
    /// a refusal leaves the store untouched.
    #[verifier::loop_isolation(false)]
    pub fn delete_session(&mut self, user_id: &str) -> (r: Result<(), SessionError>)
        requires
            old(self).wf(),
        ensures
            final(self).wf(),
            match r {
                Ok(()) => {
                    &&& has_session(old(self).sessions@, user_id@)
                    &&& exists|i: int|
                        0 <= i < old(self).sessions@.len() && old(self).sessions@[i].user_id@
                            == user_id@ && final(self).sessions@ == old(self).sessions@.remove(i)
                    &&& !has_session(final(self).sessions@, user_id@)
                },
                Err(e) => {
                    &&& !has_session(old(self).sessions@, user_id@)
                    &&& *final(self) == *old(self)
                    &&& e matches SessionError::NotFound { user_id: u } && u@ == user_id@
                },
            },
    {
        let n = self.sessions.len();
        let mut i: usize = 0;
        proof {
            assert(self.sessions@.skip(0) =~= self.sessions@);
        }
        while i < n
            invariant
                i <= n,
                n == self.sessions@.len(),
                *self == *old(self),
                stored_session(self.sessions@, user_id@) == stored_session(
                    self.sessions@.skip(i as int),
                    user_id@,
                ),
                forall|j: int| 0 <= j < i ==> self.sessions@[j].user_id@ != user_id@,
            decreases n - i,
        {
            proof {
                lemma_stored_session_skip_step(self.sessions@, user_id@, i as int);
            }
            if str_eq(self.sessions[i].user_id.as_str(), user_id) {
                let ghost prior = self.sessions@;
                let ghost idx = i as int;
                self.sessions.remove(i);
                proof {
                    prior.remove_ensures(idx);
                    let rem = prior.remove(idx);
                    assert(self.sessions@ == rem);
                    assert forall|p: int, q: int|
                        0 <= p < q < rem.len() implies rem[p].user_id@ != rem[q].user_id@ by {
                        if q < idx {
                            assert(rem[p] == prior[p]);
                            assert(rem[q] == prior[q]);
                        } else if p >= idx {
                            assert(rem[p] == prior[p + 1]);
                            assert(rem[q] == prior[q + 1]);
                        } else {
                            assert(rem[p] == prior[p]);
                            assert(rem[q] == prior[q + 1]);
                        }
                    }
                    assert forall|k: int| 0 <= k < rem.len() implies rem[k].user_id@
                        != user_id@ by {
                        if k < idx {
                            assert(rem[k] == prior[k]);
                        } else {
                            assert(rem[k] == prior[k + 1]);
                            assert(prior[idx].user_id@ == user_id@);
                        }
                    }
                    lemma_stored_session_none_iff(rem, user_id@);
                    assert(0 <= idx < old(self).sessions@.len() && old(
                        self,
                    ).sessions@[idx].user_id@ == user_id@ && self.sessions@ == old(
                        self,
                    ).sessions@.remove(idx));
                }
                return Ok(());
            }
            i += 1;
        }
        proof {
            assert(self.sessions@.skip(n as int) =~= Seq::<Session>::empty());
        }
        Err(SessionError::NotFound { user_id: user_id.to_owned() })
    }
}

/// One authentication flow a server offers, reduced to the one distinction
/// the login decision reads: password authentication or anything else.
pub enum LoginFlow {
    Password,
    Other,
}

/// Whether the server's advertised flows allow password login; when they do
/// not, a first login fails rather than attempting an unsupported method.
pub fn password_login_supported(flows: &Vec<LoginFlow>) -> (r: bool)
    ensures
        r == exists|i: int| 0 <= i < flows@.len() && flows@[i] is Password,
{
    let n = flows.len();
    let mut i: usize = 0;
    while i < n
        invariant
            i <= n,
            n == flows@.len(),
            forall|k: int| 0 <= k < i ==> !(flows@[k] is Password),
        decreases n - i,
    {
        match flows[i] {
            LoginFlow::Password => {
                return true;
            },
            LoginFlow::Other => {},
        }
        i += 1;
    }
    false
}

/// The first index of the sorted list whose account identifier does not come
/// before that of `x`, which is where `x` belongs.
#[verifier::loop_isolation(false)]
fn session_insert_position(out: &Vec<(String, String)>, x: &(String, String)) -> (p: usize)
    ensures
        p <= out@.len(),
        forall|k: int| 0 <= k < p ==> lex_le(out@[k].0@, x.0@),
        p < out@.len() ==> lex_le(x.0@, out@[p as int].0@),
{
    let mut p: usize = 0;
    while p < out.len()
        invariant
            p <= out@.len(),
            forall|k: int| 0 <= k < p ==> lex_le(out@[k].0@, x.0@),
        decreases out@.len() - p,
    {
        if !str_le(out[p].0.as_str(), x.0.as_str()) {
            proof {
                lemma_lex_lt_trichotomy(out@[p as int].0@, x.0@);
            }
            return p;
        }
        p += 1;
    }
    p
}

/// Sorts the gathered per-account listing rows by account identifier, so the
/// user-facing order is stable however the concurrent lookups completed. The
/// result holds exactly the given rows.
#[verifier::loop_isolation(false)]
pub fn sort_sessions_info(entries: Vec<(String, String)>) -> (r: Vec<(String, String)>)
    ensures
        r@.to_multiset() == entries@.to_multiset(),
        r@.len() == entries@.len(),
        forall|i: int, j: int| 0 <= i < j < r@.len() ==> lex_le(r@[i].0@, r@[j].0@),
{
    broadcast use vstd::seq_lib::group_to_multiset_ensures;

    let mut rest = entries;
    let mut out: Vec<(String, String)> = Vec::new();
    proof {
        assert(out@.to_multiset().add(rest@.to_multiset()) =~= entries@.to_multiset());
    }
    while rest.len() > 0
        invariant
            out@.to_multiset().add(rest@.to_multiset()) == entries@.to_multiset(),
            out@.len() + rest@.len() == entries@.len(),
            forall|i: int, j: int| 0 <= i < j < out@.len() ==> lex_le(out@[i].0@, out@[j].0@),
        decreases rest@.len(),
    {
        let ghost rest_before = rest@;
        let x = rest.pop().unwrap();
        proof {
            assert(rest_before =~= rest@.push(x));
            assert(rest_before.to_multiset() =~= rest@.to_multiset().insert(x));
        }
        let ghost sorted_before = out@;
        let p = session_insert_position(&out, &x);
        let ghost pos = p as int;
        proof {
            sorted_before.insert_ensures(pos, x);
        }
        out.insert(p, x);
        proof {
            assert(out@ == sorted_before.insert(pos, x));
            vstd::seq_lib::to_multiset_insert(sorted_before, pos, x);
            assert(out@.to_multiset().add(rest@.to_multiset()) =~= sorted_before.to_multiset().add(
                rest_before.to_multiset(),
            ));
            assert forall|i: int, j: int| 0 <= i < j < out@.len() implies lex_le(
                out@[i].0@,
                out@[j].0@,
            ) by {
                if j < pos {
                    assert(out@[i] == sorted_before[i]);
                    assert(out@[j] == sorted_before[j]);
                } else if j == pos {
                    assert(out@[i] == sorted_before[i]);
                    assert(out@[j] == x);
                } else if i < pos {
                    assert(out@[i] == sorted_before[i]);
                    assert(out@[j] == sorted_before[j - 1]);
                } else if i == pos {
                    assert(out@[i] == x);
                    assert(out@[j] == sorted_before[j - 1]);
                    lemma_lex_le_transitive(x.0@, sorted_before[pos].0@, sorted_before[j - 1].0@);
                } else {
                    assert(out@[i] == sorted_before[i - 1]);
                    assert(out@[j] == sorted_before[j - 1]);
                }
            }
        }
    }
    proof {
        assert(rest@.to_multiset() =~= Multiset::<(String, String)>::empty());
        assert(out@.to_multiset() =~= out@.to_multiset().add(rest@.to_multiset()));
    }
    out
}

/// Law: recording a fresh session and then looking the same account up yields
/// exactly that record.
pub proof fn lemma_new_session_then_get(records: Seq<Session>, session: Session)
    requires
        !has_session(records, session.user_id@),
    ensures
        stored_session(records.push(session), session.user_id@) == Some(session),
    decreases records.len(),
{
    lemma_stored_session_none_iff(records, session.user_id@);
    if records.len() == 0 {
        assert(records.push(session)[0] == session);
    } else {
        assert(records.push(session).drop_first() =~= records.drop_first().push(session));
        lemma_stored_session_none_iff(records.drop_first(), session.user_id@);
        assert(forall|i: int|
            0 <= i < records.drop_first().len() ==> #[trigger] records.drop_first()[i]
                == records[i + 1]);
        lemma_new_session_then_get(records.drop_first(), session);
    }
}

} // verus!
