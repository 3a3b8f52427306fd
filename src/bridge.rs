//! The line-framed JSON protocol with the sidecar process of a conversation, and the
//! decisions of the session pool.
use vstd::prelude::*;
use crate::text::owned;

verus! {

/// Seconds to wait for one reply line.
pub const BRIDGE_REPLY_TIMEOUT_SECS: u64 = 120;

/// One request line: `{"type":"message","content":…,"model"?}`.
#[derive(Clone, Debug, PartialEq, Eq)]
pub struct BridgeRequest {
    pub request_type: String,
    pub content: Option<String>,
    pub model: Option<String>,
}

/// One reply line: `{"status":…,"data"?,"message"?}`.
#[derive(Clone, Debug, PartialEq, Eq)]
pub struct BridgeResponse {
    pub status: String,
    pub data: Option<String>,
    pub message: Option<String>,
}

/// How an exchange with the sidecar failed.
#[derive(Clone, Debug, PartialEq, Eq)]
pub enum BridgeError {
    /// The sidecar reported an error.
    Remote(String),
    /// The reply's status is neither `success` nor `error`.
    Protocol(String),
    /// The process closed its pipes; what it wrote to stderr.
    ProcessExited(String),
    /// No reply line came in time.
    Timeout,
}

impl BridgeRequest {
    /// A message request.
    pub fn message(content: String, model: Option<String>) -> (r: Self)
        ensures
            r.request_type@ == "message"@,
            r.content == Some(content),
            r.model == model,
    {
        BridgeRequest { request_type: owned("message"), content: Some(content), model }
    }
}

/// The message of an error reply, `Unknown error` when it carries none.
pub open spec fn remote_message(resp: BridgeResponse) -> Seq<char> {
    match resp.message {
        Some(x) => x@,
        None => "Unknown error"@,
    }
}

/// What a reply means: the data of a success (empty when absent), the message of an error
/// (`Unknown error` when absent), or a protocol error naming any other status.
pub fn interpret_response(resp: BridgeResponse) -> (r: Result<String, BridgeError>)
    ensures
        match r {
            Ok(d) => resp.status@ == "success"@ && d@ == match resp.data {
                Some(x) => x@,
                None => Seq::<char>::empty(),
            },
            Err(BridgeError::Remote(m)) => resp.status@ == "error"@ && m@ == remote_message(resp),
            Err(BridgeError::Protocol(s)) => resp.status@ != "success"@ && resp.status@ != "error"@
                && s@ == resp.status@,
            Err(_) => false,
        },
{
    proof {
        reveal_strlit("success");
        reveal_strlit("error");
    }
    if resp.status == owned("success") {
        match resp.data {
            Some(d) => Ok(d),
            None => Ok(String::new()),
        }
    } else if resp.status == owned("error") {
        proof {
            assert(resp.status@ != "success"@);
        }
        let m = match resp.message {
            Some(m) => m,
            None => owned("Unknown error"),
        };
        proof {
            assert(m@ == remote_message(resp));
        }
        Err(BridgeError::Remote(m))
    } else {
        Err(BridgeError::Protocol(resp.status))
    }
}

/// What the pool does for a conversation on `get_or_create`.
#[derive(Clone, Copy, Debug, PartialEq, Eq, Structural)]
pub enum PoolAction {
    /// A live session exists: use it.
    Reuse,
    /// The session died: remove it and start a new one.
    Replace,
    /// No session yet: start one.
    Create,
}

/// The pool's choice, given whether a session exists and whether its process still runs.
pub open spec fn pool_action_spec(exists: bool, alive: bool) -> PoolAction {
    if !exists {
        PoolAction::Create
    } else if alive {
        PoolAction::Reuse
    } else {
        PoolAction::Replace
    }
}

/// The pool's choice, given whether a session exists and whether its process still runs.
#[verifier::when_used_as_spec(pool_action_spec)]
pub fn pool_action(exists: bool, alive: bool) -> (r: PoolAction)
    ensures
        r == (if !exists {
            PoolAction::Create
        } else if alive {
            PoolAction::Reuse
        } else {
            PoolAction::Replace
        }),
{
    if !exists {
        PoolAction::Create
    } else if alive {
        PoolAction::Reuse
    } else {
        PoolAction::Replace
    }
}

/// One live conversation: its id and the handle of its sidecar process.
#[derive(Clone, Debug, PartialEq, Eq)]
pub struct SessionEntry {
    pub conversation_id: String,
    pub handle: u64,
}

/// The handle stored for `id`, by the last entry with that id.
pub open spec fn session_of(entries: Seq<SessionEntry>, id: Seq<char>) -> Option<u64>
    decreases entries.len(),
{
    if entries.len() == 0 {
        None
    } else if entries.last().conversation_id@ == id {
        Some(entries.last().handle)
    } else {
        session_of(entries.drop_last(), id)
    }
}

/// No two entries share a conversation id.
pub open spec fn ids_distinct(entries: Seq<SessionEntry>) -> bool {
    forall|i: int, j: int|
        0 <= i < entries.len() && 0 <= j < entries.len() && i != j ==> (
        #[trigger] entries[i]).conversation_id@ != (#[trigger] entries[j]).conversation_id@
}

proof fn lemma_session_absent(s: Seq<SessionEntry>, k: Seq<char>)
    requires
        forall|j: int| 0 <= j < s.len() ==> (#[trigger] s[j]).conversation_id@ != k,
    ensures
        session_of(s, k) is None,
    decreases s.len(),
{
    if s.len() > 0 {
        assert forall|j: int| 0 <= j < s.len() - 1 implies (#[trigger] s.drop_last()[j]).conversation_id@ != k by {
            assert(s.drop_last()[j] == s[j]);
        }
        lemma_session_absent(s.drop_last(), k);
    }
}

proof fn lemma_session_at(s: Seq<SessionEntry>, i: int)
    requires
        ids_distinct(s),
        0 <= i < s.len(),
    ensures
        session_of(s, s[i].conversation_id@) == Some(s[i].handle),
    decreases s.len(),
{
    if i < s.len() - 1 {
        assert(s.last().conversation_id@ != s[i].conversation_id@);
        assert(s.drop_last()[i] == s[i]);
        assert(ids_distinct(s.drop_last())) by {
            assert forall|a: int, b: int|
                0 <= a < s.len() - 1 && 0 <= b < s.len() - 1 && a != b implies (#[trigger] s.drop_last()[a]).conversation_id@
                    != (#[trigger] s.drop_last()[b]).conversation_id@ by {
                assert(s.drop_last()[a] == s[a] && s.drop_last()[b] == s[b]);
            }
        }
        lemma_session_at(s.drop_last(), i);
    }
}

proof fn lemma_session_remove(s: Seq<SessionEntry>, i: int, k: Seq<char>)
    requires
        ids_distinct(s),
        0 <= i < s.len(),
    ensures
        session_of(s.remove(i), k) == if k == s[i].conversation_id@ {
            None
        } else {
            session_of(s, k)
        },
        ids_distinct(s.remove(i)),
    decreases s.len(),
{
    let r = s.remove(i);
    assert forall|a: int, b: int|
        0 <= a < r.len() && 0 <= b < r.len() && a != b implies (#[trigger] r[a]).conversation_id@
            != (#[trigger] r[b]).conversation_id@ by {
        let a2 = if a < i { a } else { a + 1 };
        let b2 = if b < i { b } else { b + 1 };
        assert(r[a] == s[a2] && r[b] == s[b2]);
    }
    if k == s[i].conversation_id@ {
        assert forall|j: int| 0 <= j < r.len() implies (#[trigger] r[j]).conversation_id@ != k by {
            let j2 = if j < i { j } else { j + 1 };
            assert(r[j] == s[j2]);
        }
        lemma_session_absent(r, k);
    } else if i == s.len() - 1 {
        assert(r =~= s.drop_last());
    } else {
        let d = s.drop_last();
        assert(ids_distinct(d)) by {
            assert forall|a: int, b: int|
                0 <= a < d.len() && 0 <= b < d.len() && a != b implies (#[trigger] d[a]).conversation_id@
                    != (#[trigger] d[b]).conversation_id@ by {
                assert(d[a] == s[a] && d[b] == s[b]);
            }
        }
        lemma_session_remove(d, i, k);
        assert(r =~= d.remove(i).push(s.last()));
        assert(r.drop_last() =~= d.remove(i));
        assert(d[i] == s[i]);
    }
}

/// The sessions of the bridge pool, one per conversation.
#[derive(Clone, Debug)]
pub struct SessionTable {
    pub entries: Vec<SessionEntry>,
}

impl SessionTable {
    pub open spec fn wf(&self) -> bool {
        ids_distinct(self.entries@)
    }

    /// The handle for a conversation.
    pub open spec fn handle_of(&self, id: Seq<char>) -> Option<u64> {
        session_of(self.entries@, id)
    }

    /// An empty table.
    pub fn new() -> (r: Self)
        ensures
            r.wf(),
            r.entries.len() == 0,
    {
        SessionTable { entries: Vec::new() }
    }

    fn find(&self, id: &String) -> (r: Option<usize>)
        requires
            self.wf(),
        ensures
            match r {
                Some(i) => i < self.entries.len() && self.entries@[i as int].conversation_id@ == id@,
                None => self.handle_of(id@) is None,
            },
    {
        let mut i: usize = 0;
        while i < self.entries.len()
            invariant
                i <= self.entries.len(),
                forall|j: int| 0 <= j < i ==> (#[trigger] self.entries@[j]).conversation_id@ != id@,
            decreases self.entries.len() - i,
        {
            if self.entries[i].conversation_id == *id {
                return Some(i);
            }
            i = i + 1;
        }
        proof {
            lemma_session_absent(self.entries@, id@);
        }
        None
    }

    /// The handle stored for a conversation.
    pub fn lookup(&self, id: &String) -> (r: Option<u64>)
        requires
            self.wf(),
        ensures
            r == self.handle_of(id@),
    {
        match self.find(id) {
            Some(i) => {
                proof {
                    lemma_session_at(self.entries@, i as int);
                }
                Some(self.entries[i].handle)
            },
            None => None,
        }
    }

    /// First half of `get_or_create`, given whether the stored session's process still runs:
    /// a live session is reused; a dead one is removed; without one, a session must be made.
    /// Other conversations are untouched.
    pub fn begin_get_or_create(&mut self, id: &String, alive: bool) -> (r: PoolAction)
        requires
            old(self).wf(),
        ensures
            final(self).wf(),
            r == pool_action(old(self).handle_of(id@) is Some, alive),
            r == PoolAction::Reuse ==> final(self).entries == old(self).entries,
            r != PoolAction::Reuse ==> final(self).handle_of(id@) is None,
            forall|k: Seq<char>| k != id@ ==> #[trigger] final(self).handle_of(k) == old(self).handle_of(k),
    {
        match self.find(id) {
            None => PoolAction::Create,
            Some(i) => {
                proof {
                    lemma_session_at(self.entries@, i as int);
                }
                if alive {
                    PoolAction::Reuse
                } else {
                    let ghost before = self.entries@;
                    self.entries.remove(i);
                    proof {
                        assert forall|k: Seq<char>| true implies #[trigger] session_of(self.entries@, k) == if k
                            == before[i as int].conversation_id@ {
                            None
                        } else {
                            session_of(before, k)
                        } by {
                            lemma_session_remove(before, i as int, k);
                        }
                        lemma_session_remove(before, i as int, id@);
                    }
                    PoolAction::Replace
                }
            },
        }
    }

    /// Second half of `get_or_create`, given the outcome of starting a process: on success
    /// the new session is stored, on failure the conversation stays without one. Other
    /// conversations are untouched.
    pub fn finish_create(&mut self, id: &String, spawned: Result<u64, String>) -> (r: Result<u64, String>)
        requires
            old(self).wf(),
            old(self).handle_of(id@) is None,
        ensures
            final(self).wf(),
            r == spawned,
            final(self).handle_of(id@) == match spawned {
                Ok(h) => Some(h),
                Err(_) => None::<u64>,
            },
            forall|k: Seq<char>| k != id@ ==> #[trigger] final(self).handle_of(k) == old(self).handle_of(k),
    {
        match spawned {
            Ok(h) => {
                let ghost before = self.entries@;
                proof {
                    assert forall|j: int| 0 <= j < before.len() implies (#[trigger] before[j]).conversation_id@ != id@ by {
                        if before[j].conversation_id@ == id@ {
                            lemma_session_at(before, j);
                        }
                    }
                }
                self.entries.push(SessionEntry { conversation_id: id.clone(), handle: h });
                proof {
                    assert(self.entries@.drop_last() =~= before);
                    assert forall|a: int, b: int|
                        0 <= a < self.entries.len() && 0 <= b < self.entries.len() && a != b implies (
                        #[trigger] self.entries@[a]).conversation_id@ != (#[trigger] self.entries@[b]).conversation_id@ by {
                        if a < before.len() && b < before.len() {
                            assert(self.entries@[a] == before[a] && self.entries@[b] == before[b]);
                        } else if a < before.len() {
                            assert(self.entries@[a] == before[a]);
                        } else {
                            assert(self.entries@[b] == before[b]);
                        }
                    }
                }
                Ok(h)
            },
            Err(e) => Err(e),
        }
    }

    /// Removes a conversation's session, giving back its handle.
    pub fn remove(&mut self, id: &String) -> (r: Option<u64>)
        requires
            old(self).wf(),
        ensures
            final(self).wf(),
            r == old(self).handle_of(id@),
            final(self).handle_of(id@) is None,
            forall|k: Seq<char>| k != id@ ==> #[trigger] final(self).handle_of(k) == old(self).handle_of(k),
    {
        match self.find(id) {
            None => None,
            Some(i) => {
                proof {
                    lemma_session_at(self.entries@, i as int);
                }
                let ghost before = self.entries@;
                let e = self.entries.remove(i);
                proof {
                    assert forall|k: Seq<char>| true implies #[trigger] session_of(self.entries@, k) == if k
                        == before[i as int].conversation_id@ {
                        None
                    } else {
                        session_of(before, k)
                    } by {
                        lemma_session_remove(before, i as int, k);
                    }
                    lemma_session_remove(before, i as int, id@);
                }
                Some(e.handle)
            },
        }
    }

    /// Number of sessions.
    pub fn session_count(&self) -> (r: usize)
        ensures
            r == self.entries.len(),
    {
        self.entries.len()
    }

    /// Empties the table, giving back every handle in order, for shutdown.
    pub fn take_all(&mut self) -> (r: Vec<u64>)
        ensures
            final(self).entries.len() == 0,
            r.len() == old(self).entries.len(),
            forall|i: int| 0 <= i < r.len() ==> #[trigger] r@[i] == old(self).entries@[i].handle,
    {
        let mut r: Vec<u64> = Vec::new();
        let mut i: usize = 0;
        while i < self.entries.len()
            invariant
                i <= self.entries.len(),
                r.len() == i,
                forall|j: int| 0 <= j < i ==> #[trigger] r@[j] == self.entries@[j].handle,
            decreases self.entries.len() - i,
        {
            r.push(self.entries[i].handle);
            i = i + 1;
        }
        self.entries = Vec::new();
        r
    }
}

} // verus!
