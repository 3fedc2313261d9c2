//! Per-user traversal sessions over the active story graph.
//!
//! A session is a cursor over one graph. `start` anchors a user's session at
//! the entry node of the currently active story; `advance` scans the current
//! node's edges for the given command word and moves along the last matching
//! edge, in declaration order. Sessions of different users are independent.

use vstd::prelude::*;

use crate::errors::EngineError;
use crate::graph::{present_text, EdgeModel, GraphModel, StoryGraph};
use crate::parser::str_eq;
use crate::registry::{active_model, StoryRegistry};

verus! {

/// One user's cursor: the graph the session is anchored to, and the index of
/// the node the user is positioned at.
pub struct Session {
    graph: StoryGraph,
    node: usize,
}

/// The mathematical value of a [`Session`].
pub ghost struct SessionModel {
    pub graph: GraphModel,
    pub node: int,
}

impl View for Session {
    type V = SessionModel;

    closed spec fn view(&self) -> SessionModel {
        SessionModel { graph: self.graph@, node: self.node as int }
    }
}

/// Well-formedness of one session: its graph is well formed and its position
/// is a node of that graph.
pub open spec fn session_wf(s: SessionModel) -> bool {
    &&& s.graph.wf()
    &&& 0 <= s.node < s.graph.nodes.len()
}

/// The mathematical value of the session registry: one `(user, session)`
/// pair per user, in order of first start.
pub open spec fn sessions_wf(s: Seq<(u64, SessionModel)>) -> bool {
    &&& forall|p: int, q: int|
        0 <= p < q < s.len() ==> (#[trigger] s[p]).0 != (#[trigger] s[q]).0
    &&& forall|p: int| 0 <= p < s.len() ==> session_wf((#[trigger] s[p]).1)
}

/// First index of `user` in `s`, from `from` on; `None` when absent.
pub open spec fn user_from(s: Seq<(u64, SessionModel)>, user: u64, from: int) -> Option<int>
    decreases s.len() - from,
{
    if from < 0 || from >= s.len() {
        None
    } else if s[from].0 == user {
        Some(from)
    } else {
        user_from(s, user, from + 1)
    }
}

/// First index of `user` in `s`; `None` when the user has no session.
pub open spec fn user_index(s: Seq<(u64, SessionModel)>, user: u64) -> Option<int> {
    user_from(s, user, 0)
}

/// The session of `user`, if the user has started.
pub open spec fn session_of(s: Seq<(u64, SessionModel)>, user: u64) -> Option<SessionModel> {
    match user_index(s, user) {
        Some(i) => Some(s[i].1),
        None => None,
    }
}

/// The registry after `user`'s session is created or replaced by `sess`.
pub open spec fn set_session(
    s: Seq<(u64, SessionModel)>,
    user: u64,
    sess: SessionModel,
) -> Seq<(u64, SessionModel)> {
    match user_index(s, user) {
        Some(i) => s.update(i, (user, sess)),
        None => s.push((user, sess)),
    }
}

/// The index of the last edge of `es` whose command word is exactly `cmd`;
/// `None` when no edge matches. Matching is case-sensitive and untrimmed,
/// and a later declaration beats an earlier one.
pub open spec fn last_match(es: Seq<EdgeModel>, cmd: Seq<char>) -> Option<int>
    decreases es.len(),
{
    if es.len() == 0 {
        None
    } else if es[es.len() - 1].command == cmd {
        Some(es.len() - 1)
    } else {
        last_match(es.drop_last(), cmd)
    }
}

/// What `start(user)` does to the session registry `s` when the active story
/// is `active`: with no active story it fails and changes nothing; otherwise
/// the user's session is created or replaced at the active graph's entry
/// node, whose presentation is the reply.
pub open spec fn start_model(
    s: Seq<(u64, SessionModel)>,
    active: Option<GraphModel>,
    user: u64,
) -> (Seq<(u64, SessionModel)>, Result<Seq<char>, EngineError>) {
    match active {
        None => (s, Err(EngineError::NoActiveStory)),
        Some(g) => (
            set_session(s, user, SessionModel { graph: g, node: g.entry }),
            Ok(present_text(g, g.entry)),
        ),
    }
}

/// What `advance(user, cmd)` does to the session registry `s`: without a
/// session it fails with `NotStarted`; with no edge of the current node
/// matching `cmd` it fails with `InvalidChoice` and moves nothing; otherwise
/// the session moves along the last matching edge and the reply presents the
/// node reached.
pub open spec fn advance_model(s: Seq<(u64, SessionModel)>, user: u64, cmd: Seq<char>) -> (
    Seq<(u64, SessionModel)>,
    Result<Seq<char>, EngineError>,
) {
    match session_of(s, user) {
        None => (s, Err(EngineError::NotStarted)),
        Some(sess) => match last_match(sess.graph.nodes[sess.node].edges, cmd) {
            None => (s, Err(EngineError::InvalidChoice)),
            Some(j) => {
                let t = sess.graph.nodes[sess.node].edges[j].target;
                (
                    set_session(s, user, SessionModel { graph: sess.graph, node: t }),
                    Ok(present_text(sess.graph, t)),
                )
            },
        },
    }
}

/// The last matching edge exists, is in range, and matches; with no match,
/// no edge's command equals `cmd`.
pub proof fn lemma_last_match(es: Seq<EdgeModel>, cmd: Seq<char>)
    ensures
        match last_match(es, cmd) {
            Some(j) => 0 <= j < es.len() && es[j].command == cmd && forall|t: int|
                j < t < es.len() ==> (#[trigger] es[t]).command != cmd,
            None => forall|t: int| 0 <= t < es.len() ==> (#[trigger] es[t]).command != cmd,
        },
    decreases es.len(),
{
    if es.len() > 0 && es[es.len() - 1].command != cmd {
        lemma_last_match(es.drop_last(), cmd);
        assert forall|t: int| 0 <= t < es.len() - 1 implies es.drop_last()[t] == es[t] by {}
    }
}

pub proof fn lemma_user_from(s: Seq<(u64, SessionModel)>, user: u64, from: int)
    requires
        0 <= from <= s.len(),
    ensures
        match user_from(s, user, from) {
            Some(i) => from <= i < s.len() && s[i].0 == user && forall|t: int|
                from <= t < i ==> (#[trigger] s[t]).0 != user,
            None => forall|t: int| from <= t < s.len() ==> (#[trigger] s[t]).0 != user,
        },
    decreases s.len() - from,
{
    if from < s.len() && s[from].0 != user {
        lemma_user_from(s, user, from + 1);
    }
}

/// One slot of the session registry.
struct SessionSlot {
    user: u64,
    session: Session,
}

/// The process-wide mapping of user id to session.
pub struct SessionRegistry {
    slots: Vec<SessionSlot>,
}

impl View for SessionRegistry {
    type V = Seq<(u64, SessionModel)>;

    closed spec fn view(&self) -> Seq<(u64, SessionModel)> {
        self.slots@.map_values(|s: SessionSlot| (s.user, s.session@))
    }
}

impl SessionRegistry {
    /// An empty registry: nobody has started.
    pub fn new() -> (r: SessionRegistry)
        ensures
            r@ == Seq::<(u64, SessionModel)>::empty(),
            sessions_wf(r@),
    {
        let r = SessionRegistry { slots: Vec::new() };
        proof {
            assert(r@ =~= Seq::<(u64, SessionModel)>::empty());
        }
        r
    }

    /// First slot index of `user`, if any.
    fn find_user(&self, user: u64) -> (r: Option<usize>)
        ensures
            match r {
                Some(i) => user_index(self@, user) == Some(i as int),
                None => user_index(self@, user) is None,
            },
    {
        let mut k: usize = 0;
        while k < self.slots.len()
            invariant
                k <= self.slots.len(),
                forall|t: int| 0 <= t < k ==> (#[trigger] self@[t]).0 != user,
                self@.len() == self.slots@.len(),
            decreases self.slots.len() - k,
        {
            if self.slots[k].user == user {
                proof {
                    assert(self@[k as int].0 == user);
                    lemma_user_from(self@, user, 0);
                }
                return Some(k);
            }
            k = k + 1;
        }
        proof {
            lemma_user_from(self@, user, 0);
        }
        None
    }

    /// Creates or replaces `user`'s session.
    fn set_slot(&mut self, user: u64, sess: Session)
        requires
            sessions_wf(old(self)@),
            session_wf(sess@),
        ensures
            final(self)@ == set_session(old(self)@, user, sess@),
            sessions_wf(final(self)@),
    {
        let ghost s0 = self@;
        match self.find_user(user) {
            Some(i) => {
                proof {
                    lemma_user_from(s0, user, 0);
                }
                self.slots[i] = SessionSlot { user: user, session: sess };
                proof {
                    assert(self@ =~= s0.update(i as int, (user, sess@)));
                    assert forall|p: int, q: int| 0 <= p < q < self@.len() implies (
                    #[trigger] self@[p]).0 != (#[trigger] self@[q]).0 by {
                        assert(s0[p].0 != s0[q].0);
                    }
                }
            },
            None => {
                self.slots.push(SessionSlot { user: user, session: sess });
                proof {
                    lemma_user_from(s0, user, 0);
                    assert(self@ =~= s0.push((user, sess@)));
                }
            },
        }
    }

    /// The node index `user` is currently positioned at, or `None` when the
    /// user has not started.
    pub fn position(&self, user: u64) -> (r: Option<usize>)
        ensures
            match r {
                Some(n) => session_of(self@, user) matches Some(sess) && sess.node == n,
                None => session_of(self@, user) is None,
            },
    {
        match self.find_user(user) {
            Some(i) => {
                proof {
                    lemma_user_from(self@, user, 0);
                    assert(self@[i as int].1 == self.slots@[i as int].session@);
                }
                Some(self.slots[i].session.node)
            },
            None => None,
        }
    }

    /// Starts (or restarts) `user`'s session at the entry node of the active
    /// story of `stories`, replying with that node's presentation. Fails
    /// with `NoActiveStory`, changing nothing, when no story is active.
    pub fn start(&mut self, user: u64, stories: &StoryRegistry) -> (r: Result<String, EngineError>)
        requires
            sessions_wf(old(self)@),
            stories@.wf(),
        ensures
            sessions_wf(final(self)@),
            final(self)@ == start_model(old(self)@, active_model(stories@), user).0,
            match r {
                Ok(t) => start_model(old(self)@, active_model(stories@), user).1 == Ok::<
                    Seq<char>,
                    EngineError,
                >(t@),
                Err(e) => start_model(old(self)@, active_model(stories@), user).1 == Err::<
                    Seq<char>,
                    EngineError,
                >(e),
            },
    {
        match stories.active() {
            None => Err(EngineError::NoActiveStory),
            Some(g) => {
                let entry = g.entry();
                let text = g.present(entry);
                let copy = g.duplicate();
                self.set_slot(user, Session { graph: copy, node: entry });
                Ok(text)
            },
        }
    }

    /// Advances `user`'s session along the last edge of the current node
    /// whose command word equals `command`, replying with the presentation
    /// of the node reached. Fails with `NotStarted` when the user has no
    /// session, and with `InvalidChoice`, leaving the session unchanged,
    /// when no edge matches.
    pub fn advance(&mut self, user: u64, command: &str) -> (r: Result<String, EngineError>)
        requires
            sessions_wf(old(self)@),
        ensures
            sessions_wf(final(self)@),
            final(self)@ == advance_model(old(self)@, user, command@).0,
            match r {
                Ok(t) => advance_model(old(self)@, user, command@).1 == Ok::<
                    Seq<char>,
                    EngineError,
                >(t@),
                Err(e) => advance_model(old(self)@, user, command@).1 == Err::<
                    Seq<char>,
                    EngineError,
                >(e),
            },
    {
        let ghost s0 = self@;
        match self.find_user(user) {
            None => Err(EngineError::NotStarted),
            Some(i) => {
                proof {
                    lemma_user_from(s0, user, 0);
                    assert(session_of(s0, user) == Some(s0[i as int].1));
                    assert(session_wf(s0[i as int].1));
                    assert(s0[i as int].1 == self.slots@[i as int].session@);
                    assert(s0[i as int].0 == self.slots@[i as int].user);
                }
                let node = self.slots[i].session.node;
                let ghost gm = s0[i as int].1.graph;
                let ghost em = gm.nodes[node as int].edges;
                let n_edges = self.slots[i].session.graph.edge_count(node);
                let mut best: Option<usize> = None;
                let mut j: usize = 0;
                while j < n_edges
                    invariant
                        j <= n_edges,
                        i < self.slots@.len(),
                        self@ == s0,
                        gm == s0[i as int].1.graph,
                        node == s0[i as int].1.node,
                        em == gm.nodes[node as int].edges,
                        session_wf(s0[i as int].1),
                        n_edges == em.len(),
                        match best {
                            Some(b) => last_match(em.take(j as int), command@) == Some(b as int),
                            None => last_match(em.take(j as int), command@) is None,
                        },
                    decreases n_edges - j,
                {
                    let cm = self.slots[i].session.graph.edge_command(node, j);
                    if str_eq(cm.as_str(), command) {
                        best = Some(j);
                    }
                    proof {
                        assert(em.take(j as int + 1).drop_last() =~= em.take(j as int));
                        assert(em.take(j as int + 1)[j as int] == em[j as int]);
                    }
                    j = j + 1;
                }
                proof {
                    assert(em.take(n_edges as int) =~= em);
                }
                match best {
                    None => Err(EngineError::InvalidChoice),
                    Some(b) => {
                        proof {
                            lemma_last_match(em, command@);
                            assert(0 <= em[b as int].target < gm.nodes.len());
                        }
                        let t = self.slots[i].session.graph.edge_target(node, b);
                        let text = self.slots[i].session.graph.present(t);
                        self.slots[i].session.node = t;
                        proof {
                            assert(self@ =~= s0.update(
                                i as int,
                                (user, SessionModel { graph: gm, node: t as int }),
                            ));
                            assert forall|p: int, q: int| 0 <= p < q < self@.len() implies (
                            #[trigger] self@[p]).0 != (#[trigger] self@[q]).0 by {
                                assert(s0[p].0 != s0[q].0);
                            }
                        }
                        Ok(text)
                    },
                }
            },
        }
    }
}

/// Traversal is deterministic: two advances from identical registries with
/// an identical command yield identical registries and identical replies.
pub proof fn lemma_advance_deterministic(
    s1: Seq<(u64, SessionModel)>,
    s2: Seq<(u64, SessionModel)>,
    user: u64,
    cmd: Seq<char>,
)
    requires
        s1 == s2,
    ensures
        advance_model(s1, user, cmd) == advance_model(s2, user, cmd),
{
}

/// Setting one user's session never touches another user's session.
pub proof fn lemma_set_session_other(
    s: Seq<(u64, SessionModel)>,
    u1: u64,
    sess: SessionModel,
    u2: u64,
)
    requires
        u1 != u2,
    ensures
        session_of(set_session(s, u1, sess), u2) == session_of(s, u2),
{
    lemma_user_from(s, u1, 0);
    match user_index(s, u1) {
        Some(i) => {
            lemma_user_update_other(s, u1, sess, i, u2, 0);
        },
        None => {
            lemma_user_push_other(s, u1, sess, u2, 0);
        },
    }
}

/// Users are isolated: starting or advancing one user leaves every other
/// user's session exactly as it was.
pub proof fn lemma_isolation(
    s: Seq<(u64, SessionModel)>,
    active: Option<GraphModel>,
    u1: u64,
    u2: u64,
    cmd: Seq<char>,
)
    requires
        u1 != u2,
    ensures
        session_of(start_model(s, active, u1).0, u2) == session_of(s, u2),
        session_of(advance_model(s, u1, cmd).0, u2) == session_of(s, u2),
{
    match active {
        Some(g) => {
            lemma_set_session_other(s, u1, SessionModel { graph: g, node: g.entry }, u2);
        },
        None => {
        },
    }
    match session_of(s, u1) {
        Some(sess) => {
            match last_match(sess.graph.nodes[sess.node].edges, cmd) {
                Some(j) => {
                    let t = sess.graph.nodes[sess.node].edges[j].target;
                    lemma_set_session_other(s, u1, SessionModel { graph: sess.graph, node: t }, u2);
                },
                None => {
                },
            }
        },
        None => {
        },
    }
}

proof fn lemma_user_update_other(
    s: Seq<(u64, SessionModel)>,
    u1: u64,
    sess: SessionModel,
    i: int,
    u2: u64,
    from: int,
)
    requires
        u1 != u2,
        0 <= i < s.len(),
        s[i].0 == u1,
        0 <= from <= s.len(),
    ensures
        ({
            let s2 = s.update(i, (u1, sess));
            &&& user_from(s2, u2, from) == user_from(s, u2, from)
            &&& match user_from(s, u2, from) {
                Some(k) => s2[k] == s[k],
                None => true,
            }
        }),
    decreases s.len() - from,
{
    if from < s.len() && s[from].0 != u2 {
        lemma_user_update_other(s, u1, sess, i, u2, from + 1);
    }
}

proof fn lemma_user_push_other(
    s: Seq<(u64, SessionModel)>,
    u1: u64,
    sess: SessionModel,
    u2: u64,
    from: int,
)
    requires
        u1 != u2,
        0 <= from <= s.len(),
    ensures
        ({
            let s2 = s.push((u1, sess));
            &&& user_from(s2, u2, from) == user_from(s, u2, from)
            &&& match user_from(s, u2, from) {
                Some(k) => s2[k] == s[k],
                None => true,
            }
        }),
    decreases s.len() - from,
{
    if from < s.len() && s[from].0 != u2 {
        assert(s.push((u1, sess))[from] == s[from]);
        lemma_user_push_other(s, u1, sess, u2, from + 1);
    } else if from >= s.len() {
        let s2 = s.push((u1, sess));
        assert(s2[s.len() as int].0 == u1);
        assert(user_from(s2, u2, from + 1) is None);
        assert(user_from(s2, u2, from) is None);
    } else {
        assert(s.push((u1, sess))[from] == s[from]);
    }
}

} // verus!
