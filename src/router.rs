use vstd::prelude::*;
use vstd::utf8::encode_utf8;
use rand::Rng;
use crate::keyslot::{hash_slot, key_slot};
use crate::redirect::{RedirectKind, parse_redirect, redirect_of, same_text};
use crate::resp::{Resp, bulk_of, error_text, is_command_of, key_of, request_key};
use crate::slot_map::{SlotMap, owner, ranges_well_formed, slot_map_of};

verus! {

/// How many redirections one request may follow.
pub const MAX_ATTEMPTS: u32 = 16;

/// Why a request got no reply.
#[derive(Debug, PartialEq, Eq, Clone, Copy)]
pub enum RouterError {
    /// No node could be reached to carry the request.
    NotConnected,
    /// The connection to the node died before it replied.
    Disconnected,
    /// The router's own mailbox refused the request.
    Mailbox,
}

/// How a node connection failed a request.
#[derive(Debug, PartialEq, Eq, Clone, Copy)]
pub enum NodeError {
    NotConnected,
    Disconnected,
}

/// How the current send of a request came about.
#[derive(Debug, PartialEq, Eq, Clone, Copy)]
pub enum Hop {
    /// The first send, to the node chosen for the key.
    Direct,
    /// A send that follows a `MOVED` reply.
    Moved,
    /// A send that follows an `ASK` reply: the request goes after an
    /// `ASKING` command, on the same connection and with nothing between.
    Asking,
}

/// A request on its way: what to send, where, and how many redirections
/// it has followed.
#[derive(Debug)]
pub struct Pending {
    pub request: Resp,
    pub attempts: u32,
    pub hop: Hop,
    pub target: String,
}

/// What to do after a node replied.
#[derive(Debug)]
pub enum Step {
    /// Send the request again, as `Pending` says.
    Submit(Pending),
    /// Hand this outcome to the caller.
    Done(Result<Resp, RouterError>),
}

/// `q` is the send that follows `p` after one redirection.
pub open spec fn follows(p: Pending, q: Pending) -> bool {
    q.attempts == p.attempts + 1 && q.attempts <= MAX_ATTEMPTS && q.request == p.request
}

/// The texts of a list of strings.
pub open spec fn texts(v: Seq<String>) -> Seq<Seq<char>> {
    v.map_values(|s: String| s@)
}

pub open spec fn no_duplicates(s: Seq<Seq<char>>) -> bool {
    forall|i: int, j: int| 0 <= i < j < s.len() ==> s[i] != s[j]
}

/// The redirection that a node reply carries, if it is one.
pub open spec fn redirect_in(reply: Resp) -> Option<(RedirectKind, Seq<char>)> {
    match error_text(reply) {
        Some(e) => redirect_of(e),
        None => None,
    }
}

/// `on_reply` sends a request on again after this reply: it is a
/// redirection and fewer than `MAX_ATTEMPTS` were followed before.
pub open spec fn followed(attempts: nat, reply: Result<Resp, NodeError>) -> bool {
    &&& reply is Ok
    &&& redirect_in(reply->Ok_0) is Some
    &&& attempts < MAX_ATTEMPTS
}

/// `s` with `a` added at the end, unless it is there already.
pub open spec fn with_node(s: Seq<Seq<char>>, a: Seq<char>) -> Seq<Seq<char>> {
    if s.contains(a) {
        s
    } else {
        s.push(a)
    }
}

/// Relies on `rand::thread_rng().gen_range(0..n)`: a number below `n`.
#[verifier::external_body]
fn random_below(n: usize) -> (r: usize)
    requires
        n > 0,
    ensures
        r < n,
{
    rand::thread_rng().gen_range(0..n)
}

/// The `ASKING` command, sent ahead of a request that follows `ASK`.
pub fn asking_command() -> (r: Resp)
    ensures
        is_command_of(r, seq![encode_utf8("ASKING"@)]),
{
    Resp::Array(vec![bulk_of("ASKING")])
}

/// The topology query, `CLUSTER SLOTS`.
pub fn topology_query() -> (r: Resp)
    ensures
        is_command_of(r, seq![encode_utf8("CLUSTER"@), encode_utf8("SLOTS"@)]),
{
    Resp::Array(vec![bulk_of("CLUSTER"), bulk_of("SLOTS")])
}

fn contains_text(v: &Vec<String>, a: &str) -> (r: bool)
    ensures
        r == texts(v@).contains(a@),
{
    let mut i: usize = 0;
    while i < v.len()
        invariant
            i <= v@.len(),
            forall|k: int| 0 <= k < i ==> v@[k]@ != a@,
        decreases v@.len() - i,
    {
        if same_text(v[i].as_str(), a) {
            assert(texts(v@)[i as int] == a@);
            return true;
        }
        i = i + 1;
    }
    proof {
        if texts(v@).contains(a@) {
            let k = choose|k: int| 0 <= k < texts(v@).len() && texts(v@)[k] == a@;
            assert(v@[k]@ == a@);
        }
    }
    false
}

proof fn lemma_with_node_contains(s: Seq<Seq<char>>, a: Seq<char>, x: Seq<char>)
    ensures
        with_node(s, a).contains(x) <==> (s.contains(x) || x == a),
{
    if !s.contains(a) {
        lemma_push_contains(s, a, x);
    }
}

proof fn lemma_push_contains(s: Seq<Seq<char>>, a: Seq<char>, x: Seq<char>)
    ensures
        s.push(a).contains(x) <==> (s.contains(x) || x == a),
{
    let t = s.push(a);
    if s.contains(x) {
        let k = choose|k: int| 0 <= k < s.len() && s[k] == x;
        assert(t[k] == x);
    }
    if t.contains(x) && x != a {
        let k = choose|k: int| 0 <= k < t.len() && t[k] == x;
        assert(s[k] == x);
    }
    assert(t[s.len() as int] == a);
}

/// The routing state of one cluster client: the known nodes, the slot map,
/// and whether the slot map is known to be out of date.
#[derive(Debug)]
pub struct Router {
    nodes: Vec<String>,
    slots: SlotMap,
    stale: bool,
    refreshing: bool,
}

impl Router {
    /// The addresses of the known nodes.
    pub closed spec fn node_set(&self) -> Seq<Seq<char>> {
        texts(self.nodes@)
    }

    /// The slot ranges and their primaries.
    pub closed spec fn slot_ranges(&self) -> Seq<(u16, u16, Seq<char>)> {
        self.slots@
    }

    /// The slot map is known to be out of date.
    pub closed spec fn stale_flag(&self) -> bool {
        self.stale
    }

    /// A topology query is in flight.
    pub closed spec fn refresh_in_flight(&self) -> bool {
        self.refreshing
    }

    /// Nodes are listed once; the slot map is sorted and disjoint; each
    /// primary it names is a known node.
    pub open spec fn wf(&self) -> bool {
        &&& no_duplicates(self.node_set())
        &&& ranges_well_formed(self.slot_ranges())
        &&& forall|i: int|
            0 <= i < self.slot_ranges().len() ==> self.node_set().contains(
                #[trigger] self.slot_ranges()[i].2,
            )
    }

    /// The owner of the request's key, when the request has a key and the
    /// slot map knows its slot.
    pub open spec fn routed(&self, request: Resp) -> Option<Seq<char>> {
        match request_key(request) {
            Some(k) => owner(self.slot_ranges(), key_slot(k)),
            None => None,
        }
    }

    /// The node a request goes to first: the owner of its key's slot, or
    /// else the known node at `pick` (modulo their number).
    pub open spec fn selection(&self, request: Resp, pick: nat) -> Option<Seq<char>> {
        match self.routed(request) {
            Some(a) => Some(a),
            None => if self.node_set().len() == 0 {
                None
            } else {
                Some(self.node_set()[(pick % self.node_set().len()) as int])
            },
        }
    }

    proof fn lemma_owner_known(&self, slot: u16)
        requires
            self.wf(),
        ensures
            owner(self.slot_ranges(), slot) is Some ==> self.node_set().contains(
                owner(self.slot_ranges(), slot)->0,
            ),
    {
        let m = self.slot_ranges();
        if exists|i: int| 0 <= i < m.len() && crate::slot_map::covers(#[trigger] m[i], slot) {
            let i = choose|i: int| 0 <= i < m.len() && crate::slot_map::covers(#[trigger] m[i], slot);
            assert(self.node_set().contains(m[i].2));
        }
    }

    /// Adds a node address unless it is known.
    fn add_node(&mut self, a: &str)
        requires
            old(self).wf(),
        ensures
            final(self).wf(),
            final(self).node_set() == with_node(old(self).node_set(), a@),
            final(self).slot_ranges() == old(self).slot_ranges(),
            final(self).stale == old(self).stale,
            final(self).refreshing == old(self).refreshing,
    {
        if !contains_text(&self.nodes, a) {
            let ghost before = self.node_set();
            self.nodes.push(String::from_str(a));
            assert(self.node_set() =~= before.push(a@));
            assert forall|i: int| 0 <= i < self.slot_ranges().len() implies self.node_set().contains(
                #[trigger] self.slot_ranges()[i].2,
            ) by {
                let k = choose|k: int| 0 <= k < before.len() && before[k] == self.slot_ranges()[i].2;
                assert(self.node_set()[k] == before[k]);
            }
        }
    }

    /// A router that knows the given seed addresses (each once), with an
    /// empty slot map marked out of date.
    pub fn new(seeds: Vec<String>) -> (r: Router)
        ensures
            r.wf(),
            forall|a: Seq<char>| r.node_set().contains(a) <==> texts(seeds@).contains(a),
            r.slot_ranges().len() == 0,
            r.stale_flag(),
            !r.refresh_in_flight(),
    {
        let mut r = Router { nodes: Vec::new(), slots: SlotMap::new(), stale: true, refreshing: false };
        assert(r.node_set() =~= Seq::<Seq<char>>::empty());
        let mut i: usize = 0;
        while i < seeds.len()
            invariant
                i <= seeds@.len(),
                r.wf(),
                r.slot_ranges().len() == 0,
                r.stale,
                !r.refreshing,
                forall|a: Seq<char>|
                    r.node_set().contains(a) <==> texts(seeds@.subrange(0, i as int)).contains(a),
            decreases seeds@.len() - i,
        {
            let ghost before = r.node_set();
            r.add_node(seeds[i].as_str());
            proof {
                let t = texts(seeds@.subrange(0, i + 1));
                let t0 = texts(seeds@.subrange(0, i as int));
                let si = seeds@[i as int]@;
                assert(t =~= t0.push(si));
                assert forall|a: Seq<char>| r.node_set().contains(a) <==> t.contains(a) by {
                    lemma_with_node_contains(before, si, a);
                    lemma_push_contains(t0, si, a);
                }
            }
            i = i + 1;
        }
        assert(seeds@.subrange(0, seeds@.len() as int) =~= seeds@);
        r
    }

    /// The addresses of the known nodes.
    pub fn node_addresses(&self) -> (v: &Vec<String>)
        ensures
            texts(v@) == self.node_set(),
    {
        &self.nodes
    }

    /// Whether the slot map is known to be out of date.
    pub fn is_stale(&self) -> (b: bool)
        ensures
            b == self.stale_flag(),
    {
        self.stale
    }

    /// The primary serving a slot, if the slot map knows it.
    pub fn slot_owner(&self, slot: u16) -> (r: Option<&String>)
        requires
            self.wf(),
        ensures
            match owner(self.slot_ranges(), slot) {
                Some(a) => r is Some && r->0@ == a,
                None => r is None,
            },
    {
        self.slots.resolve(slot)
    }

    /// Picks the first node for a request, see `selection`.
    pub fn select_with(&self, request: &Resp, pick: usize) -> (r: Option<String>)
        requires
            self.wf(),
        ensures
            match self.selection(*request, pick as nat) {
                Some(a) => r is Some && r->0@ == a,
                None => r is None,
            },
    {
        match key_of(request) {
            Some(k) => {
                let slot = hash_slot(k);
                match self.slots.resolve(slot) {
                    Some(a) => {
                        return Some(a.clone());
                    },
                    None => {},
                }
            },
            None => {},
        }
        if self.nodes.len() == 0 {
            None
        } else {
            let i = pick % self.nodes.len();
            assert(self.node_set()[i as int] == self.nodes@[i as int]@);
            Some(self.nodes[i].clone())
        }
    }

    /// Starts a request: sends it to the node that `select_with` picks. A
    /// key whose slot has no known owner marks the slot map out of date.
    /// Fails with `NotConnected` when no node is known.
    pub fn dispatch_with(&mut self, request: Resp, pick: usize) -> (r: Result<Pending, RouterError>)
        requires
            old(self).wf(),
        ensures
            final(self).wf(),
            final(self).node_set() == old(self).node_set(),
            final(self).slot_ranges() == old(self).slot_ranges(),
            final(self).refresh_in_flight() == old(self).refresh_in_flight(),
            final(self).stale_flag() == (old(self).stale_flag() || (request_key(request) is Some
                && old(self).routed(request) is None)),
            old(self).node_set().len() == 0 ==> r == Err::<Pending, RouterError>(
                RouterError::NotConnected,
            ),
            old(self).node_set().len() > 0 ==> r is Ok && r->Ok_0.request == request
                && r->Ok_0.attempts == 0 && r->Ok_0.hop == Hop::Direct && r->Ok_0.target@
                == old(self).selection(request, pick as nat)->0,
    {
        let target = self.select_with(&request, pick);
        let unresolved = match key_of(&request) {
            Some(k) => self.slots.resolve(hash_slot(k)).is_none(),
            None => false,
        };
        if unresolved {
            self.stale = true;
        }
        match target {
            Some(t) => Ok(Pending { request, attempts: 0, hop: Hop::Direct, target: t }),
            None => Err(RouterError::NotConnected),
        }
    }

    /// Starts a request as `dispatch_with` does, with a node drawn at
    /// random for a request whose key has no known owner.
    pub fn dispatch(&mut self, request: Resp) -> (r: Result<Pending, RouterError>)
        requires
            old(self).wf(),
        ensures
            final(self).wf(),
            final(self).node_set() == old(self).node_set(),
            final(self).slot_ranges() == old(self).slot_ranges(),
            final(self).refresh_in_flight() == old(self).refresh_in_flight(),
            final(self).stale_flag() == (old(self).stale_flag() || (request_key(request) is Some
                && old(self).routed(request) is None)),
            r is Err <==> old(self).node_set().len() == 0,
            r is Err ==> r->Err_0 == RouterError::NotConnected,
            r is Ok ==> r->Ok_0.request == request && r->Ok_0.attempts == 0 && r->Ok_0.hop
                == Hop::Direct && old(self).node_set().contains(r->Ok_0.target@),
            r is Ok && old(self).routed(request) is Some ==> r->Ok_0.target@ == old(
                self,
            ).routed(request)->0,
    {
        let n = self.nodes.len();
        let pick = if n == 0 {
            0
        } else {
            random_below(n)
        };
        proof {
            match request_key(request) {
                Some(k) => self.lemma_owner_known(key_slot(k)),
                None => {},
            }
            if n > 0 && self.routed(request) is None {
                assert(self.node_set().len() == n);
                let i = (pick as nat % n as nat) as int;
                assert(self.node_set().contains(self.node_set()[i]));
            }
        }
        self.dispatch_with(request, pick)
    }

    /// Decides what follows a node's reply to `pending`. A `MOVED` or `ASK`
    /// reply is followed to the node it names (added to the known nodes if
    /// new) while fewer than `MAX_ATTEMPTS` redirections were followed; a
    /// `MOVED` reply marks the slot map out of date, whether followed or
    /// not. Any other reply ends the request, as do connection failures.
    pub fn on_reply(&mut self, pending: Pending, reply: Result<Resp, NodeError>) -> (s: Step)
        requires
            old(self).wf(),
        ensures
            final(self).wf(),
            final(self).slot_ranges() == old(self).slot_ranges(),
            final(self).refresh_in_flight() == old(self).refresh_in_flight(),
            (s is Submit) == followed(pending.attempts as nat, reply),
            s is Submit ==> follows(pending, s->Submit_0),
            match reply {
                Err(NodeError::NotConnected) => s == Step::Done(
                    Err::<Resp, RouterError>(RouterError::NotConnected),
                ) && final(self).node_set() == old(self).node_set() && final(self).stale_flag()
                    == old(self).stale_flag(),
                Err(NodeError::Disconnected) => s == Step::Done(
                    Err::<Resp, RouterError>(RouterError::Disconnected),
                ) && final(self).node_set() == old(self).node_set() && final(self).stale_flag()
                    == old(self).stale_flag(),
                Ok(v) => match redirect_in(v) {
                    None => s == Step::Done(Ok::<Resp, RouterError>(v)) && final(self).node_set()
                        == old(self).node_set() && final(self).stale_flag()
                        == old(self).stale_flag(),
                    Some((kind, addr)) => {
                        &&& final(self).stale_flag() == (old(self).stale_flag() || kind
                            == RedirectKind::Moved)
                        &&& pending.attempts >= MAX_ATTEMPTS ==> s == Step::Done(
                            Ok::<Resp, RouterError>(v),
                        ) && final(self).node_set() == old(self).node_set()
                        &&& pending.attempts < MAX_ATTEMPTS ==> {
                            &&& s is Submit
                            &&& follows(pending, s->Submit_0)
                            &&& s->Submit_0.target@ == addr
                            &&& s->Submit_0.hop == (if kind == RedirectKind::Moved {
                                Hop::Moved
                            } else {
                                Hop::Asking
                            })
                            &&& final(self).node_set() == with_node(old(self).node_set(), addr)
                        }
                    },
                },
            },
    {
        let red = match &reply {
            Ok(Resp::Error(e)) => parse_redirect(e.as_str()),
            _ => None,
        };
        match reply {
            Err(NodeError::NotConnected) => Step::Done(Err(RouterError::NotConnected)),
            Err(NodeError::Disconnected) => Step::Done(Err(RouterError::Disconnected)),
            Ok(v) => match red {
                None => Step::Done(Ok(v)),
                Some(r) => {
                    let moved = match r.kind {
                        RedirectKind::Moved => true,
                        RedirectKind::Ask => false,
                    };
                    if moved {
                        self.stale = true;
                    }
                    if pending.attempts >= MAX_ATTEMPTS {
                        Step::Done(Ok(v))
                    } else {
                        self.add_node(r.address.as_str());
                        let hop = if moved {
                            Hop::Moved
                        } else {
                            Hop::Asking
                        };
                        Step::Submit(
                            Pending {
                                request: pending.request,
                                attempts: pending.attempts + 1,
                                hop,
                                target: r.address,
                            },
                        )
                    }
                },
            },
        }
    }

    /// Starts a topology refresh when the slot map is out of date, none is in
    /// flight and a node is known: returns the node (at `pick`, modulo their
    /// number) to send the topology query to.
    pub fn begin_refresh_with(&mut self, pick: usize) -> (r: Option<String>)
        requires
            old(self).wf(),
        ensures
            final(self).wf(),
            final(self).node_set() == old(self).node_set(),
            final(self).slot_ranges() == old(self).slot_ranges(),
            final(self).stale_flag() == old(self).stale_flag(),
            (r is Some) == (old(self).stale_flag() && !old(self).refresh_in_flight()
                && old(self).node_set().len() > 0),
            r is Some ==> final(self).refresh_in_flight() && r->0@ == old(self).node_set()[(pick as nat
                % old(self).node_set().len()) as int],
            r is None ==> final(self).refresh_in_flight() == old(self).refresh_in_flight(),
    {
        if !self.stale || self.refreshing || self.nodes.len() == 0 {
            return None;
        }
        let i = pick % self.nodes.len();
        self.refreshing = true;
        assert(self.node_set()[i as int] == self.nodes@[i as int]@);
        Some(self.nodes[i].clone())
    }

    /// Starts a topology refresh as `begin_refresh_with` does, at a node
    /// drawn at random.
    pub fn begin_refresh(&mut self) -> (r: Option<String>)
        requires
            old(self).wf(),
        ensures
            final(self).wf(),
            final(self).node_set() == old(self).node_set(),
            final(self).slot_ranges() == old(self).slot_ranges(),
            final(self).stale_flag() == old(self).stale_flag(),
            (r is Some) == (old(self).stale_flag() && !old(self).refresh_in_flight()
                && old(self).node_set().len() > 0),
            r is Some ==> final(self).refresh_in_flight() && old(self).node_set().contains(r->0@),
            r is None ==> final(self).refresh_in_flight() == old(self).refresh_in_flight(),
    {
        let n = self.nodes.len();
        let pick = if n == 0 {
            0
        } else {
            random_below(n)
        };
        let r = self.begin_refresh_with(pick);
        proof {
            if r is Some {
                let i = (pick as nat % n as nat) as int;
                assert(old(self).node_set().contains(old(self).node_set()[i]));
            }
        }
        r
    }

    /// Ends a topology refresh with the reply to the query. When the reply
    /// describes a slot map (see `slot_map_of`), it replaces the old one,
    /// its primaries join the known nodes, and the out-of-date mark is
    /// cleared; the addresses that were new are returned. Otherwise nothing
    /// but the in-flight mark changes.
    pub fn finish_refresh(&mut self, reply: Result<Resp, NodeError>) -> (added: Vec<String>)
        requires
            old(self).wf(),
        ensures
            final(self).wf(),
            !final(self).refresh_in_flight(),
            match reply {
                Ok(v) => match slot_map_of(v) {
                    Some(rows) => {
                        &&& final(self).slot_ranges() == rows
                        &&& !final(self).stale_flag()
                        &&& final(self).node_set() == old(self).node_set() + texts(added@)
                        &&& forall|a: Seq<char>|
                            texts(added@).contains(a) ==> !old(self).node_set().contains(a)
                        &&& forall|a: Seq<char>|
                            texts(added@).contains(a) ==> exists|k: int|
                                0 <= k < rows.len() && #[trigger] rows[k].2 == a
                    },
                    None => final(self).slot_ranges() == old(self).slot_ranges()
                        && final(self).stale_flag() == old(self).stale_flag()
                        && final(self).node_set() == old(self).node_set() && added@.len() == 0,
                },
                Err(_) => final(self).slot_ranges() == old(self).slot_ranges()
                    && final(self).stale_flag() == old(self).stale_flag() && final(self).node_set()
                    == old(self).node_set() && added@.len() == 0,
            },
    {
        self.refreshing = false;
        let mut added: Vec<String> = Vec::new();
        let m = match &reply {
            Ok(v) => SlotMap::from_reply(v),
            Err(_) => None,
        };
        let m = match m {
            Some(m) => m,
            None => {
                return added;
            },
        };
        let ghost base = self.node_set();
        let mut i: usize = 0;
        while i < m.len()
            invariant
                i <= m@.len(),
                no_duplicates(self.node_set()),
                ranges_well_formed(self.slot_ranges()),
                forall|k: int|
                    0 <= k < self.slot_ranges().len() ==> self.node_set().contains(
                        #[trigger] self.slot_ranges()[k].2,
                    ),
                self.node_set() == base + texts(added@),
                forall|a: Seq<char>| texts(added@).contains(a) ==> !base.contains(a),
                forall|a: Seq<char>|
                    texts(added@).contains(a) ==> exists|k: int| 0 <= k < i && #[trigger] m@[k].2 == a,
                m@ == slot_map_of(reply->Ok_0)->0,
                forall|k: int| 0 <= k < i ==> self.node_set().contains(#[trigger] m@[k].2),
                !self.refreshing,
            decreases m@.len() - i,
        {
            let a = m.primary(i);
            if !contains_text(&self.nodes, a.as_str()) {
                let ghost before = self.node_set();
                let ghost before_added = texts(added@);
                self.nodes.push(a.clone());
                added.push(a.clone());
                proof {
                    assert(self.node_set() =~= before.push(a@));
                    assert(texts(added@) =~= before_added.push(a@));
                    assert(self.node_set() =~= base + texts(added@));
                    assert forall|x: Seq<char>| texts(added@).contains(x) implies exists|k: int|
                        0 <= k < i + 1 && #[trigger] m@[k].2 == x by {
                        if x != a@ {
                            let k = choose|k: int| 0 <= k < texts(added@).len() && texts(added@)[k] == x;
                            assert(before_added[k] == x);
                            assert(before_added.contains(x));
                            let j = choose|j: int| 0 <= j < i && #[trigger] m@[j].2 == x;
                            assert(m@[j].2 == x);
                        } else {
                            assert(m@[i as int].2 == x);
                        }
                    }
                    assert forall|x: Seq<char>| texts(added@).contains(x) implies !base.contains(x) by {
                        if x != a@ {
                            let k = choose|k: int| 0 <= k < texts(added@).len() && texts(added@)[k] == x;
                            assert(before_added[k] == x);
                        } else {
                            if base.contains(x) {
                                let k = choose|k: int| 0 <= k < base.len() && base[k] == x;
                                assert(before[k] == x);
                            }
                        }
                    }
                    assert forall|k: int| 0 <= k < i + 1 implies self.node_set().contains(#[trigger] m@[k].2) by {
                        if k < i {
                            let j = choose|j: int| 0 <= j < before.len() && before[j] == m@[k].2;
                            assert(self.node_set()[j] == before[j]);
                        } else {
                            assert(self.node_set()[before.len() as int] == a@);
                        }
                    }
                    assert forall|k: int| 0 <= k < self.slot_ranges().len() implies self.node_set().contains(
                        #[trigger] self.slot_ranges()[k].2,
                    ) by {
                        let j = choose|j: int| 0 <= j < before.len() && before[j] == self.slot_ranges()[k].2;
                        assert(self.node_set()[j] == before[j]);
                    }
                    assert forall|x: int, y: int| 0 <= x < y < self.node_set().len() implies self.node_set()[x]
                        != self.node_set()[y] by {
                        if y == before.len() {
                            assert(self.node_set()[x] == before[x]);
                        }
                    }
                }
            }
            i = i + 1;
        }
        self.slots = m;
        self.stale = false;
        added
    }
}

/// The number of node sends for a request whose latest send has followed
/// `attempts` redirections and that then gets the node replies `replies`
/// in turn: each reply that `on_reply` follows leads to one more send.
pub open spec fn sends_from(attempts: nat, replies: Seq<Result<Resp, NodeError>>) -> nat
    decreases replies.len(),
{
    if replies.len() > 0 && followed(attempts, replies[0]) {
        1 + sends_from(attempts + 1, replies.drop_first())
    } else {
        1
    }
}

/// Whatever the nodes reply, a request started by `dispatch` (no
/// redirection followed yet) is sent to nodes at most `MAX_ATTEMPTS + 1`
/// times, counting an `ASKING` command with the request it goes before.
pub proof fn lemma_sends_bounded(replies: Seq<Result<Resp, NodeError>>)
    ensures
        sends_from(0, replies) <= MAX_ATTEMPTS + 1,
{
    lemma_sends_from_bound(0, replies);
}

proof fn lemma_sends_from_bound(attempts: nat, replies: Seq<Result<Resp, NodeError>>)
    requires
        attempts <= MAX_ATTEMPTS,
    ensures
        sends_from(attempts, replies) <= MAX_ATTEMPTS + 1 - attempts,
    decreases replies.len(),
{
    if replies.len() > 0 && followed(attempts, replies[0]) {
        lemma_sends_from_bound(attempts + 1, replies.drop_first());
    }
}

/// With the slot map and the node set fixed, a request whose key has a
/// known owner goes to that owner, whatever number the random pick drew.
pub proof fn lemma_selection_deterministic(r: Router, request: Resp, p1: nat, p2: nat)
    requires
        r.wf(),
        r.routed(request) is Some,
    ensures
        r.selection(request, p1) == r.selection(request, p2),
        r.selection(request, p1) == r.routed(request),
        r.node_set().contains(r.routed(request)->0),
{
    match request_key(request) {
        Some(k) => r.lemma_owner_known(key_slot(k)),
        None => {},
    }
}

} // verus!
