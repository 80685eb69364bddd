use vstd::prelude::*;
use vstd::slice::slice_to_vec;

use crate::handshake::{bytes_eq, Role};

verus! {

/// A session member as mathematical values.
pub struct MemberView {
    pub id: u64,
    pub role: Role,
    pub version: u64,
    /// Frames waiting to be written to this member, oldest first.
    pub outbox: Seq<Seq<u8>>,
}

/// A session as mathematical values.
pub struct SessionView {
    pub key: Seq<u8>,
    /// When the session was created, in seconds as the caller counts them.
    pub created_at: u64,
    /// The members, in the order in which they joined.
    pub members: Seq<MemberView>,
}

/// Whether some session in `ss` has the key `k`.
pub open spec fn has_key(ss: Seq<SessionView>, k: Seq<u8>) -> bool {
    exists|i: int| 0 <= i < ss.len() && #[trigger] ss[i].key == k
}

/// The position of the session with key `k`; meaningful when there is one.
pub open spec fn key_index(ss: Seq<SessionView>, k: Seq<u8>) -> int {
    choose|i: int| 0 <= i < ss.len() && #[trigger] ss[i].key == k
}

/// Whether a member of `ms` has the identifier `id`.
pub open spec fn has_member(ms: Seq<MemberView>, id: u64) -> bool {
    exists|a: int| 0 <= a < ms.len() && #[trigger] ms[a].id == id
}

/// The position of the member `id` in `ms`; meaningful when there is one.
pub open spec fn member_index(ms: Seq<MemberView>, id: u64) -> int {
    choose|a: int| 0 <= a < ms.len() && #[trigger] ms[a].id == id
}

/// Whether the client `id` belongs to some session of `ss`.
pub open spec fn holds(ss: Seq<SessionView>, id: u64) -> bool {
    exists|i: int| 0 <= i < ss.len() && #[trigger] has_member(ss[i].members, id)
}

/// No two sessions share a key.
pub open spec fn keys_unique(ss: Seq<SessionView>) -> bool {
    forall|i: int, j: int|
        0 <= i < ss.len() && 0 <= j < ss.len() && i != j ==> #[trigger] ss[i].key != #[trigger] ss[j].key
}

/// No two members of `ms` share an identifier.
pub open spec fn members_unique(ms: Seq<MemberView>) -> bool {
    forall|a: int, b: int|
        0 <= a < ms.len() && 0 <= b < ms.len() && a != b ==> #[trigger] ms[a].id != #[trigger] ms[b].id
}

/// A client belongs to at most one session, and to it at most once.
pub open spec fn ids_unique(ss: Seq<SessionView>) -> bool {
    &&& forall|i: int| 0 <= i < ss.len() ==> #[trigger] members_unique(ss[i].members)
    &&& forall|i: int, j: int, id: u64|
        0 <= i < ss.len() && 0 <= j < ss.len() && i != j && #[trigger] has_member(ss[i].members, id)
            ==> !#[trigger] has_member(ss[j].members, id)
}

/// Every session that can be reached has at least one member.
pub open spec fn no_empty(ss: Seq<SessionView>) -> bool {
    forall|i: int| 0 <= i < ss.len() ==> #[trigger] ss[i].members.len() > 0
}

/// The registry's invariant.
pub open spec fn wf_sessions(ss: Seq<SessionView>) -> bool {
    &&& keys_unique(ss)
    &&& ids_unique(ss)
    &&& no_empty(ss)
}

/// The members of the session with key `k`, none if there is no such session.
pub open spec fn session_members(ss: Seq<SessionView>, k: Seq<u8>) -> Seq<MemberView> {
    if has_key(ss, k) {
        ss[key_index(ss, k)].members
    } else {
        Seq::empty()
    }
}

/// The frames waiting for member `id` of session `k`.
pub open spec fn outbox_of(ss: Seq<SessionView>, k: Seq<u8>, id: u64) -> Seq<Seq<u8>> {
    let ms = session_members(ss, k);
    if has_member(ms, id) {
        ms[member_index(ms, id)].outbox
    } else {
        Seq::empty()
    }
}

/// A newly joined member with nothing queued.
pub open spec fn fresh_member(id: u64, role: Role, version: u64) -> MemberView {
    MemberView { id, role, version, outbox: Seq::empty() }
}

/// `ss` after `m` joined the session `k` at time `now`; the session is
/// created if absent.
pub open spec fn joined(ss: Seq<SessionView>, k: Seq<u8>, m: MemberView, now: u64) -> Seq<SessionView> {
    if has_key(ss, k) {
        let i = key_index(ss, k);
        ss.update(i, SessionView { members: ss[i].members.push(m), ..ss[i] })
    } else {
        ss.push(SessionView { key: k, created_at: now, members: seq![m] })
    }
}

/// `ss` after client `id` left the session `k`; a session left empty is removed.
pub open spec fn left(ss: Seq<SessionView>, k: Seq<u8>, id: u64) -> Seq<SessionView> {
    if has_key(ss, k) && has_member(ss[key_index(ss, k)].members, id) {
        let i = key_index(ss, k);
        let ms = ss[i].members.remove(member_index(ss[i].members, id));
        if ms.len() == 0 {
            ss.remove(i)
        } else {
            ss.update(i, SessionView { members: ms, ..ss[i] })
        }
    } else {
        ss
    }
}

/// Member `m` after `sender` broadcast `f` to its session: every member but the
/// sender whose outbox has room gets `f` at its end.
pub open spec fn delivered(m: MemberView, sender: u64, f: Seq<u8>, cap: nat) -> MemberView {
    if m.id != sender && m.outbox.len() < cap {
        MemberView { outbox: m.outbox.push(f), ..m }
    } else {
        m
    }
}

/// How many members of `ms` miss a frame from `sender` because their outbox is full.
pub open spec fn missed(ms: Seq<MemberView>, sender: u64, cap: nat) -> nat
    decreases ms.len(),
{
    if ms.len() == 0 {
        0
    } else {
        missed(ms.drop_last(), sender, cap) + if ms.last().id != sender && ms.last().outbox.len() >= cap {
            1nat
        } else {
            0nat
        }
    }
}

/// `ss` after `sender` broadcast `f` in the session `k`.
pub open spec fn relayed(ss: Seq<SessionView>, k: Seq<u8>, sender: u64, f: Seq<u8>, cap: nat) -> Seq<SessionView> {
    if has_key(ss, k) {
        let i = key_index(ss, k);
        ss.update(
            i,
            SessionView { members: ss[i].members.map_values(|m: MemberView| delivered(m, sender, f, cap)), ..ss[i] },
        )
    } else {
        ss
    }
}

/// `ss` after the outbox of member `id` of session `k` was emptied.
pub open spec fn drained(ss: Seq<SessionView>, k: Seq<u8>, id: u64) -> Seq<SessionView> {
    if has_key(ss, k) && has_member(ss[key_index(ss, k)].members, id) {
        let i = key_index(ss, k);
        let ms = ss[i].members;
        let a = member_index(ms, id);
        ss.update(i, SessionView { members: ms.update(a, MemberView { outbox: Seq::empty(), ..ms[a] }), ..ss[i] })
    } else {
        ss
    }
}

/// With unique keys, the session found by key is the one at its position.
pub proof fn lemma_key_index(ss: Seq<SessionView>, k: Seq<u8>, i: int)
    requires
        keys_unique(ss),
        0 <= i < ss.len(),
        ss[i].key == k,
    ensures
        has_key(ss, k),
        key_index(ss, k) == i,
{
    assert(has_key(ss, k));
    let j = key_index(ss, k);
    if j != i {
        assert(ss[i].key != ss[j].key);
    }
}

/// With unique identifiers, the member found by identifier is the one at its position.
pub proof fn lemma_member_index(ms: Seq<MemberView>, id: u64, a: int)
    requires
        members_unique(ms),
        0 <= a < ms.len(),
        ms[a].id == id,
    ensures
        has_member(ms, id),
        member_index(ms, id) == a,
{
    assert(has_member(ms, id));
    let b = member_index(ms, id);
    if b != a {
        assert(ms[a].id != ms[b].id);
    }
}

/// Appending a member adds exactly its identifier.
pub proof fn lemma_has_member_push(ms: Seq<MemberView>, m: MemberView, id: u64)
    ensures
        has_member(ms.push(m), id) <==> (has_member(ms, id) || m.id == id),
{
    if has_member(ms, id) {
        let a = member_index(ms, id);
        assert(ms.push(m)[a].id == id);
    }
    if m.id == id {
        assert(ms.push(m)[ms.len() as int].id == id);
    }
    if has_member(ms.push(m), id) {
        let a = member_index(ms.push(m), id);
        if a < ms.len() {
            assert(ms[a].id == id);
        }
    }
}

/// Removing a member takes away exactly its identifier.
pub proof fn lemma_has_member_remove(ms: Seq<MemberView>, a: int, id: u64)
    requires
        members_unique(ms),
        0 <= a < ms.len(),
    ensures
        has_member(ms.remove(a), id) <==> (has_member(ms, id) && ms[a].id != id),
        members_unique(ms.remove(a)),
{
    let rs = ms.remove(a);
    if has_member(rs, id) {
        let b = member_index(rs, id);
        if b < a {
            assert(ms[b].id == id);
            assert(ms[b].id != ms[a].id);
        } else {
            assert(ms[b + 1].id == id);
            assert(ms[b + 1].id != ms[a].id);
        }
    }
    if has_member(ms, id) && ms[a].id != id {
        let b = member_index(ms, id);
        if b < a {
            assert(rs[b].id == id);
        } else {
            assert(rs[b - 1].id == id);
        }
    }
    assert forall|x: int, y: int| 0 <= x < rs.len() && 0 <= y < rs.len() && x != y implies #[trigger] rs[x].id
        != #[trigger] rs[y].id by {
        let x0 = if x < a { x } else { x + 1 };
        let y0 = if y < a { y } else { y + 1 };
        assert(rs[x] == ms[x0] && rs[y] == ms[y0]);
    }
}

/// Joining a client that belongs to no session keeps the invariant.
pub proof fn lemma_joined_wf(ss: Seq<SessionView>, k: Seq<u8>, m: MemberView, now: u64)
    requires
        wf_sessions(ss),
        !holds(ss, m.id),
    ensures
        wf_sessions(joined(ss, k, m, now)),
{
    let r = joined(ss, k, m, now);
    if has_key(ss, k) {
        let i = key_index(ss, k);
        let ms = ss[i].members;
        assert(!has_member(ms, m.id));
        assert(members_unique(ms));
        assert forall|a: int, b: int|
            0 <= a < ms.push(m).len() && 0 <= b < ms.push(m).len() && a != b implies #[trigger] ms.push(m)[a].id
            != #[trigger] ms.push(m)[b].id by {
            if a == ms.len() {
                assert(ms.push(m)[b] == ms[b]);
            } else if b == ms.len() {
                assert(ms.push(m)[a] == ms[a]);
            }
        }
        assert forall|x: int, y: int, id: u64|
            0 <= x < r.len() && 0 <= y < r.len() && x != y && #[trigger] has_member(r[x].members, id) implies !#[trigger] has_member(r[y].members, id) by {
            lemma_has_member_push(ms, m, id);
            if x == i {
                if id == m.id {
                    assert(!has_member(ss[y].members, id));
                }
            } else if y == i {
                if id == m.id {
                    assert(!has_member(ss[x].members, id));
                }
            }
        }
    } else {
        let n = ss.len() as int;
        assert forall|x: int, y: int| 0 <= x < r.len() && 0 <= y < r.len() && x != y implies #[trigger] r[x].key
            != #[trigger] r[y].key by {
            if x == n {
                assert(ss[y].key != k);
            } else if y == n {
                assert(ss[x].key != k);
            }
        }
        assert(members_unique(r[n].members));
        assert forall|x: int, y: int, id: u64|
            0 <= x < r.len() && 0 <= y < r.len() && x != y && #[trigger] has_member(r[x].members, id) implies !#[trigger] has_member(r[y].members, id) by {
            if x == n {
                let a = member_index(r[x].members, id);
                assert(id == m.id);
                assert(!has_member(ss[y].members, id));
            } else if y == n {
                if has_member(r[y].members, id) {
                    let a = member_index(r[y].members, id);
                    assert(id == m.id);
                    assert(!has_member(ss[x].members, id));
                }
            }
        }
    }
}

/// Leaving keeps the invariant.
pub proof fn lemma_left_wf(ss: Seq<SessionView>, k: Seq<u8>, id: u64)
    requires
        wf_sessions(ss),
    ensures
        wf_sessions(left(ss, k, id)),
{
    let r = left(ss, k, id);
    if has_key(ss, k) && has_member(ss[key_index(ss, k)].members, id) {
        let i = key_index(ss, k);
        let ms = ss[i].members;
        let a = member_index(ms, id);
        let rs = ms.remove(a);
        assert(members_unique(ms));
        assert forall|x: u64| true implies (has_member(rs, x) <==> (has_member(ms, x) && ms[a].id != x)) by {
            lemma_has_member_remove(ms, a, x);
        }
        lemma_has_member_remove(ms, a, id);
        if rs.len() == 0 {
            assert forall|x: int, y: int| 0 <= x < r.len() && 0 <= y < r.len() && x != y implies #[trigger] r[x].key
                != #[trigger] r[y].key by {
                let x0 = if x < i { x } else { x + 1 };
                let y0 = if y < i { y } else { y + 1 };
                assert(r[x] == ss[x0] && r[y] == ss[y0]);
            }
            assert forall|x: int| 0 <= x < r.len() implies #[trigger] members_unique(r[x].members) by {
                let x0 = if x < i { x } else { x + 1 };
                assert(r[x] == ss[x0]);
            }
            assert forall|x: int, y: int, z: u64|
                0 <= x < r.len() && 0 <= y < r.len() && x != y && #[trigger] has_member(r[x].members, z) implies !#[trigger] has_member(r[y].members, z) by {
                let x0 = if x < i { x } else { x + 1 };
                let y0 = if y < i { y } else { y + 1 };
                assert(r[x] == ss[x0] && r[y] == ss[y0]);
            }
            assert forall|x: int| 0 <= x < r.len() implies #[trigger] r[x].members.len() > 0 by {
                let x0 = if x < i { x } else { x + 1 };
                assert(r[x] == ss[x0]);
            }
        } else {
            assert(members_unique(r[i].members));
            assert forall|x: int, y: int, z: u64|
                0 <= x < r.len() && 0 <= y < r.len() && x != y && #[trigger] has_member(r[x].members, z) implies !#[trigger] has_member(r[y].members, z) by {
                if x == i {
                    assert(has_member(ss[x].members, z));
                } else if y == i {
                    assert(has_member(ss[x].members, z));
                }
            }
        }
    }
}

/// A broadcast changes no member's identifier.
pub proof fn lemma_has_member_map(ms: Seq<MemberView>, sender: u64, f: Seq<u8>, cap: nat, id: u64)
    ensures
        has_member(ms.map_values(|m: MemberView| delivered(m, sender, f, cap)), id) <==> has_member(ms, id),
        members_unique(ms) ==> members_unique(ms.map_values(|m: MemberView| delivered(m, sender, f, cap))),
{
    let rs = ms.map_values(|m: MemberView| delivered(m, sender, f, cap));
    if has_member(ms, id) {
        let a = member_index(ms, id);
        assert(rs[a].id == id);
    }
    if has_member(rs, id) {
        let a = member_index(rs, id);
        assert(ms[a].id == id);
    }
    if members_unique(ms) {
        assert forall|x: int, y: int| 0 <= x < rs.len() && 0 <= y < rs.len() && x != y implies #[trigger] rs[x].id
            != #[trigger] rs[y].id by {
            assert(rs[x].id == ms[x].id && rs[y].id == ms[y].id);
        }
    }
}

/// A broadcast keeps the invariant.
pub proof fn lemma_relayed_wf(ss: Seq<SessionView>, k: Seq<u8>, sender: u64, f: Seq<u8>, cap: nat)
    requires
        wf_sessions(ss),
    ensures
        wf_sessions(relayed(ss, k, sender, f, cap)),
{
    let r = relayed(ss, k, sender, f, cap);
    if has_key(ss, k) {
        let i = key_index(ss, k);
        let ms = ss[i].members;
        assert forall|z: u64| true implies (has_member(r[i].members, z) <==> has_member(ms, z)) by {
            lemma_has_member_map(ms, sender, f, cap, z);
        }
        lemma_has_member_map(ms, sender, f, cap, 0);
        assert forall|x: int, y: int, z: u64|
            0 <= x < r.len() && 0 <= y < r.len() && x != y && #[trigger] has_member(r[x].members, z) implies !#[trigger] has_member(r[y].members, z) by {
            assert(has_member(ss[x].members, z));
            assert(!has_member(ss[y].members, z));
        }
    }
}

/// Emptying an outbox keeps the invariant.
pub proof fn lemma_drained_wf(ss: Seq<SessionView>, k: Seq<u8>, id: u64)
    requires
        wf_sessions(ss),
    ensures
        wf_sessions(drained(ss, k, id)),
{
    let r = drained(ss, k, id);
    if has_key(ss, k) && has_member(ss[key_index(ss, k)].members, id) {
        let i = key_index(ss, k);
        let ms = ss[i].members;
        let a = member_index(ms, id);
        let rs = r[i].members;
        assert(members_unique(ms));
        assert forall|z: u64| true implies (has_member(rs, z) <==> has_member(ms, z)) by {
            if has_member(ms, z) {
                let b = member_index(ms, z);
                assert(rs[b].id == z);
            }
            if has_member(rs, z) {
                let b = member_index(rs, z);
                assert(ms[b].id == z);
            }
        }
        assert forall|x: int, y: int| 0 <= x < rs.len() && 0 <= y < rs.len() && x != y implies #[trigger] rs[x].id
            != #[trigger] rs[y].id by {
            assert(rs[x].id == ms[x].id && rs[y].id == ms[y].id);
        }
        assert forall|x: int, y: int, z: u64|
            0 <= x < r.len() && 0 <= y < r.len() && x != y && #[trigger] has_member(r[x].members, z) implies !#[trigger] has_member(r[y].members, z) by {
            assert(has_member(ss[x].members, z));
            assert(!has_member(ss[y].members, z));
        }
    }
}

/// A client connected to the relay, as a session holds it.
pub struct Member {
    id: u64,
    role: Role,
    version: u64,
    outbox: Vec<Vec<u8>>,
}

impl View for Member {
    type V = MemberView;

    closed spec fn view(&self) -> MemberView {
        MemberView {
            id: self.id,
            role: self.role,
            version: self.version,
            outbox: self.outbox@.map_values(|f: Vec<u8>| f@),
        }
    }
}

impl Member {
    /// Queues `frame` for this member unless it is the sender or its outbox is full.
    fn offer(&mut self, sender: u64, frame: &[u8], cap: usize)
        ensures
            final(self)@ == delivered(old(self)@, sender, frame@, cap as nat),
    {
        if self.id != sender && self.outbox.len() < cap {
            self.outbox.push(slice_to_vec(frame));
            proof {
                assert(self@.outbox =~= old(self)@.outbox.push(frame@));
            }
        }
    }

    /// Hands out the queued frames, oldest first, and empties the outbox.
    fn take(&mut self) -> (r: Vec<Vec<u8>>)
        ensures
            r@.map_values(|f: Vec<u8>| f@) == old(self)@.outbox,
            final(self)@ == (MemberView { outbox: Seq::empty(), ..old(self)@ }),
    {
        let mut out: Vec<Vec<u8>> = Vec::new();
        core::mem::swap(&mut out, &mut self.outbox);
        proof {
            assert(self@.outbox =~= Seq::<Seq<u8>>::empty());
        }
        out
    }
}

/// The clients joined under one key.
pub struct Session {
    key: Vec<u8>,
    created_at: u64,
    members: Vec<Member>,
}

impl View for Session {
    type V = SessionView;

    closed spec fn view(&self) -> SessionView {
        SessionView { key: self.key@, created_at: self.created_at, members: self.members@.map_values(|m: Member| m@) }
    }
}

impl Session {
    /// The position of member `id`.
    fn find_member(&self, id: u64) -> (r: Option<usize>)
        requires
            members_unique(self@.members),
        ensures
            r is None <==> !has_member(self@.members, id),
            r is Some ==> r->Some_0 < self@.members.len() && self@.members[r->Some_0 as int].id == id
                && member_index(self@.members, id) == r->Some_0,
    {
        let mut a: usize = 0;
        while a < self.members.len()
            invariant
                a <= self@.members.len(),
                self@.members.len() == self.members@.len(),
                members_unique(self@.members),
                forall|b: int| 0 <= b < a ==> self@.members[b].id != id,
            decreases self.members@.len() - a,
        {
            proof {
                assert(self@.members[a as int] == self.members@[a as int]@);
            }
            if self.members[a].id == id {
                proof {
                    lemma_member_index(self@.members, id, a as int);
                }
                return Some(a);
            }
            a = a + 1;
        }
        None
    }

    /// Offers `frame` to every member but `sender`; returns how many missed it.
    fn broadcast(&mut self, sender: u64, frame: &[u8], cap: usize) -> (r: usize)
        ensures
            r == missed(old(self)@.members, sender, cap as nat),
            final(self)@ == (SessionView {
                members: old(self)@.members.map_values(|m: MemberView| delivered(m, sender, frame@, cap as nat)),
                ..old(self)@
            }),
    {
        let n = self.members.len();
        let mut a: usize = 0;
        let mut count: usize = 0;
        while a < n
            invariant
                n == self.members@.len(),
                n == old(self).members@.len(),
                a <= n,
                count <= a,
                count == missed(old(self)@.members.subrange(0, a as int), sender, cap as nat),
                self.key == old(self).key,
                self.created_at == old(self).created_at,
                forall|b: int| 0 <= b < a ==> #[trigger] self.members@[b]@ == delivered(old(self).members@[b]@, sender, frame@, cap as nat),
                forall|b: int| a <= b < n ==> #[trigger] self.members@[b] == old(self).members@[b],
            decreases n - a,
        {
            proof {
                assert(old(self)@.members[a as int] == self.members@[a as int]@);
                assert(old(self)@.members.subrange(0, a + 1).drop_last() =~= old(self)@.members.subrange(0, a as int));
            }
            if self.members[a].id != sender && self.members[a].outbox.len() >= cap {
                count = count + 1;
            }
            self.members[a].offer(sender, frame, cap);
            a = a + 1;
        }
        proof {
            assert(self@.members =~= old(self)@.members.map_values(|m: MemberView| delivered(m, sender, frame@, cap as nat)));
            assert(old(self)@.members.subrange(0, n as int) =~= old(self)@.members);
        }
        count
    }

    /// Hands out the frames queued for the member at position `a`.
    fn take_outbox(&mut self, a: usize) -> (r: Vec<Vec<u8>>)
        requires
            a < old(self)@.members.len(),
        ensures
            r@.map_values(|f: Vec<u8>| f@) == old(self)@.members[a as int].outbox,
            final(self)@ == (SessionView {
                members: old(self)@.members.update(a as int, MemberView { outbox: Seq::empty(), ..old(self)@.members[a as int] }),
                ..old(self)@
            }),
    {
        proof {
            assert(old(self)@.members[a as int] == old(self).members@[a as int]@);
        }
        let r = self.members[a].take();
        proof {
            assert(self@.members =~= old(self)@.members.update(a as int, MemberView { outbox: Seq::empty(), ..old(self)@.members[a as int] }));
        }
        r
    }
}

/// The process-wide table of sessions, keyed by session key.
pub struct Registry {
    sessions: Vec<Session>,
    queue_capacity: usize,
}

impl View for Registry {
    type V = Seq<SessionView>;

    closed spec fn view(&self) -> Seq<SessionView> {
        self.sessions@.map_values(|s: Session| s@)
    }
}

impl Registry {
    /// The registry's invariant holds.
    pub closed spec fn wf(&self) -> bool {
        wf_sessions(self@)
    }

    /// How many frames a member's outbox holds at most.
    pub closed spec fn capacity(&self) -> nat {
        self.queue_capacity as nat
    }

    /// The registry's invariant, stated over its view.
    pub proof fn lemma_wf(&self)
        requires
            self.wf(),
        ensures
            wf_sessions(self@),
    {
    }

    /// An empty registry whose members' outboxes hold at most `queue_capacity` frames.
    pub fn new(queue_capacity: usize) -> (r: Registry)
        ensures
            r.wf(),
            r@ == Seq::<SessionView>::empty(),
            r.capacity() == queue_capacity,
    {
        let r = Registry { sessions: Vec::new(), queue_capacity };
        proof {
            assert(r@ =~= Seq::<SessionView>::empty());
        }
        r
    }

    /// The capacity of each member's outbox.
    pub fn queue_capacity(&self) -> (r: usize)
        ensures
            r == self.capacity(),
    {
        self.queue_capacity
    }

    /// The number of live sessions.
    pub fn session_count(&self) -> (r: usize)
        ensures
            r == self@.len(),
    {
        self.sessions.len()
    }

    /// The position of the session with key `k`.
    fn find_session(&self, k: &[u8]) -> (r: Option<usize>)
        requires
            self.wf(),
        ensures
            r is None <==> !has_key(self@, k@),
            r is Some ==> r->Some_0 < self@.len() && self@[r->Some_0 as int].key == k@ && key_index(self@, k@)
                == r->Some_0,
    {
        let mut i: usize = 0;
        while i < self.sessions.len()
            invariant
                i <= self@.len(),
                self@.len() == self.sessions@.len(),
                wf_sessions(self@),
                forall|j: int| 0 <= j < i ==> self@[j].key != k@,
            decreases self.sessions@.len() - i,
        {
            proof {
                assert(self@[i as int] == self.sessions@[i as int]@);
            }
            if bytes_eq(self.sessions[i].key.as_slice(), k) {
                proof {
                    lemma_key_index(self@, k@, i as int);
                }
                return Some(i);
            }
            i = i + 1;
        }
        None
    }

    /// Whether client `id` belongs to some session.
    fn holds_id(&self, id: u64) -> (r: bool)
        requires
            self.wf(),
        ensures
            r == holds(self@, id),
    {
        let mut i: usize = 0;
        while i < self.sessions.len()
            invariant
                i <= self@.len(),
                self@.len() == self.sessions@.len(),
                wf_sessions(self@),
                forall|j: int| 0 <= j < i ==> !has_member(#[trigger] self@[j].members, id),
            decreases self.sessions@.len() - i,
        {
            proof {
                assert(self@[i as int] == self.sessions@[i as int]@);
                assert(members_unique(self@[i as int].members));
            }
            if self.sessions[i].find_member(id).is_some() {
                return true;
            }
            i = i + 1;
        }
        false
    }

    /// Whether a session with key `k` is live.
    pub fn contains_key(&self, k: &[u8]) -> (r: bool)
        requires
            self.wf(),
        ensures
            r == has_key(self@, k@),
    {
        self.find_session(k).is_some()
    }

    /// Adds client `id` to the session `key`, creating the session if it is
    /// new. A client already in some session is refused, and nothing changes.
    pub fn join(&mut self, key: &[u8], id: u64, role: Role, version: u64, now: u64) -> (r: bool)
        requires
            old(self).wf(),
        ensures
            final(self).wf(),
            final(self).capacity() == old(self).capacity(),
            r == !holds(old(self)@, id),
            final(self)@ == if r {
                joined(old(self)@, key@, fresh_member(id, role, version), now)
            } else {
                old(self)@
            },
    {
        if self.holds_id(id) {
            return false;
        }
        let m = Member { id, role, version, outbox: Vec::new() };
        proof {
            assert(m@.outbox =~= Seq::<Seq<u8>>::empty());
            lemma_joined_wf(old(self)@, key@, m@, now);
        }
        match self.find_session(key) {
            Some(i) => {
                proof {
                    assert(old(self)@[i as int] == old(self).sessions@[i as int]@);
                }
                self.sessions[i].members.push(m);
                proof {
                    assert(self.sessions@[i as int]@.members =~= old(self)@[i as int].members.push(m@));
                    assert(self@ =~= joined(old(self)@, key@, m@, now));
                }
            },
            None => {
                let mut members: Vec<Member> = Vec::new();
                members.push(m);
                let s = Session { key: slice_to_vec(key), created_at: now, members };
                proof {
                    assert(s@.members =~= seq![m@]);
                }
                self.sessions.push(s);
                proof {
                    assert(self@ =~= joined(old(self)@, key@, m@, now));
                }
            },
        }
        true
    }

    /// Removes client `id` from the session `key`; a session left without
    /// members is removed with it. Returns whether the client was there.
    pub fn leave(&mut self, key: &[u8], id: u64) -> (r: bool)
        requires
            old(self).wf(),
        ensures
            final(self).wf(),
            final(self).capacity() == old(self).capacity(),
            r == has_member(session_members(old(self)@, key@), id),
            final(self)@ == left(old(self)@, key@, id),
    {
        proof {
            lemma_left_wf(old(self)@, key@, id);
        }
        let i = match self.find_session(key) {
            Some(i) => i,
            None => {
                return false;
            },
        };
        proof {
            assert(old(self)@[i as int] == old(self).sessions@[i as int]@);
            assert(members_unique(old(self)@[i as int].members));
        }
        let a = match self.sessions[i].find_member(id) {
            Some(a) => a,
            None => {
                return false;
            },
        };
        self.sessions[i].members.remove(a);
        proof {
            assert(self.sessions@[i as int]@.members =~= old(self)@[i as int].members.remove(a as int));
        }
        if self.sessions[i].members.len() == 0 {
            self.sessions.remove(i);
            proof {
                assert(self@ =~= left(old(self)@, key@, id));
            }
        } else {
            proof {
                assert(self@ =~= left(old(self)@, key@, id));
            }
        }
        true
    }

    /// Queues `frame` for every member of the session `key` but `sender`.
    /// A member whose outbox is full misses the frame; the others still get
    /// it. Returns how many members missed it.
    pub fn broadcast(&mut self, key: &[u8], sender: u64, frame: &[u8]) -> (r: usize)
        requires
            old(self).wf(),
        ensures
            r == missed(session_members(old(self)@, key@), sender, old(self).capacity()),
            final(self).wf(),
            final(self).capacity() == old(self).capacity(),
            final(self)@ == relayed(old(self)@, key@, sender, frame@, old(self).capacity()),
    {
        proof {
            lemma_relayed_wf(old(self)@, key@, sender, frame@, old(self).capacity());
        }
        match self.find_session(key) {
            Some(i) => {
                proof {
                    assert(old(self)@[i as int] == old(self).sessions@[i as int]@);
                }
                let cap = self.queue_capacity;
                let n = self.sessions[i].broadcast(sender, frame, cap);
                proof {
                    assert(self@ =~= relayed(old(self)@, key@, sender, frame@, old(self).capacity()));
                }
                n
            },
            None => 0,
        }
    }

    /// Hands out the frames queued for member `id` of session `key`, oldest
    /// first, and empties that outbox.
    pub fn take_outbox(&mut self, key: &[u8], id: u64) -> (r: Vec<Vec<u8>>)
        requires
            old(self).wf(),
        ensures
            final(self).wf(),
            final(self).capacity() == old(self).capacity(),
            r@.map_values(|f: Vec<u8>| f@) == outbox_of(old(self)@, key@, id),
            final(self)@ == drained(old(self)@, key@, id),
    {
        proof {
            lemma_drained_wf(old(self)@, key@, id);
        }
        let i = match self.find_session(key) {
            Some(i) => i,
            None => {
                let r: Vec<Vec<u8>> = Vec::new();
                proof {
                    assert(r@.map_values(|f: Vec<u8>| f@) =~= Seq::<Seq<u8>>::empty());
                }
                return r;
            },
        };
        proof {
            assert(old(self)@[i as int] == old(self).sessions@[i as int]@);
            assert(members_unique(old(self)@[i as int].members));
        }
        let a = match self.sessions[i].find_member(id) {
            Some(a) => a,
            None => {
                let r: Vec<Vec<u8>> = Vec::new();
                proof {
                    assert(r@.map_values(|f: Vec<u8>| f@) =~= Seq::<Seq<u8>>::empty());
                }
                return r;
            },
        };
        let r = self.sessions[i].take_outbox(a);
        proof {
            assert(self@ =~= drained(old(self)@, key@, id));
        }
        r
    }

    /// The identifiers of the members of session `key`, in the order they joined.
    pub fn member_ids(&self, key: &[u8]) -> (r: Vec<u64>)
        requires
            self.wf(),
        ensures
            r@ == session_members(self@, key@).map_values(|m: MemberView| m.id),
    {
        let mut r: Vec<u64> = Vec::new();
        match self.find_session(key) {
            Some(i) => {
                proof {
                    assert(self@[i as int] == self.sessions@[i as int]@);
                }
                let ms = &self.sessions[i].members;
                let mut a: usize = 0;
                while a < ms.len()
                    invariant
                        a <= ms@.len(),
                        ms@.map_values(|m: Member| m@) == session_members(self@, key@),
                        r@ == ms@.subrange(0, a as int).map_values(|m: Member| m.id),
                    decreases ms@.len() - a,
                {
                    r.push(ms[a].id);
                    a = a + 1;
                    proof {
                        assert(ms@.subrange(0, a as int).map_values(|m: Member| m.id) =~= ms@.subrange(0, a - 1).map_values(|m: Member| m.id).push(ms@[a - 1].id));
                    }
                }
                proof {
                    assert(ms@.subrange(0, ms@.len() as int) =~= ms@);
                    assert(r@ =~= session_members(self@, key@).map_values(|m: MemberView| m.id));
                }
            },
            None => {
                proof {
                    assert(r@ =~= session_members(self@, key@).map_values(|m: MemberView| m.id));
                }
            },
        }
        r
    }

    /// When the session `key` was created, if it is live.
    pub fn created_at(&self, key: &[u8]) -> (r: Option<u64>)
        requires
            self.wf(),
        ensures
            r == if has_key(self@, key@) {
                Some(self@[key_index(self@, key@)].created_at)
            } else {
                None::<u64>
            },
    {
        match self.find_session(key) {
            Some(i) => {
                proof {
                    assert(self@[i as int] == self.sessions@[i as int]@);
                }
                Some(self.sessions[i].created_at)
            },
            None => None,
        }
    }

    /// The number of members of session `key`, zero if it is not live.
    pub fn member_count(&self, key: &[u8]) -> (r: usize)
        requires
            self.wf(),
        ensures
            r == session_members(self@, key@).len(),
    {
        match self.find_session(key) {
            Some(i) => {
                proof {
                    assert(self@[i as int] == self.sessions@[i as int]@);
                }
                self.sessions[i].members.len()
            },
            None => 0,
        }
    }
}

} // verus!
