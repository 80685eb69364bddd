use vstd::prelude::*;

use crate::registry::{
    delivered, drained, has_key, has_member, holds, joined, key_index, lemma_joined_wf,
    lemma_drained_wf, lemma_key_index, lemma_left_wf, lemma_member_index, lemma_relayed_wf, lemma_has_member_map,
    lemma_has_member_push, left, member_index, members_unique, outbox_of, relayed, session_members,
    wf_sessions, MemberView, SessionView,
};

verus! {

/// Joining adds exactly one client to the set of clients held.
pub proof fn lemma_holds_joined(ss: Seq<SessionView>, k: Seq<u8>, m: MemberView, now: u64, id: u64)
    requires
        wf_sessions(ss),
    ensures
        holds(joined(ss, k, m, now), id) <==> (holds(ss, id) || m.id == id),
{
    let r = joined(ss, k, m, now);
    if has_key(ss, k) {
        let i = key_index(ss, k);
        lemma_has_member_push(ss[i].members, m, id);
        if holds(ss, id) {
            let j = choose|j: int| 0 <= j < ss.len() && #[trigger] has_member(ss[j].members, id);
            assert(has_member(r[j].members, id));
        }
        if m.id == id {
            assert(has_member(r[i].members, id));
        }
        if holds(r, id) {
            let j = choose|j: int| 0 <= j < r.len() && #[trigger] has_member(r[j].members, id);
            if j != i {
                assert(has_member(ss[j].members, id));
            }
        }
    } else {
        let n = ss.len() as int;
        lemma_has_member_push(Seq::empty(), m, id);
        assert(seq![m] =~= Seq::<MemberView>::empty().push(m));
        if holds(ss, id) {
            let j = choose|j: int| 0 <= j < ss.len() && #[trigger] has_member(ss[j].members, id);
            assert(has_member(r[j].members, id));
        }
        if m.id == id {
            assert(has_member(r[n].members, id));
        }
        if holds(r, id) {
            let j = choose|j: int| 0 <= j < r.len() && #[trigger] has_member(r[j].members, id);
            if j != n {
                assert(has_member(ss[j].members, id));
            }
        }
    }
}

/// Joining appends the client to the members of its session and changes no
/// other session's members.
pub proof fn lemma_joined_members(ss: Seq<SessionView>, k: Seq<u8>, m: MemberView, now: u64, k2: Seq<u8>)
    requires
        wf_sessions(ss),
        !holds(ss, m.id),
    ensures
        session_members(joined(ss, k, m, now), k) == session_members(ss, k).push(m),
        k2 != k ==> session_members(joined(ss, k, m, now), k2) == session_members(ss, k2),
{
    let r = joined(ss, k, m, now);
    lemma_joined_wf(ss, k, m, now);
    if has_key(ss, k) {
        let i = key_index(ss, k);
        lemma_key_index(r, k, i);
    } else {
        let n = ss.len() as int;
        lemma_key_index(r, k, n);
        assert(seq![m] =~= Seq::<MemberView>::empty().push(m));
    }
    if k2 != k {
        if has_key(ss, k2) {
            let j = key_index(ss, k2);
            assert(r[j] == ss[j]);
            lemma_key_index(r, k2, j);
        } else if has_key(r, k2) {
            let j = key_index(r, k2);
            assert(ss[j].key == k2);
        }
    }
}

/// Two clients that join the same key, one after the other, end up in one
/// and the same session: exactly one session has that key, and both are
/// among its members.
pub proof fn lemma_same_key_one_session(ss: Seq<SessionView>, k: Seq<u8>, a: MemberView, b: MemberView, t1: u64, t2: u64)
    requires
        wf_sessions(ss),
        !holds(ss, a.id),
        !holds(ss, b.id),
        a.id != b.id,
    ensures
        ({
            let r = joined(joined(ss, k, a, t1), k, b, t2);
            &&& wf_sessions(r)
            &&& has_key(r, k)
            &&& forall|i: int, j: int|
                0 <= i < r.len() && 0 <= j < r.len() && #[trigger] r[i].key == k && #[trigger] r[j].key == k ==> i == j
            &&& session_members(r, k) == session_members(ss, k).push(a).push(b)
            &&& has_member(session_members(r, k), a.id)
            &&& has_member(session_members(r, k), b.id)
        }),
{
    let r1 = joined(ss, k, a, t1);
    lemma_joined_wf(ss, k, a, t1);
    lemma_holds_joined(ss, k, a, t1, b.id);
    lemma_joined_wf(r1, k, b, t2);
    lemma_joined_members(ss, k, a, t1, k);
    lemma_joined_members(r1, k, b, t2, k);
    let r = joined(r1, k, b, t2);
    let ms = session_members(r, k);
    let n = session_members(ss, k).len() as int;
    assert(ms[n].id == a.id);
    assert(ms[n + 1].id == b.id);
    assert(has_key(r, k)) by {
        assert(ms.len() > 0);
    }
}

/// Clients joining, one after the other, the session `k` at time `now`.
pub open spec fn joined_all(ss: Seq<SessionView>, k: Seq<u8>, ms: Seq<MemberView>, now: u64) -> Seq<SessionView>
    decreases ms.len(),
{
    if ms.len() == 0 {
        ss
    } else {
        joined(joined_all(ss, k, ms.drop_last(), now), k, ms.last(), now)
    }
}

/// Any number of clients joining a key that no session has yet create
/// exactly one session, whose members are those clients in the order they
/// joined.
pub proof fn lemma_first_joins_one_session(ss: Seq<SessionView>, k: Seq<u8>, ms: Seq<MemberView>, now: u64)
    requires
        wf_sessions(ss),
        !has_key(ss, k),
        ms.len() > 0,
        members_unique(ms),
        forall|a: int| 0 <= a < ms.len() ==> !holds(ss, #[trigger] ms[a].id),
    ensures
        wf_sessions(joined_all(ss, k, ms, now)),
        joined_all(ss, k, ms, now).len() == ss.len() + 1,
        has_key(joined_all(ss, k, ms, now), k),
        session_members(joined_all(ss, k, ms, now), k) == ms,
        forall|id: u64| holds(joined_all(ss, k, ms, now), id) <==> (holds(ss, id) || has_member(ms, id)),
    decreases ms.len(),
{
    let p = ms.drop_last();
    let m = ms.last();
    let prev = joined_all(ss, k, p, now);
    if p.len() == 0 {
        assert(prev == ss);
        lemma_joined_wf(ss, k, m, now);
        lemma_joined_members(ss, k, m, now, k);
        assert(session_members(ss, k) =~= Seq::<MemberView>::empty());
        assert(ms =~= Seq::<MemberView>::empty().push(m));
        assert forall|id: u64| holds(joined_all(ss, k, ms, now), id) <==> (holds(ss, id) || has_member(ms, id)) by {
            lemma_holds_joined(ss, k, m, now, id);
            lemma_has_member_push(Seq::empty(), m, id);
        }
        assert(session_members(joined_all(ss, k, ms, now), k).len() > 0);
    } else {
        assert(members_unique(p));
        assert forall|a: int| 0 <= a < p.len() implies !holds(ss, #[trigger] p[a].id) by {
            assert(p[a] == ms[a]);
        }
        lemma_first_joins_one_session(ss, k, p, now);
        assert(!has_member(p, m.id)) by {
            if has_member(p, m.id) {
                let a = member_index(p, m.id);
                assert(ms[a].id == ms[ms.len() - 1].id);
            }
        }
        assert(!holds(ss, ms[ms.len() - 1].id));
        lemma_joined_wf(prev, k, m, now);
        lemma_joined_members(prev, k, m, now, k);
        assert(ms =~= p.push(m));
        assert forall|id: u64| holds(joined_all(ss, k, ms, now), id) <==> (holds(ss, id) || has_member(ms, id)) by {
            lemma_holds_joined(prev, k, m, now, id);
            lemma_has_member_push(p, m, id);
        }
    }
}

/// Leaving right after joining gives back the registry as it was: a client
/// that joins a key and leaves it again leaves no session behind.
pub proof fn lemma_join_then_leave(ss: Seq<SessionView>, k: Seq<u8>, m: MemberView, now: u64)
    requires
        wf_sessions(ss),
        !holds(ss, m.id),
    ensures
        left(joined(ss, k, m, now), k, m.id) == ss,
{
    let r = joined(ss, k, m, now);
    lemma_joined_wf(ss, k, m, now);
    if has_key(ss, k) {
        let i = key_index(ss, k);
        let ms = ss[i].members;
        lemma_key_index(r, k, i);
        assert(members_unique(r[i].members));
        lemma_member_index(r[i].members, m.id, ms.len() as int);
        assert(ms.push(m).remove(ms.len() as int) =~= ms);
        assert(ms.len() > 0);
        assert(left(r, k, m.id) =~= ss);
    } else {
        let n = ss.len() as int;
        lemma_key_index(r, k, n);
        lemma_member_index(r[n].members, m.id, 0);
        assert(r[n].members.remove(0) =~= Seq::<MemberView>::empty());
        assert(left(r, k, m.id) =~= ss);
    }
}

/// In a well-formed registry a key whose member count is zero is absent:
/// no session is left behind without members.
pub proof fn lemma_empty_key_absent(ss: Seq<SessionView>, k: Seq<u8>)
    requires
        wf_sessions(ss),
    ensures
        session_members(ss, k).len() == 0 ==> !has_key(ss, k),
{
}

/// Each member's outbox after one broadcast in its session.
pub proof fn lemma_relayed_outbox(ss: Seq<SessionView>, k: Seq<u8>, sender: u64, f: Seq<u8>, cap: nat, id: u64)
    requires
        wf_sessions(ss),
    ensures
        has_member(session_members(relayed(ss, k, sender, f, cap), k), id) == has_member(session_members(ss, k), id),
        outbox_of(relayed(ss, k, sender, f, cap), k, id) == if has_member(session_members(ss, k), id) && id != sender
            && outbox_of(ss, k, id).len() < cap {
            outbox_of(ss, k, id).push(f)
        } else {
            outbox_of(ss, k, id)
        },
{
    let r = relayed(ss, k, sender, f, cap);
    lemma_relayed_wf(ss, k, sender, f, cap);
    if has_key(ss, k) {
        let i = key_index(ss, k);
        let ms = ss[i].members;
        lemma_key_index(r, k, i);
        lemma_has_member_map(ms, sender, f, cap, id);
        if has_member(ms, id) {
            let a = member_index(ms, id);
            assert(members_unique(r[i].members));
            lemma_member_index(r[i].members, id, a);
            assert(r[i].members[a] == delivered(ms[a], sender, f, cap));
        }
    }
}

/// Frames broadcast one after the other in session `k`.
pub open spec fn relayed_all(ss: Seq<SessionView>, k: Seq<u8>, sender: u64, fs: Seq<Seq<u8>>, cap: nat) -> Seq<SessionView>
    decreases fs.len(),
{
    if fs.len() == 0 {
        ss
    } else {
        relayed(relayed_all(ss, k, sender, fs.drop_last(), cap), k, sender, fs.last(), cap)
    }
}

/// A receiver gets a sender's frames in the order they were sent, each
/// exactly once, as long as its outbox has room for them.
pub proof fn lemma_relay_keeps_order(
    ss: Seq<SessionView>,
    k: Seq<u8>,
    sender: u64,
    receiver: u64,
    fs: Seq<Seq<u8>>,
    cap: nat,
)
    requires
        wf_sessions(ss),
        sender != receiver,
        has_member(session_members(ss, k), receiver),
        outbox_of(ss, k, receiver).len() + fs.len() <= cap,
    ensures
        wf_sessions(relayed_all(ss, k, sender, fs, cap)),
        has_member(session_members(relayed_all(ss, k, sender, fs, cap), k), receiver),
        outbox_of(relayed_all(ss, k, sender, fs, cap), k, receiver) == outbox_of(ss, k, receiver) + fs,
    decreases fs.len(),
{
    if fs.len() == 0 {
        assert(outbox_of(ss, k, receiver) + fs =~= outbox_of(ss, k, receiver));
    } else {
        let p = fs.drop_last();
        lemma_relay_keeps_order(ss, k, sender, receiver, p, cap);
        let prev = relayed_all(ss, k, sender, p, cap);
        lemma_relayed_wf(prev, k, sender, fs.last(), cap);
        lemma_relayed_outbox(prev, k, sender, fs.last(), cap, receiver);
        assert(outbox_of(ss, k, receiver) + fs =~= (outbox_of(ss, k, receiver) + p).push(fs.last()));
    }
}

/// A frame is never delivered back to the member that sent it.
pub proof fn lemma_no_self_echo(ss: Seq<SessionView>, k: Seq<u8>, sender: u64, f: Seq<u8>, cap: nat)
    requires
        wf_sessions(ss),
    ensures
        outbox_of(relayed(ss, k, sender, f, cap), k, sender) == outbox_of(ss, k, sender),
{
    lemma_relayed_outbox(ss, k, sender, f, cap, sender);
}

/// A client leaving, or broadcasting in, session `k1` does not change the
/// members of any other session, nor what is queued for them.
pub proof fn lemma_sessions_isolated(ss: Seq<SessionView>, k1: Seq<u8>, k2: Seq<u8>, id: u64, f: Seq<u8>, cap: nat)
    requires
        wf_sessions(ss),
        k1 != k2,
    ensures
        session_members(left(ss, k1, id), k2) == session_members(ss, k2),
        session_members(relayed(ss, k1, id, f, cap), k2) == session_members(ss, k2),
        session_members(drained(ss, k1, id), k2) == session_members(ss, k2),
{
    lemma_left_wf(ss, k1, id);
    lemma_relayed_wf(ss, k1, id, f, cap);
    let r = left(ss, k1, id);
    if has_key(ss, k1) && has_member(ss[key_index(ss, k1)].members, id) {
        let i = key_index(ss, k1);
        if r.len() < ss.len() {
            if has_key(ss, k2) {
                let j = key_index(ss, k2);
                let j2 = if j < i { j } else { j - 1 };
                assert(r[j2] == ss[j]);
                lemma_key_index(r, k2, j2);
            } else if has_key(r, k2) {
                let j2 = key_index(r, k2);
                let j = if j2 < i { j2 } else { j2 + 1 };
                assert(ss[j].key == k2);
            }
        } else {
            if has_key(ss, k2) {
                let j = key_index(ss, k2);
                lemma_key_index(r, k2, j);
            } else if has_key(r, k2) {
                let j2 = key_index(r, k2);
                assert(ss[j2].key == k2);
            }
        }
    }
    let q = relayed(ss, k1, id, f, cap);
    if has_key(ss, k2) {
        let j = key_index(ss, k2);
        lemma_key_index(q, k2, j);
    } else if has_key(q, k2) {
        let j2 = key_index(q, k2);
        assert(ss[j2].key == k2);
    }
    let d = drained(ss, k1, id);
    if has_key(ss, k2) {
        let j = key_index(ss, k2);
        if has_key(ss, k1) {
            assert(j != key_index(ss, k1));
        }
        assert(d[j] == ss[j]);
        if d.len() == ss.len() {
            assert(d[j].key == k2);
        }
        lemma_drained_wf(ss, k1, id);
        lemma_key_index(d, k2, j);
    } else if has_key(d, k2) {
        let j2 = key_index(d, k2);
        assert(ss[j2].key == k2);
    }
}

} // verus!
