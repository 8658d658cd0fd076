//! Flank/pocket tags by the slot rule: within each team the lowest and highest player
//! numbers are flanks and the inner ones pockets; in a two-player team the lower one is
//! the flank.
use std::collections::HashMap;
use vstd::prelude::*;

use crate::replay::analyze::model::{Family, PlayerInfo, Role};

verus! {

broadcast use vstd::std_specs::hash::group_hash_axioms;

/// The player numbers of team `t`, in input order.
pub open spec fn team_slots(ps: Seq<PlayerInfo>, t: u8) -> Seq<i32>
    decreases ps.len(),
{
    if ps.len() == 0 {
        Seq::empty()
    } else {
        let prev = team_slots(ps.drop_last(), t);
        if ps.last().team_id == t {
            prev.push(ps.last().player_number)
        } else {
            prev
        }
    }
}

/// How many entries of `s` are at most `pn`.
pub open spec fn count_le(s: Seq<i32>, pn: i32) -> nat
    decreases s.len(),
{
    if s.len() == 0 {
        0
    } else {
        count_le(s.drop_last(), pn) + if s.last() <= pn {
            1nat
        } else {
            0nat
        }
    }
}

/// The role of `pn` within a team whose sorted slots are `slots`: its (last) index in
/// sorted order is `count_le - 1`; a one-player team gives no role.
pub open spec fn role_in_team(slots: Seq<i32>, pn: i32) -> Option<Role> {
    let n = slots.len();
    let k = count_le(slots, pn) - 1;
    if n < 2 {
        None
    } else if n == 2 {
        if k == 0 {
            Some(Role::Flank)
        } else {
            Some(Role::Pocket)
        }
    } else if k == 0 || k == n - 1 {
        Some(Role::Flank)
    } else {
        Some(Role::Pocket)
    }
}

/// Whether roles are assigned at all: an open or closed map with at least two teams
/// other than the unaffiliated team 1.
pub open spec fn roles_apply(ps: Seq<PlayerInfo>, family: Family) -> bool {
    (family == Family::Open || family == Family::Closed) && exists|i: int, j: int|
        0 <= i < ps.len() && 0 <= j < ps.len() && ps[i].team_id != 1 && ps[j].team_id != 1
            && ps[i].team_id != ps[j].team_id
}

/// The team ids other than 1, each once, in order of first appearance.
pub open spec fn team_order(ps: Seq<PlayerInfo>) -> Seq<u8>
    decreases ps.len(),
{
    if ps.len() == 0 {
        Seq::empty()
    } else {
        let prev = team_order(ps.drop_last());
        let t = ps.last().team_id;
        if t != 1 && !prev.contains(t) {
            prev.push(t)
        } else {
            prev
        }
    }
}

/// Whether team `t` lists `pn` and has at least two slots (so gives it a role).
pub open spec fn has_role_in(ps: Seq<PlayerInfo>, t: u8, pn: i32) -> bool {
    team_slots(ps, t).contains(pn) && team_slots(ps, t).len() >= 2
}

/// Whether `role` is what team `ts[a]` gives `pn`, and no later team of `ts` before index
/// `lim` gives `pn` one.
pub open spec fn last_role_at(ps: Seq<PlayerInfo>, ts: Seq<u8>, lim: int, a: int, pn: i32, role: Role) -> bool {
    &&& has_role_in(ps, ts[a], pn)
    &&& role_in_team(team_slots(ps, ts[a]), pn) == Some(role)
    &&& forall|b: int| a < b < lim ==> !#[trigger] has_role_in(ps, ts[b], pn)
}

proof fn lemma_team_slots(ps: Seq<PlayerInfo>, t: u8, pn: i32)
    ensures
        team_slots(ps, t).contains(pn) <==> exists|i: int|
            0 <= i < ps.len() && ps[i].team_id == t && ps[i].player_number == pn,
        team_slots(ps, t).len() > 0 <==> exists|i: int| 0 <= i < ps.len() && ps[i].team_id == t,
    decreases ps.len(),
{
    if ps.len() > 0 {
        let prev = ps.drop_last();
        lemma_team_slots(prev, t, pn);
        let s = team_slots(ps, t);
        if exists|i: int| 0 <= i < ps.len() && ps[i].team_id == t && ps[i].player_number == pn {
            let i = choose|i: int|
                0 <= i < ps.len() && ps[i].team_id == t && ps[i].player_number == pn;
            if i < ps.len() - 1 {
                assert(prev[i] == ps[i]);
                let w = choose|w: int| 0 <= w < team_slots(prev, t).len() && team_slots(prev, t)[w] == pn;
                assert(s[w] == pn);
            } else {
                assert(s[s.len() - 1] == pn);
            }
        }
        if s.contains(pn) {
            let w = choose|w: int| 0 <= w < s.len() && s[w] == pn;
            if w < team_slots(prev, t).len() {
                assert(team_slots(prev, t).contains(pn));
                let i = choose|i: int| 0 <= i < prev.len() && prev[i].team_id == t && prev[i].player_number == pn;
                assert(ps[i] == prev[i]);
            } else {
                assert(ps[ps.len() - 1].team_id == t);
            }
        }
        if exists|i: int| 0 <= i < ps.len() && ps[i].team_id == t {
            let i = choose|i: int| 0 <= i < ps.len() && ps[i].team_id == t;
            if i < ps.len() - 1 {
                assert(prev[i] == ps[i]);
            }
        }
        if s.len() > 0 && team_slots(prev, t).len() > 0 {
            let i = choose|i: int| 0 <= i < prev.len() && prev[i].team_id == t;
            assert(ps[i] == prev[i]);
        }
    }
}

/// The player numbers of team `t`.
fn collect_team(players: &[PlayerInfo], t: u8) -> (r: Vec<i32>)
    ensures
        r@ == team_slots(players@, t),
{
    let mut out: Vec<i32> = Vec::new();
    let mut i: usize = 0;
    while i < players.len()
        invariant
            i <= players@.len(),
            out@ == team_slots(players@.subrange(0, i as int), t),
        decreases players@.len() - i,
    {
        assert(players@.subrange(0, i + 1).drop_last() == players@.subrange(0, i as int));
        if players[i].team_id == t {
            out.push(players[i].player_number);
        }
        i = i + 1;
    }
    assert(players@.subrange(0, players@.len() as int) == players@);
    out
}

/// `count_le`, computed.
fn count_at_most(s: &[i32], pn: i32) -> (r: usize)
    ensures
        r == count_le(s@, pn),
{
    let mut c: usize = 0;
    let mut i: usize = 0;
    while i < s.len()
        invariant
            i <= s@.len(),
            c == count_le(s@.subrange(0, i as int), pn),
            c <= i,
        decreases s@.len() - i,
    {
        assert(s@.subrange(0, i + 1).drop_last() == s@.subrange(0, i as int));
        if s[i] <= pn {
            c = c + 1;
        }
        i = i + 1;
    }
    assert(s@.subrange(0, s@.len() as int) == s@);
    c
}

proof fn lemma_count_le_member(s: Seq<i32>, pn: i32)
    requires
        s.contains(pn),
    ensures
        1 <= count_le(s, pn) <= s.len(),
    decreases s.len(),
{
    let w = choose|w: int| 0 <= w < s.len() && s[w] == pn;
    if w < s.len() - 1 {
        assert(s.drop_last()[w] == pn);
        lemma_count_le_member(s.drop_last(), pn);
    } else {
        lemma_count_le_bound(s.drop_last(), pn);
    }
}

proof fn lemma_count_le_bound(s: Seq<i32>, pn: i32)
    ensures
        count_le(s, pn) <= s.len(),
    decreases s.len(),
{
    if s.len() > 0 {
        lemma_count_le_bound(s.drop_last(), pn);
    }
}

/// Tags each player of an open or closed map with at least two teams (team 1 being the
/// unaffiliated one) with its role; a one-player team gets none. The map is keyed by
/// player number. Teams are taken in order of first appearance; where one player number is
/// listed under two teams, the role of the later team stands.
pub fn assign_roles(players: &[PlayerInfo], family: Family) -> (r: HashMap<i32, Role>)
    ensures
        !roles_apply(players@, family) ==> r@ == Map::<i32, Role>::empty(),
        roles_apply(players@, family) ==> forall|pn: i32|
            r@.contains_key(pn) <==> exists|i: int|
                0 <= i < players@.len() && #[trigger] players@[i].player_number == pn
                    && players@[i].team_id != 1
                    && team_slots(players@, players@[i].team_id).len() >= 2,
        roles_apply(players@, family) ==> forall|pn: i32|
            #[trigger] r@.contains_key(pn) ==> exists|i: int|
                0 <= i < players@.len() && players@[i].player_number == pn
                    && players@[i].team_id != 1 && role_in_team(
                    team_slots(players@, players@[i].team_id),
                    pn,
                ) == Some(r@[pn]),
        roles_apply(players@, family) ==> forall|pn: i32|
            #[trigger] r@.contains_key(pn) ==> exists|a: int|
                0 <= a < team_order(players@).len() && last_role_at(
                    players@,
                    team_order(players@),
                    team_order(players@).len() as int,
                    a,
                    pn,
                    r@[pn],
                ),
{
    let mut out: HashMap<i32, Role> = HashMap::new();
    if !(family == Family::Open || family == Family::Closed) {
        return out;
    }
    // the distinct team ids other than 1, in order of first appearance
    let mut teams: Vec<u8> = Vec::new();
    let mut i: usize = 0;
    while i < players.len()
        invariant
            i <= players@.len(),
            forall|a: int, b: int| 0 <= a < b < teams@.len() ==> teams@[a] != teams@[b],
            forall|a: int|
                0 <= a < teams@.len() ==> teams@[a] != 1 && exists|j: int|
                    0 <= j < players@.len() && players@[j].team_id == #[trigger] teams@[a],
            forall|j: int|
                0 <= j < i && players@[j].team_id != 1 ==> teams@.contains(
                    #[trigger] players@[j].team_id,
                ),
            teams@ == team_order(players@.subrange(0, i as int)),
        decreases players@.len() - i,
    {
        let t = players[i].team_id;
        let ghost pre = players@.subrange(0, i as int);
        assert(players@.subrange(0, i + 1).drop_last() == pre);
        assert(players@.subrange(0, i + 1).last() == players@[i as int]);
        if t != 1 {
            let mut seen = false;
            let mut k: usize = 0;
            while k < teams.len()
                invariant
                    k <= teams@.len(),
                    seen == exists|a: int| 0 <= a < k && teams@[a] == t,
                decreases teams@.len() - k,
            {
                if teams[k] == t {
                    seen = true;
                }
                k = k + 1;
            }
            assert(seen == teams@.contains(t));
            if !seen {
                let ghost old_teams = teams@;
                teams.push(t);
                assert forall|j: int|
                    0 <= j < i + 1 && players@[j].team_id != 1 implies teams@.contains(
                    #[trigger] players@[j].team_id,
                ) by {
                    if j < i {
                        let a = choose|a: int| 0 <= a < old_teams.len() && old_teams[a]
                            == players@[j].team_id;
                        assert(teams@[a] == players@[j].team_id);
                    } else {
                        assert(teams@[teams@.len() - 1] == t);
                    }
                }
            } else {
                proof {
                    let a = choose|a: int| 0 <= a < teams@.len() && teams@[a] == t;
                    assert(teams@.contains(t));
                }
            }
        }
        i = i + 1;
    }
    assert(players@.subrange(0, players@.len() as int) == players@);
    if teams.len() < 2 {
        proof {
            if roles_apply(players@, family) {
                let (a, b) = choose|a: int, b: int|
                    0 <= a < players@.len() && 0 <= b < players@.len() && players@[a].team_id != 1
                        && players@[b].team_id != 1 && players@[a].team_id
                        != players@[b].team_id;
                assert(teams@.contains(players@[a].team_id));
                assert(teams@.contains(players@[b].team_id));
                let x = choose|x: int| 0 <= x < teams@.len() && teams@[x] == players@[a].team_id;
                let y = choose|y: int| 0 <= y < teams@.len() && teams@[y] == players@[b].team_id;
                assert(x != y);
            }
        }
        return out;
    }
    proof {
        let j0 = choose|j: int| 0 <= j < players@.len() && players@[j].team_id == teams@[0];
        let j1 = choose|j: int| 0 <= j < players@.len() && players@[j].team_id == teams@[1];
        assert(roles_apply(players@, family));
    }
    let ghost ps = players@;
    let mut ti: usize = 0;
    while ti < teams.len()
        invariant
            ti <= teams@.len(),
            ps == players@,
            teams@ == team_order(ps),
            forall|a: int|
                0 <= a < teams@.len() ==> teams@[a] != 1 && exists|j: int|
                    0 <= j < ps.len() && ps[j].team_id == #[trigger] teams@[a],
            forall|j: int|
                0 <= j < ps.len() && ps[j].team_id != 1 ==> teams@.contains(
                    #[trigger] ps[j].team_id,
                ),
            forall|pn: i32|
                out@.contains_key(pn) <==> exists|a: int|
                    0 <= a < ti && #[trigger] team_slots(ps, teams@[a]).contains(pn)
                        && team_slots(ps, teams@[a]).len() >= 2,
            forall|pn: i32|
                #[trigger] out@.contains_key(pn) ==> exists|a: int|
                    0 <= a < ti && team_slots(ps, teams@[a]).contains(pn) && role_in_team(
                        team_slots(ps, teams@[a]),
                        pn,
                    ) == Some(out@[pn]),
            forall|pn: i32|
                #[trigger] out@.contains_key(pn) ==> exists|a: int|
                    0 <= a < ti && #[trigger] last_role_at(ps, teams@, ti as int, a, pn, out@[pn]),
        decreases teams@.len() - ti,
    {
        let t = teams[ti];
        let slots = collect_team(players, t);
        let n = slots.len();
        let ghost out0 = out@;
        if n >= 2 {
            let ghost before = out@;
            let mut j: usize = 0;
            while j < n
                invariant
                    j <= n,
                    n == slots@.len(),
                    n >= 2,
                    slots@ == team_slots(ps, t),
                    t == teams@[ti as int],
                    ti < teams@.len(),
                    forall|pn: i32|
                        out@.contains_key(pn) <==> (before.contains_key(pn)
                            || slots@.subrange(0, j as int).contains(pn)),
                    forall|pn: i32|
                        #[trigger] out@.contains_key(pn) ==> (slots@.subrange(0, j as int).contains(pn)
                            && role_in_team(slots@, pn) == Some(out@[pn])) || (!slots@.subrange(
                            0,
                            j as int,
                        ).contains(pn) && out@[pn] == before[pn]),
                decreases n - j,
            {
                let pn = slots[j];
                assert(forall|q: i32|
                    out@.contains_key(q) <==> (before.contains_key(q)
                        || slots@.subrange(0, j as int).contains(q)));
                let c = count_at_most(&slots, pn);
                proof {
                    assert(slots@.contains(pn));
                    lemma_count_le_member(slots@, pn);
                }
                let k = c - 1;
                let role = if n == 2 {
                    if k == 0 {
                        Role::Flank
                    } else {
                        Role::Pocket
                    }
                } else if k == 0 || k == n - 1 {
                    Role::Flank
                } else {
                    Role::Pocket
                };
                assert(role_in_team(slots@, pn) == Some(role));
                let ghost prev_out = out@;
                assert(forall|q: i32|
                    prev_out.contains_key(q) <==> (before.contains_key(q)
                        || slots@.subrange(0, j as int).contains(q)));
                out.insert(pn, role);
                let ghost done = slots@.subrange(0, j as int);
                assert(slots@.subrange(0, j + 1) == done.push(pn));
                proof {
                    assert forall|q: i32| q != pn implies (done.push(pn).contains(q)
                        <==> done.contains(q)) by {
                        if done.push(pn).contains(q) {
                            let w = choose|w: int| 0 <= w < done.push(pn).len() && done.push(pn)[w] == q;
                            assert(w < done.len());
                            assert(done[w] == q);
                        }
                        if done.contains(q) {
                            let w = choose|w: int| 0 <= w < done.len() && done[w] == q;
                            assert(done.push(pn)[w] == q);
                        }
                    }
                    assert(done.push(pn)[done.len() as int] == pn);
                    assert forall|q: i32|
                        out@.contains_key(q) <==> (before.contains_key(q)
                            || slots@.subrange(0, j + 1).contains(q)) by {
                        if q == pn {
                            assert(done.push(pn).contains(pn));
                            assert(out@.contains_key(q));
                        } else {
                            assert(out@.contains_key(q) == prev_out.contains_key(q));
                            assert(prev_out.contains_key(q) <==> (before.contains_key(q)
                                || done.contains(q)));
                            assert(done.push(pn).contains(q) <==> done.contains(q));
                        }
                    }
                    assert forall|q: i32|
                        #[trigger] out@.contains_key(q) implies (slots@.subrange(0, j + 1).contains(q)
                            && role_in_team(slots@, q) == Some(out@[q])) || (!slots@.subrange(
                            0,
                            j + 1,
                        ).contains(q) && out@[q] == before[q]) by {
                        if q != pn {
                            assert(prev_out.contains_key(q));
                        }
                    }
                }
                j = j + 1;
            }
            assert(slots@.subrange(0, n as int) == slots@);
            assert forall|pn: i32|
                out@.contains_key(pn) <==> exists|a: int|
                    0 <= a < ti + 1 && #[trigger] team_slots(ps, teams@[a]).contains(pn)
                        && team_slots(ps, teams@[a]).len() >= 2 by {
                if out@.contains_key(pn) {
                    if before.contains_key(pn) {
                        let a = choose|a: int|
                            0 <= a < ti && #[trigger] team_slots(ps, teams@[a]).contains(pn)
                                && team_slots(ps, teams@[a]).len() >= 2;
                        assert(0 <= a < ti + 1);
                    } else {
                        assert(team_slots(ps, teams@[ti as int]).contains(pn));
                    }
                }
                if exists|a: int|
                    0 <= a < ti + 1 && #[trigger] team_slots(ps, teams@[a]).contains(pn)
                        && team_slots(ps, teams@[a]).len() >= 2 {
                    let a = choose|a: int|
                        0 <= a < ti + 1 && #[trigger] team_slots(ps, teams@[a]).contains(pn)
                            && team_slots(ps, teams@[a]).len() >= 2;
                    if a < ti {
                        assert(before.contains_key(pn));
                    } else {
                        assert(slots@.contains(pn));
                        assert(slots@.subrange(0, n as int).contains(pn));
                    }
                    assert(out@.contains_key(pn));
                }
            }
            assert forall|pn: i32| #[trigger] out@.contains_key(pn) implies exists|a: int|
                0 <= a < ti + 1 && team_slots(ps, teams@[a]).contains(pn) && role_in_team(
                    team_slots(ps, teams@[a]),
                    pn,
                ) == Some(out@[pn]) by {
                if slots@.contains(pn) {
                    assert(team_slots(ps, teams@[ti as int]).contains(pn));
                } else {
                    assert(before.contains_key(pn));
                    let a = choose|a: int|
                        0 <= a < ti && team_slots(ps, teams@[a]).contains(pn) && role_in_team(
                            team_slots(ps, teams@[a]),
                            pn,
                        ) == Some(before[pn]);
                    assert(0 <= a < ti + 1);
                }
            }
            assert forall|q: i32| out@.contains_key(q) && !slots@.contains(q) implies out0.contains_key(q)
                && out@[q] == out0[q] by {
                assert(!slots@.subrange(0, n as int).contains(q));
            }
        }
        assert forall|q: i32| #[trigger] out@.contains_key(q) implies exists|a: int|
            0 <= a < ti + 1 && #[trigger] last_role_at(ps, teams@, ti + 1, a, q, out@[q]) by {
            if n >= 2 && slots@.contains(q) {
                assert(has_role_in(ps, teams@[ti as int], q));
                assert(last_role_at(ps, teams@, ti + 1, ti as int, q, out@[q]));
            } else {
                assert(out0.contains_key(q) && out@[q] == out0[q]);
                let a = choose|a: int| 0 <= a < ti && last_role_at(ps, teams@, ti as int, a, q, out0[q]);
                assert(!has_role_in(ps, teams@[ti as int], q));
                assert(last_role_at(ps, teams@, ti + 1, a, q, out@[q]));
            }
        }
        ti = ti + 1;
    }
    proof {
        assert forall|pn: i32|
            out@.contains_key(pn) <==> exists|i: int|
                0 <= i < ps.len() && #[trigger] ps[i].player_number == pn && ps[i].team_id != 1
                    && team_slots(ps, ps[i].team_id).len() >= 2 by {
            if out@.contains_key(pn) {
                let a = choose|a: int|
                    0 <= a < teams@.len() && #[trigger] team_slots(ps, teams@[a]).contains(pn)
                        && team_slots(ps, teams@[a]).len() >= 2;
                lemma_team_slots(ps, teams@[a], pn);
                let i = choose|i: int|
                    0 <= i < ps.len() && ps[i].team_id == teams@[a] && ps[i].player_number == pn;
                assert(ps[i].player_number == pn);
            }
            if exists|i: int|
                0 <= i < ps.len() && #[trigger] ps[i].player_number == pn && ps[i].team_id != 1
                    && team_slots(ps, ps[i].team_id).len() >= 2 {
                let i = choose|i: int|
                    0 <= i < ps.len() && #[trigger] ps[i].player_number == pn && ps[i].team_id
                        != 1 && team_slots(ps, ps[i].team_id).len() >= 2;
                assert(teams@.contains(ps[i].team_id));
                let a = choose|a: int| 0 <= a < teams@.len() && teams@[a] == ps[i].team_id;
                lemma_team_slots(ps, teams@[a], pn);
                assert(team_slots(ps, teams@[a]).contains(pn));
            }
        }
        assert forall|pn: i32| #[trigger] out@.contains_key(pn) implies exists|i: int|
            0 <= i < ps.len() && ps[i].player_number == pn && ps[i].team_id != 1
                && role_in_team(team_slots(ps, ps[i].team_id), pn) == Some(out@[pn]) by {
            let a = choose|a: int|
                0 <= a < teams@.len() && team_slots(ps, teams@[a]).contains(pn) && role_in_team(
                    team_slots(ps, teams@[a]),
                    pn,
                ) == Some(out@[pn]);
            lemma_team_slots(ps, teams@[a], pn);
            let i = choose|i: int|
                0 <= i < ps.len() && ps[i].team_id == teams@[a] && ps[i].player_number == pn;
            assert(ps[i].team_id != 1);
        }
        assert forall|pn: i32| #[trigger] out@.contains_key(pn) implies exists|a: int|
            0 <= a < team_order(ps).len() && #[trigger] last_role_at(
                ps,
                team_order(ps),
                team_order(ps).len() as int,
                a,
                pn,
                out@[pn],
            ) by {
            let a = choose|a: int| 0 <= a < ti && #[trigger] last_role_at(ps, teams@, ti as int, a, pn, out@[pn]);
            assert(last_role_at(ps, team_order(ps), team_order(ps).len() as int, a, pn, out@[pn]));
        }
    }
    out
}

} // verus!
