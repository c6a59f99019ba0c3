//! Concurrent joins against one lobby record, modelled as interleaved steps.
//!
//! Each inbound invocation is a stateless agent racing to join the same
//! lobby: it fetches the current record, and then either finds itself already
//! on the roster, or tries the conditional update keyed to the timestamp it
//! read — exactly one writer wins each round, and a loser re-fetches. One
//! round of `LobbyService::join` is one fetch step followed by one write
//! step of this model; the write step's success condition is the
//! compare-and-swap of `LobbyRepo::update`.
//!
//! The theorems say that no interleaving of such steps loses an update:
//! whatever the schedule, the roster only ever grows by the racing agents'
//! own entries, and when every agent has finished successfully the roster is
//! the initial roster plus exactly one entry per agent.
use vstd::prelude::*;

use crate::lobby::LobbyV;
use crate::lobby::PlayerV;
use crate::lobby::roster_distinct;
use crate::lobby::roster_has_cid;
use crate::service::next_ts;

verus! {

/// Where one joining invocation stands.
pub enum AgentState {
    /// About to read the record (also: just lost a race and about to retry).
    Start,
    /// Holds the record as it was read.
    Fetched { snap: LobbyV },
    /// Returned this lobby to its caller.
    DoneOk { result: LobbyV },
    /// Gave up: the record's timestamp can no longer advance.
    DoneBusy,
}

/// One joining invocation: who is joining, and where it stands.
pub struct Agent {
    pub name: Seq<u8>,
    pub cid: Seq<u8>,
    pub state: AgentState,
}

/// The shared record and every racing invocation.
pub struct Race {
    pub record: LobbyV,
    pub agents: Seq<Agent>,
}

pub open spec fn is_done_ok(a: Agent) -> bool {
    a.state is DoneOk
}

/// No two agents join on the same connection.
pub open spec fn distinct_agent_cids(agents: Seq<Agent>) -> bool {
    forall|i: int, j: int|
        0 <= i < j < agents.len() ==> (#[trigger] agents[i]).cid != (#[trigger] agents[j]).cid
}

/// The starting line: a well-formed record, every agent at `Start`, no two
/// agents sharing a connection, and none of them on the roster yet.
pub open spec fn race_init_ok(c: Race) -> bool {
    &&& c.record.wf()
    &&& distinct_agent_cids(c.agents)
    &&& forall|k: int| 0 <= k < c.agents.len() ==> (#[trigger] c.agents[k]).state is Start
    &&& forall|k: int|
        0 <= k < c.agents.len() ==> !roster_has_cid(
            c.record.players,
            (#[trigger] c.agents[k]).cid,
        )
}

/// One step of agent `k`, taken when the clock reads `now`: a `Start` agent
/// reads the record; a `Fetched` agent decides, and its conditional write
/// succeeds exactly when the stored timestamp still equals the one it read.
pub open spec fn race_step(c: Race, k: int, now: u64) -> Race {
    if 0 <= k < c.agents.len() {
        let a = c.agents[k];
        match a.state {
            AgentState::Start => Race {
                agents: c.agents.update(
                    k,
                    Agent { state: AgentState::Fetched { snap: c.record }, ..a },
                ),
                ..c
            },
            AgentState::Fetched { snap } => {
                if roster_has_cid(snap.players, a.cid) {
                    Race {
                        agents: c.agents.update(
                            k,
                            Agent { state: AgentState::DoneOk { result: snap }, ..a },
                        ),
                        ..c
                    }
                } else if snap.updated_at == u64::MAX {
                    Race {
                        agents: c.agents.update(k, Agent { state: AgentState::DoneBusy, ..a }),
                        ..c
                    }
                } else if c.record.updated_at == snap.updated_at {
                    let grown = snap.with_player(a.name, a.cid, next_ts(snap.updated_at, now));
                    Race {
                        record: grown,
                        agents: c.agents.update(
                            k,
                            Agent { state: AgentState::DoneOk { result: grown }, ..a },
                        ),
                    }
                } else {
                    Race {
                        agents: c.agents.update(k, Agent { state: AgentState::Start, ..a }),
                        ..c
                    }
                }
            },
            AgentState::DoneOk { .. } => c,
            AgentState::DoneBusy => c,
        }
    } else {
        c
    }
}

/// A whole interleaving: the steps of `sched`, in order.
pub open spec fn race_run(c: Race, sched: Seq<(int, u64)>) -> Race
    decreases sched.len(),
{
    if sched.len() == 0 {
        c
    } else {
        race_run(race_step(c, sched[0].0, sched[0].1), sched.drop_first())
    }
}

/// How many agents have finished successfully.
pub open spec fn done_ok_count(agents: Seq<Agent>) -> int
    decreases agents.len(),
{
    if agents.len() == 0 {
        0
    } else {
        done_ok_count(agents.drop_last()) + (if is_done_ok(agents.last()) {
            1int
        } else {
            0int
        })
    }
}

proof fn lemma_count_nonneg(agents: Seq<Agent>)
    ensures
        done_ok_count(agents) >= 0,
    decreases agents.len(),
{
    if agents.len() > 0 {
        lemma_count_nonneg(agents.drop_last());
    }
}

proof fn lemma_count_none(agents: Seq<Agent>)
    requires
        forall|k: int| 0 <= k < agents.len() ==> !is_done_ok(#[trigger] agents[k]),
    ensures
        done_ok_count(agents) == 0,
    decreases agents.len(),
{
    if agents.len() > 0 {
        lemma_count_none(agents.drop_last());
    }
}

proof fn lemma_count_update(agents: Seq<Agent>, k: int, a: Agent)
    requires
        0 <= k < agents.len(),
    ensures
        done_ok_count(agents.update(k, a)) == done_ok_count(agents) + (if is_done_ok(a) {
            1int
        } else {
            0int
        }) - (if is_done_ok(agents[k]) {
            1int
        } else {
            0int
        }),
    decreases agents.len(),
{
    let upd = agents.update(k, a);
    if k == agents.len() - 1 {
        assert(upd.drop_last() =~= agents.drop_last());
        assert(upd.last() == a);
    } else {
        lemma_count_update(agents.drop_last(), k, a);
        assert(upd.drop_last() =~= agents.drop_last().update(k, a));
        assert(upd.last() == agents.last());
    }
}

proof fn lemma_count_all(agents: Seq<Agent>)
    requires
        forall|k: int| 0 <= k < agents.len() ==> is_done_ok(#[trigger] agents[k]),
    ensures
        done_ok_count(agents) == agents.len(),
    decreases agents.len(),
{
    if agents.len() > 0 {
        lemma_count_all(agents.drop_last());
    }
}

/// What the invariant asks of one agent.
pub open spec fn agent_ok_after(c: Race, c0: Race, k: int) -> bool {
    match c.agents[k].state {
        AgentState::Start => !roster_has_cid(c.record.players, c.agents[k].cid),
        AgentState::Fetched { snap } => {
            &&& !roster_has_cid(c.record.players, c.agents[k].cid)
            &&& snap.wf()
            &&& snap.updated_at <= c.record.updated_at
            &&& (snap.updated_at == c.record.updated_at ==> snap == c.record)
            &&& forall|i: int|
                0 <= i < snap.players.len() ==> roster_has_cid(
                    c.record.players,
                    (#[trigger] snap.players[i]).connection_id,
                )
        },
        AgentState::DoneOk { result } => {
            &&& roster_has_cid(c.record.players, c.agents[k].cid)
            &&& roster_has_cid(result.players, c.agents[k].cid)
        },
        AgentState::DoneBusy => true,
    }
}

/// What every reachable interleaving satisfies, relative to the start `c0`.
pub open spec fn race_inv(c: Race, c0: Race) -> bool {
    &&& race_init_ok(c0)
    &&& c.agents.len() == c0.agents.len()
    &&& forall|k: int|
        0 <= k < c.agents.len() ==> (#[trigger] c.agents[k]).cid == c0.agents[k].cid && (
        #[trigger] c.agents[k]).name == c0.agents[k].name
    &&& c.record.wf()
    &&& c.record.id == c0.record.id
    &&& c.record.created_at == c0.record.created_at
    &&& c.record.updated_at >= c0.record.updated_at
    &&& c.record.players.len() == c0.record.players.len() + done_ok_count(c.agents)
    &&& forall|j: int|
        0 <= j < c0.record.players.len() ==> #[trigger] c.record.players[j]
            == c0.record.players[j]
    &&& forall|k: int| 0 <= k < c.agents.len() ==> #[trigger] agent_ok_after(c, c0, k)
}

proof fn lemma_race_inv_init(c0: Race)
    requires
        race_init_ok(c0),
    ensures
        race_inv(c0, c0),
{
    lemma_count_none(c0.agents);
    assert forall|k: int| 0 <= k < c0.agents.len() implies #[trigger] agent_ok_after(
        c0,
        c0,
        k,
    ) by {
        assert(c0.agents[k].state is Start);
    }
}

/// One step preserves the invariant: in particular, a successful conditional
/// write happens only against the record exactly as the writer read it, so no
/// concurrent writer's entry is ever overwritten.
#[verifier::rlimit(100)]
proof fn lemma_race_step_preserves(c: Race, c0: Race, k: int, now: u64)
    requires
        race_inv(c, c0),
    ensures
        race_inv(race_step(c, k, now), c0),
{
    let c1 = race_step(c, k, now);
    lemma_count_nonneg(c.agents);
    if 0 <= k < c.agents.len() {
        let a = c.agents[k];
        assert(agent_ok_after(c, c0, k));
        match a.state {
            AgentState::Start => {
                lemma_count_update(
                    c.agents,
                    k,
                    Agent { state: AgentState::Fetched { snap: c.record }, ..a },
                );
                assert forall|j: int| 0 <= j < c1.agents.len() implies #[trigger] agent_ok_after(
                    c1,
                    c0,
                    j,
                ) by {
                    assert(agent_ok_after(c, c0, j));
                }
            },
            AgentState::Fetched { snap } => {
                if roster_has_cid(snap.players, a.cid) {
                    let i = choose|i: int|
                        0 <= i < snap.players.len() && (#[trigger] snap.players[i]).connection_id
                            == a.cid;
                    assert(roster_has_cid(c.record.players, snap.players[i].connection_id));
                    assert(false);
                } else if snap.updated_at == u64::MAX {
                    lemma_count_update(c.agents, k, Agent { state: AgentState::DoneBusy, ..a });
                    assert forall|j: int|
                        0 <= j < c1.agents.len() implies #[trigger] agent_ok_after(c1, c0, j) by {
                        assert(agent_ok_after(c, c0, j));
                    }
                } else if c.record.updated_at == snap.updated_at {
                    let ts = next_ts(snap.updated_at, now);
                    let grown = snap.with_player(a.name, a.cid, ts);
                    assert(snap == c.record);
                    lemma_count_update(
                        c.agents,
                        k,
                        Agent { state: AgentState::DoneOk { result: grown }, ..a },
                    );
                    assert(grown.players == c.record.players.push(
                        PlayerV { name: a.name, connection_id: a.cid },
                    ));
                    assert(grown.players[grown.players.len() - 1].connection_id == a.cid);
                    assert(roster_has_cid(grown.players, a.cid));
                    assert(ts > c.record.updated_at);
                    assert(grown.wf()) by {
                        assert(roster_distinct(grown.players)) by {
                            assert forall|x: int, y: int|
                                0 <= x < y < grown.players.len() implies (
                            #[trigger] grown.players[x]).connection_id != (
                            #[trigger] grown.players[y]).connection_id by {
                                if y == grown.players.len() - 1 {
                                    if grown.players[x].connection_id == a.cid {
                                        assert(roster_has_cid(c.record.players, a.cid));
                                    }
                                }
                            }
                        }
                    }
                    assert forall|j: int|
                        0 <= j < c1.agents.len() implies #[trigger] agent_ok_after(c1, c0, j) by {
                        assert(agent_ok_after(c, c0, j));
                        if j == k {
                            assert(c1.agents[k].state == (AgentState::DoneOk { result: grown }));
                        } else {
                            let b = c.agents[j];
                            assert(c1.agents[j] == b);
                            assert(b.cid != a.cid);
                            match b.state {
                                AgentState::Start => {
                                    assert(!roster_has_cid(grown.players, b.cid)) by {
                                        if roster_has_cid(grown.players, b.cid) {
                                            let i = choose|i: int|
                                                0 <= i < grown.players.len() && (
                                                #[trigger] grown.players[i]).connection_id
                                                    == b.cid;
                                            assert(i < grown.players.len() - 1);
                                            assert(c.record.players[i].connection_id == b.cid);
                                            assert(roster_has_cid(c.record.players, b.cid));
                                        }
                                    }
                                },
                                AgentState::Fetched { snap: sj } => {
                                    assert(!roster_has_cid(grown.players, b.cid)) by {
                                        if roster_has_cid(grown.players, b.cid) {
                                            let i = choose|i: int|
                                                0 <= i < grown.players.len() && (
                                                #[trigger] grown.players[i]).connection_id
                                                    == b.cid;
                                            assert(i < grown.players.len() - 1);
                                            assert(c.record.players[i].connection_id == b.cid);
                                            assert(roster_has_cid(c.record.players, b.cid));
                                        }
                                    }
                                    assert forall|i: int| 0 <= i < sj.players.len() implies
                                        roster_has_cid(
                                        grown.players,
                                        (#[trigger] sj.players[i]).connection_id,
                                    ) by {
                                        assert(roster_has_cid(
                                            c.record.players,
                                            sj.players[i].connection_id,
                                        ));
                                        let x = choose|x: int|
                                            0 <= x < c.record.players.len() && (
                                            #[trigger] c.record.players[x]).connection_id
                                                == sj.players[i].connection_id;
                                        assert(grown.players[x].connection_id
                                            == sj.players[i].connection_id);
                                        assert(roster_has_cid(
                                            grown.players,
                                            sj.players[i].connection_id,
                                        ));
                                    }
                                },
                                AgentState::DoneOk { result } => {
                                    let x = choose|x: int|
                                        0 <= x < c.record.players.len() && (
                                        #[trigger] c.record.players[x]).connection_id == b.cid;
                                    assert(grown.players[x].connection_id == b.cid);
                                    assert(roster_has_cid(grown.players, b.cid));
                                },
                                AgentState::DoneBusy => {},
                            }
                        }
                    }
                } else {
                    lemma_count_update(c.agents, k, Agent { state: AgentState::Start, ..a });
                    assert forall|j: int|
                        0 <= j < c1.agents.len() implies #[trigger] agent_ok_after(c1, c0, j) by {
                        assert(agent_ok_after(c, c0, j));
                    }
                }
            },
            AgentState::DoneOk { .. } => {
                assert(c1 == c);
            },
            AgentState::DoneBusy => {
                assert(c1 == c);
            },
        }
    } else {
        assert(c1 == c);
    }
}

/// One uninterrupted round — a fetch step and then a write step with nothing
/// scheduled in between — does to the record exactly what the service's
/// `spec_join` transition does to a store holding it: the model and
/// `LobbyService::join` agree.
pub proof fn lemma_solo_round_is_join(c: Race, k: int, now1: u64, now2: u64)
    requires
        0 <= k < c.agents.len(),
        c.agents[k].state is Start,
    ensures
        ({
            let c2 = race_step(race_step(c, k, now1), k, now2);
            let m = Map::<Seq<u8>, LobbyV>::empty().insert(c.record.id, c.record);
            let step = crate::service::spec_join(
                m,
                c.record.id,
                c.agents[k].name,
                c.agents[k].cid,
                now2,
            );
            &&& step.0 == m.insert(c.record.id, c2.record)
            &&& match c2.agents[k].state {
                AgentState::DoneOk { result } => step.1 == Ok::<
                    LobbyV,
                    crate::service::ServiceError,
                >(result),
                AgentState::DoneBusy => step.1 == Err::<LobbyV, crate::service::ServiceError>(
                    crate::service::ServiceError::Busy,
                ),
                _ => false,
            }
        }),
{
    let a = c.agents[k];
    let c1 = race_step(c, k, now1);
    assert(c1.record == c.record);
    assert(c1.agents[k].state == (AgentState::Fetched { snap: c.record }));
    let c2 = race_step(c1, k, now2);
    let m = Map::<Seq<u8>, LobbyV>::empty().insert(c.record.id, c.record);
    assert(m.contains_key(c.record.id) && m[c.record.id] == c.record);
    if roster_has_cid(c.record.players, a.cid) {
        assert(c2.record == c.record);
        assert(m.insert(c.record.id, c.record) =~= m);
    } else if c.record.updated_at == u64::MAX {
        assert(c2.record == c.record);
        assert(m.insert(c.record.id, c.record) =~= m);
    } else {
        let grown = c.record.with_player(a.name, a.cid, next_ts(c.record.updated_at, now2));
        assert(c2.record == grown);
        assert(c2.agents[k].state == (AgentState::DoneOk { result: grown }));
    }
}

/// Every interleaving keeps the invariant: the initial roster is never
/// touched, and the roster grows by exactly one entry per finished agent.
pub proof fn theorem_race_inv(c0: Race, sched: Seq<(int, u64)>)
    requires
        race_init_ok(c0),
    ensures
        race_inv(race_run(c0, sched), c0),
{
    lemma_race_inv_init(c0);
    theorem_race_inv_from(c0, c0, sched);
}

proof fn theorem_race_inv_from(c: Race, c0: Race, sched: Seq<(int, u64)>)
    requires
        race_inv(c, c0),
    ensures
        race_inv(race_run(c, sched), c0),
    decreases sched.len(),
{
    if sched.len() > 0 {
        lemma_race_step_preserves(c, c0, sched[0].0, sched[0].1);
        theorem_race_inv_from(race_step(c, sched[0].0, sched[0].1), c0, sched.drop_first());
    }
}

/// No lost updates: for any number of concurrent joins with distinct
/// connections against one lobby, under any interleaving after which every
/// agent finished successfully, the roster is the initial roster — untouched
/// and in order — plus exactly one entry per agent, each present exactly
/// once.
pub proof fn theorem_no_lost_updates(c0: Race, sched: Seq<(int, u64)>)
    requires
        race_init_ok(c0),
        forall|k: int|
            0 <= k < race_run(c0, sched).agents.len() ==> is_done_ok(
                #[trigger] race_run(c0, sched).agents[k],
            ),
    ensures
        race_run(c0, sched).record.players.len() == c0.record.players.len() + c0.agents.len(),
        forall|k: int|
            0 <= k < c0.agents.len() ==> roster_has_cid(
                race_run(c0, sched).record.players,
                (#[trigger] c0.agents[k]).cid,
            ),
        roster_distinct(race_run(c0, sched).record.players),
        forall|j: int|
            0 <= j < c0.record.players.len() ==> #[trigger] race_run(
                c0,
                sched,
            ).record.players[j] == c0.record.players[j],
{
    theorem_race_inv(c0, sched);
    let c = race_run(c0, sched);
    lemma_count_all(c.agents);
    assert forall|k: int| 0 <= k < c0.agents.len() implies roster_has_cid(
        c.record.players,
        (#[trigger] c0.agents[k]).cid,
    ) by {
        assert(agent_ok_after(c, c0, k));
        assert(c.agents[k].cid == c0.agents[k].cid);
        assert(is_done_ok(c.agents[k]));
    }
}

} // verus!
