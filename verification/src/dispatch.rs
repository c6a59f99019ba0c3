//! The protocol dispatcher and the fan-out broadcaster.
//!
//! `deliver` is one whole inbound invocation: decode the tagged body, run the
//! service against the repository, and return the delivery plan — one
//! outbound message per recipient connection — for the transport to post.
//! A malformed or unrecognised body is dropped without a state change; a
//! failed request is answered with an error message to the requesting
//! connection only.
use vstd::prelude::*;

use crate::codec::decode;
use crate::codec::parse_msg;
use crate::codec::push_bytes;
use crate::lobby::Player;
use crate::lobby::PlayerV;
use crate::lobby::LobbyV;
use crate::lobby::cid_index;
use crate::lobby::roster_has_cid;
use crate::messages::Lobby;
use crate::messages::LobbyActionCreateResponse;
use crate::messages::LobbyActionJoinResponse;
use crate::messages::LobbyErrorResponse;
use crate::messages::LobbyMessageResponse;
use crate::messages::Message;
use crate::messages::MessageV;
use crate::messages::snapshot_of;
use crate::repo::LobbyRepo;
use crate::service::LobbyService;
use crate::service::ServiceError;
use crate::service::spec_join;

verus! {

/// The per-invocation request context the transport hands over.
#[derive(Debug, PartialEq)]
pub struct RequestContext {
    pub connection_id: Vec<u8>,
    pub domain_name: Vec<u8>,
    pub stage: Vec<u8>,
}

/// One inbound event: who sent it, and the raw tagged body.
#[derive(Debug, PartialEq)]
pub struct Event {
    pub request_context: RequestContext,
    pub body: Vec<u8>,
}

impl Event {
    /// The decoded body, if it is a well-formed message.
    pub fn message(&self) -> (r: Option<Message>)
        ensures
            match r {
                Some(m) => parse_msg(self.body@) == Some(m@),
                None => parse_msg(self.body@) is None,
            },
    {
        decode(self.body.as_slice())
    }
}

/// `https://` + domain + `/` + stage: the delivery address the transport
/// posts through, derived per invocation and never persisted.
pub open spec fn endpoint_of(domain: Seq<u8>, stage: Seq<u8>) -> Seq<u8> {
    seq![104u8, 116, 116, 112, 115, 58, 47, 47] + domain + seq![47u8] + stage
}

pub fn endpoint(ctx: &RequestContext) -> (r: Vec<u8>)
    ensures
        r@ == endpoint_of(ctx.domain_name@, ctx.stage@),
{
    let scheme: &[u8] = &[104, 116, 116, 112, 115, 58, 47, 47];
    let slash: &[u8] = &[47];
    let mut r: Vec<u8> = Vec::new();
    push_bytes(&mut r, scheme);
    push_bytes(&mut r, ctx.domain_name.as_slice());
    push_bytes(&mut r, slash);
    push_bytes(&mut r, ctx.stage.as_slice());
    proof {
        assert(r@ =~= endpoint_of(ctx.domain_name@, ctx.stage@));
    }
    r
}

/// One planned delivery: a message for one connection.
#[derive(Debug, PartialEq)]
pub struct Outbound {
    pub connection_id: Vec<u8>,
    pub message: Message,
}

/// Mathematical image of an `Outbound`.
#[verifier::ext_equal]
pub struct OutboundV {
    pub connection_id: Seq<u8>,
    pub message: MessageV,
}

impl View for Outbound {
    type V = OutboundV;

    open spec fn view(&self) -> OutboundV {
        OutboundV { connection_id: self.connection_id@, message: self.message@ }
    }
}

/// One copy of `message` for every player of the roster, in roster order.
pub fn fan_out(players: &Vec<Player>, message: &Message) -> (plan: Vec<Outbound>)
    ensures
        plan@.len() == players@.len(),
        forall|i: int|
            0 <= i < plan@.len() ==> (#[trigger] plan@[i])@.connection_id
                == players@[i]@.connection_id && plan@[i]@.message == message@,
{
    let mut plan: Vec<Outbound> = Vec::new();
    let mut i: usize = 0;
    while i < players.len()
        invariant
            i <= players@.len(),
            plan@.len() == i,
            forall|j: int|
                0 <= j < i ==> (#[trigger] plan@[j])@.connection_id
                    == players@[j]@.connection_id && plan@[j]@.message == message@,
        decreases players@.len() - i,
    {
        plan.push(
            Outbound {
                connection_id: players[i].connection_id.clone(),
                message: message.clone(),
            },
        );
        i = i + 1;
    }
    plan
}

/// Keeps the players that are not on connection `except`.
pub open spec fn keep_other(except: Seq<u8>) -> spec_fn(PlayerV) -> bool {
    |p: PlayerV| p.connection_id != except
}

/// One copy of `message` for every player but the one on `except`, keeping
/// roster order.
pub fn fan_out_except(players: &Vec<Player>, except: &Vec<u8>, message: &Message) -> (plan: Vec<
    Outbound,
>)
    ensures
        ({
            let kept = players@.map_values(|p: Player| p@).filter(keep_other(except@));
            &&& plan@.len() == kept.len()
            &&& forall|i: int|
                0 <= i < plan@.len() ==> (#[trigger] plan@[i])@.connection_id
                    == kept[i].connection_id && plan@[i]@.message == message@
        }),
{
    let ghost views = players@.map_values(|p: Player| p@);
    let ghost pred = keep_other(except@);
    let mut plan: Vec<Outbound> = Vec::new();
    let mut i: usize = 0;
    proof {
        assert(views.take(0) =~= Seq::<PlayerV>::empty());
        reveal(Seq::filter);
    }
    while i < players.len()
        invariant
            i <= players@.len(),
            views == players@.map_values(|p: Player| p@),
            views.len() == players@.len(),
            pred == keep_other(except@),
            plan@.len() == views.take(i as int).filter(pred).len(),
            forall|j: int|
                0 <= j < plan@.len() ==> (#[trigger] plan@[j])@.connection_id == views.take(
                    i as int,
                ).filter(pred)[j].connection_id && plan@[j]@.message == message@,
        decreases players@.len() - i,
    {
        proof {
            assert(views.take(i as int + 1) =~= views.take(i as int) + seq![views[i as int]]);
            Seq::filter_distributes_over_add(
                views.take(i as int),
                seq![views[i as int]],
                pred,
            );
            reveal(Seq::filter);
            let one = seq![views[i as int]];
            assert(one.len() == 1 && one.last() == views[i as int]);
            assert(one.drop_last() =~= Seq::<PlayerV>::empty());
            assert(Seq::<PlayerV>::empty().filter(pred) =~= Seq::<PlayerV>::empty());
            if pred(views[i as int]) {
                assert(one.filter(pred) =~= one);
            } else {
                assert(one.filter(pred) =~= Seq::<PlayerV>::empty());
            }
            assert(views[i as int] == players@[i as int]@);
        }
        if !crate::lobby::bytes_eq(&players[i].connection_id, except) {
            plan.push(
                Outbound {
                    connection_id: players[i].connection_id.clone(),
                    message: message.clone(),
                },
            );
            proof {
                assert(views[i as int].connection_id != except@);
                assert(pred(views[i as int]));
                assert((views.take(i as int) + seq![views[i as int]]).filter(pred) == views.take(
                    i as int,
                ).filter(pred) + seq![views[i as int]].filter(pred));
                assert(views.take(i as int + 1).filter(pred) == (views.take(i as int)
                    + seq![views[i as int]]).filter(pred));
                assert(views.take(i as int + 1).filter(pred) =~= views.take(i as int).filter(pred)
                    + seq![views[i as int]]);
            }
        } else {
            proof {
                assert(views[i as int].connection_id == except@);
                assert(!pred(views[i as int]));
                assert((views.take(i as int) + seq![views[i as int]]).filter(pred) == views.take(
                    i as int,
                ).filter(pred) + seq![views[i as int]].filter(pred));
                assert(views.take(i as int + 1).filter(pred) == (views.take(i as int)
                    + seq![views[i as int]]).filter(pred));
                assert(views.take(i as int + 1).filter(pred) =~= views.take(i as int).filter(
                    pred,
                ));
            }
        }
        i = i + 1;
    }
    proof {
        assert(views.take(views.len() as int) =~= views);
    }
    plan
}

// ---------------------------------------------------------------------------
// Error texts for the implicit error channel
// ---------------------------------------------------------------------------
/// `lobby not found`
pub open spec fn not_found_text() -> Seq<u8> {
    seq![108u8, 111, 98, 98, 121, 32, 110, 111, 116, 32, 102, 111, 117, 110, 100]
}

/// `lobby is busy`
pub open spec fn busy_text() -> Seq<u8> {
    seq![108u8, 111, 98, 98, 121, 32, 105, 115, 32, 98, 117, 115, 121]
}

/// `not in this lobby`
pub open spec fn not_member_text() -> Seq<u8> {
    seq![110u8, 111, 116, 32, 105, 110, 32, 116, 104, 105, 115, 32, 108, 111, 98, 98, 121]
}

/// A plan of one error message back to the requesting connection.
pub open spec fn error_plan(cid: Seq<u8>, text: Seq<u8>) -> Seq<OutboundV> {
    seq![
        OutboundV { connection_id: cid, message: MessageV::ErrorResponse { message: text } },
    ]
}

fn error_response(connection_id: &Vec<u8>, text: &[u8]) -> (plan: Vec<Outbound>)
    ensures
        plan@.map_values(|o: Outbound| o@) == error_plan(connection_id@, text@),
{
    let mut message: Vec<u8> = Vec::new();
    push_bytes(&mut message, text);
    proof {
        assert(message@ =~= text@);
    }
    let mut plan: Vec<Outbound> = Vec::new();
    plan.push(
        Outbound {
            connection_id: connection_id.clone(),
            message: Message::LobbyErrorResponse(LobbyErrorResponse { message }),
        },
    );
    proof {
        assert(plan@.map_values(|o: Outbound| o@) =~= error_plan(connection_id@, text@));
    }
    plan
}

// ---------------------------------------------------------------------------
// What one invocation does
// ---------------------------------------------------------------------------
/// The fan-out after a successful create: the snapshot to the whole roster.
pub open spec fn create_plan(l: LobbyV) -> Seq<OutboundV> {
    Seq::new(
        l.players.len(),
        |i: int|
            OutboundV {
                connection_id: l.players[i].connection_id,
                message: MessageV::CreateResponse { lobby: snapshot_of(l) },
            },
    )
}

/// The fan-out after a successful join: the snapshot to the whole roster.
pub open spec fn join_plan(l: LobbyV) -> Seq<OutboundV> {
    Seq::new(
        l.players.len(),
        |i: int|
            OutboundV {
                connection_id: l.players[i].connection_id,
                message: MessageV::JoinResponse { lobby: snapshot_of(l) },
            },
    )
}

/// The fan-out of a chat line: the sender's name and the text to every other
/// member, in roster order.
pub open spec fn chat_plan(l: LobbyV, sender_cid: Seq<u8>, sender_name: Seq<u8>, text: Seq<u8>) -> Seq<
    OutboundV,
> {
    let kept = l.players.filter(keep_other(sender_cid));
    Seq::new(
        kept.len(),
        |i: int|
            OutboundV {
                connection_id: kept[i].connection_id,
                message: MessageV::ChatResponse { name: sender_name, body: text },
            },
    )
}

/// The effect of a create request: either some fresh lobby was persisted and
/// its snapshot fanned out, or — only when the store already held a record a
/// code draw could collide with — the store is unchanged and the requester is
/// told the service is busy.
pub open spec fn create_post(
    m0: Map<Seq<u8>, LobbyV>,
    m1: Map<Seq<u8>, LobbyV>,
    plan: Seq<OutboundV>,
    cid: Seq<u8>,
    name: Seq<u8>,
    now: u64,
) -> bool {
    ||| (exists|l: LobbyV|
        {
            &&& l == crate::service::spec_created(l.id, name, cid, now)
            &&& crate::lobby::valid_code(l.id)
            &&& !m0.contains_key(l.id)
            &&& m1 == (#[trigger] m0.insert(l.id, l))
            &&& plan == create_plan(l)
        })
    ||| (m1 == m0 && plan == error_plan(cid, busy_text()) && (exists|k: Seq<u8>|
        #[trigger] m0.contains_key(k) && crate::lobby::valid_code(k)))
}

/// The effect of a join request, deterministic in the clock reading.
pub open spec fn join_post(
    m0: Map<Seq<u8>, LobbyV>,
    m1: Map<Seq<u8>, LobbyV>,
    plan: Seq<OutboundV>,
    cid: Seq<u8>,
    name: Seq<u8>,
    code: Seq<u8>,
    now: u64,
) -> bool {
    let step = spec_join(m0, code, name, cid, now);
    &&& m1 == step.0
    &&& match step.1 {
        Ok(l) => plan == join_plan(l),
        Err(ServiceError::NotFound) => plan == error_plan(cid, not_found_text()),
        Err(ServiceError::Busy) => plan == error_plan(cid, busy_text()),
    }
}

/// The effect of a chat request: no state change; the line goes to the other
/// members, or the requester is told what went wrong.
pub open spec fn chat_post(
    m0: Map<Seq<u8>, LobbyV>,
    m1: Map<Seq<u8>, LobbyV>,
    plan: Seq<OutboundV>,
    cid: Seq<u8>,
    code: Seq<u8>,
    text: Seq<u8>,
) -> bool {
    &&& m1 == m0
    &&& if !m0.contains_key(code) {
        plan == error_plan(cid, not_found_text())
    } else {
        let l = m0[code];
        if roster_has_cid(l.players, cid) {
            plan == chat_plan(l, cid, l.players[cid_index(l.players, cid)].name, text)
        } else {
            plan == error_plan(cid, not_member_text())
        }
    }
}

/// What one invocation, taken at clock reading `now`, does to the store and
/// puts on the wire, for every inbound body.
pub open spec fn deliver_post(
    m0: Map<Seq<u8>, LobbyV>,
    m1: Map<Seq<u8>, LobbyV>,
    plan: Seq<OutboundV>,
    cid: Seq<u8>,
    body: Seq<u8>,
    now: u64,
) -> bool {
    match parse_msg(body) {
        Some(MessageV::Create { name }) => create_post(m0, m1, plan, cid, name, now),
        Some(MessageV::Join { name, lobby_code }) => join_post(
            m0,
            m1,
            plan,
            cid,
            name,
            lobby_code,
            now,
        ),
        Some(MessageV::Chat { lobby_code, body: text }) => chat_post(
            m0,
            m1,
            plan,
            cid,
            lobby_code,
            text,
        ),
        Some(_) => m1 == m0 && plan.len() == 0,
        None => m1 == m0 && plan.len() == 0,
    }
}

/// One invocation at a given clock reading: decode, mutate, plan the fan-out.
pub fn deliver_at(repo: &mut LobbyRepo, connection_id: &Vec<u8>, body: &Vec<u8>, now: u64) -> (plan:
    Vec<Outbound>)
    requires
        old(repo).wf(),
    ensures
        final(repo).wf(),
        deliver_post(
            old(repo)@,
            final(repo)@,
            plan@.map_values(|o: Outbound| o@),
            connection_id@,
            body@,
            now,
        ),
{
    let busy: &[u8] = &[108, 111, 98, 98, 121, 32, 105, 115, 32, 98, 117, 115, 121];
    let not_found: &[u8] = &[108, 111, 98, 98, 121, 32, 110, 111, 116, 32, 102, 111, 117, 110,
        100];
    let not_member: &[u8] = &[110, 111, 116, 32, 105, 110, 32, 116, 104, 105, 115, 32, 108, 111,
        98, 98, 121];
    proof {
        assert(busy@ =~= busy_text());
        assert(not_found@ =~= not_found_text());
        assert(not_member@ =~= not_member_text());
    }
    match decode(body.as_slice()) {
        Some(Message::LobbyActionCreate(e)) => {
            match LobbyService::create(repo, now, &e.name, connection_id) {
                Ok(lobby) => {
                    let snap = Lobby::of_record(&lobby);
                    let msg = Message::LobbyActionCreateResponse(
                        LobbyActionCreateResponse { lobby: snap },
                    );
                    let plan = fan_out(&lobby.players, &msg);
                    proof {
                        assert(plan@.map_values(|o: Outbound| o@) =~= create_plan(lobby@));
                        assert(create_post(
                            old(repo)@,
                            repo@,
                            plan@.map_values(|o: Outbound| o@),
                            connection_id@,
                            e.name@,
                            now,
                        )) by {
                            let l = lobby@;
                            assert(repo@.insert(l.id, l) =~= repo@);
                        }
                    }
                    plan
                },
                Err(_) => error_response(connection_id, busy),
            }
        },
        Some(Message::LobbyActionJoin(e)) => {
            match LobbyService::join(repo, now, &e.lobby_code, &e.name, connection_id) {
                Ok(lobby) => {
                    let snap = Lobby::of_record(&lobby);
                    let msg = Message::LobbyActionJoinResponse(
                        LobbyActionJoinResponse { lobby: snap },
                    );
                    let plan = fan_out(&lobby.players, &msg);
                    proof {
                        assert(plan@.map_values(|o: Outbound| o@) =~= join_plan(lobby@));
                    }
                    plan
                },
                Err(ServiceError::NotFound) => error_response(connection_id, not_found),
                Err(ServiceError::Busy) => error_response(connection_id, busy),
            }
        },
        Some(Message::LobbyMessage(e)) => {
            match LobbyService::get(repo, &e.lobby_code) {
                Ok(lobby) => {
                    match lobby.connection_index(connection_id) {
                        Some(idx) => {
                            proof {
                                let ps = lobby@.players;
                                let k = cid_index(ps, connection_id@);
                                assert(0 <= k < ps.len() && ps[k].connection_id
                                    == connection_id@);
                                if k != idx as int {
                                    assert(false);
                                }
                            }
                            let msg = Message::LobbyMessageResponse(
                                LobbyMessageResponse {
                                    name: lobby.players[idx].name.clone(),
                                    body: e.body.clone(),
                                },
                            );
                            let plan = fan_out_except(&lobby.players, connection_id, &msg);
                            proof {
                                assert(lobby@.players =~= repo@[e.lobby_code@].players);
                                assert(plan@.map_values(|o: Outbound| o@) =~= chat_plan(
                                    repo@[e.lobby_code@],
                                    connection_id@,
                                    repo@[e.lobby_code@].players[cid_index(
                                        repo@[e.lobby_code@].players,
                                        connection_id@,
                                    )].name,
                                    e.body@,
                                ));
                            }
                            plan
                        },
                        None => error_response(connection_id, not_member),
                    }
                },
                Err(_) => error_response(connection_id, not_found),
            }
        },
        Some(_) => Vec::new(),
        None => Vec::new(),
    }
}

/// Relies on chrono's `Utc::now` (a reading of the system clock) and
/// `DateTime::timestamp_millis`. Two readings are unrelated, so nothing more
/// is promised of the result. `Utc::now` itself panics on a system clock set
/// before the Unix epoch — an environment failure no argument can influence;
/// on such a machine the caller's clamp of a negative reading is never
/// reached.
#[verifier::external_body]
fn now_millis() -> (t: i64) {
    chrono::Utc::now().timestamp_millis()
}

/// `deliver_post` at some clock reading: all an invocation promises when the
/// clock is read inside it.
pub open spec fn delivered(
    m0: Map<Seq<u8>, LobbyV>,
    m1: Map<Seq<u8>, LobbyV>,
    plan: Seq<OutboundV>,
    cid: Seq<u8>,
    body: Seq<u8>,
) -> bool {
    exists|now: u64| #[trigger] deliver_post(m0, m1, plan, cid, body, now)
}

/// One whole inbound invocation, stamped with the clock: what `deliver_at`
/// does at some reading of it.
pub fn deliver(repo: &mut LobbyRepo, event: Event) -> (plan: Vec<Outbound>)
    requires
        old(repo).wf(),
    ensures
        final(repo).wf(),
        delivered(
            old(repo)@,
            final(repo)@,
            plan@.map_values(|o: Outbound| o@),
            event.request_context.connection_id@,
            event.body@,
        ),
{
    let t = now_millis();
    let now: u64 = if t >= 0 {
        t as u64
    } else {
        0
    };
    let plan = deliver_at(repo, &event.request_context.connection_id, &event.body, now);
    proof {
        assert(deliver_post(
            old(repo)@,
            repo@,
            plan@.map_values(|o: Outbound| o@),
            event.request_context.connection_id@,
            event.body@,
            now,
        ));
    }
    plan
}

} // verus!
