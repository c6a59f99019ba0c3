use hearts::codec::encode;
use hearts::dispatch::Event;
use hearts::dispatch::RequestContext;
use hearts::dispatch::deliver_at;
use hearts::dispatch::endpoint;
use hearts::dispatch::fan_out;
use hearts::dispatch::fan_out_except;
use hearts::lobby::Player;
use hearts::messages::LobbyActionCreate;
use hearts::messages::LobbyActionJoin;
use hearts::messages::LobbyMessage;
use hearts::messages::LobbyMessageResponse;
use hearts::messages::Message;
use hearts::repo::LobbyRepo;
use hearts::service::LobbyService;

fn db(s: &str) -> Vec<u8> {
    s.as_bytes().to_vec()
}

#[test]
fn formats_endpoint() {
    let ctx = RequestContext {
        connection_id: db("c1"),
        domain_name: db("xxx.execute-api.ca-central-1.amazonaws.com"),
        stage: db("dev"),
    };
    assert_eq!(
        endpoint(&ctx),
        db("https://xxx.execute-api.ca-central-1.amazonaws.com/dev")
    );
}

#[test]
fn event_message_decodes_the_body() {
    let event = Event {
        request_context: RequestContext {
            connection_id: db("c1"),
            domain_name: db("d"),
            stage: db("s"),
        },
        body: db("{\"type\":\"lobby_action_create\",\"name\":\"Host\"}"),
    };
    assert_eq!(
        event.message(),
        Some(Message::LobbyActionCreate(LobbyActionCreate { name: db("Host") }))
    );
}

#[test]
fn fan_out_reaches_every_player_with_the_same_snapshot() {
    let players = vec![
        Player { name: db("A"), connection_id: db("c1") },
        Player { name: db("B"), connection_id: db("c2") },
        Player { name: db("C"), connection_id: db("c3") },
    ];
    let msg = Message::LobbyMessageResponse(LobbyMessageResponse {
        name: db("A"),
        body: db("hi"),
    });
    let plan = fan_out(&players, &msg);
    assert_eq!(plan.len(), 3);
    for (i, outbound) in plan.iter().enumerate() {
        assert_eq!(outbound.connection_id, players[i].connection_id);
        assert_eq!(outbound.message, msg);
    }
}

#[test]
fn fan_out_except_skips_the_sender() {
    let players = vec![
        Player { name: db("A"), connection_id: db("c1") },
        Player { name: db("B"), connection_id: db("c2") },
        Player { name: db("C"), connection_id: db("c3") },
    ];
    let msg = Message::LobbyMessageResponse(LobbyMessageResponse {
        name: db("B"),
        body: db("hi"),
    });
    let plan = fan_out_except(&players, &db("c2"), &msg);
    assert_eq!(plan.len(), 2);
    assert_eq!(plan[0].connection_id, db("c1"));
    assert_eq!(plan[1].connection_id, db("c3"));
}

#[test]
fn create_request_is_answered_to_the_whole_roster() {
    let mut repo = LobbyRepo::new();
    let body = encode(&Message::LobbyActionCreate(LobbyActionCreate { name: db("Host") }));
    let plan = deliver_at(&mut repo, &db("c1"), &body, 1000);
    assert_eq!(plan.len(), 1);
    assert_eq!(plan[0].connection_id, db("c1"));
    match &plan[0].message {
        Message::LobbyActionCreateResponse(resp) => {
            assert_eq!(resp.lobby.players.len(), 1);
            assert_eq!(resp.lobby.players[0].name, db("Host"));
            assert_eq!(resp.lobby.players[0].connection_id, db("c1"));
            assert!(repo.get(&resp.lobby.id).is_some());
        },
        other => panic!("expected a create response, got {:?}", other),
    }
}

#[test]
fn join_request_fans_the_snapshot_to_both_members() {
    let mut repo = LobbyRepo::new();
    LobbyService::create_with_code(&mut repo, &db("ab12"), 1000, &db("Host"), &db("c1")).unwrap();
    let body = encode(&Message::LobbyActionJoin(LobbyActionJoin {
        name: db("Amigo"),
        lobby_code: db("ab12"),
    }));
    let plan = deliver_at(&mut repo, &db("c2"), &body, 2000);
    assert_eq!(plan.len(), 2);
    assert_eq!(plan[0].connection_id, db("c1"));
    assert_eq!(plan[1].connection_id, db("c2"));
    for outbound in plan.iter() {
        match &outbound.message {
            Message::LobbyActionJoinResponse(resp) => {
                assert_eq!(resp.lobby.id, db("ab12"));
                assert_eq!(resp.lobby.players.len(), 2);
                assert_eq!(resp.lobby.players[0].name, db("Host"));
                assert_eq!(resp.lobby.players[1].name, db("Amigo"));
            },
            other => panic!("expected a join response, got {:?}", other),
        }
    }
    assert_eq!(repo.get(&db("ab12")).unwrap().updated_at, 2000);
}

#[test]
fn join_of_unknown_lobby_answers_the_requester_with_an_error() {
    let mut repo = LobbyRepo::new();
    let body = encode(&Message::LobbyActionJoin(LobbyActionJoin {
        name: db("Amigo"),
        lobby_code: db("zz99"),
    }));
    let plan = deliver_at(&mut repo, &db("c2"), &body, 2000);
    assert_eq!(plan.len(), 1);
    assert_eq!(plan[0].connection_id, db("c2"));
    match &plan[0].message {
        Message::LobbyErrorResponse(resp) => {
            assert_eq!(resp.message, db("lobby not found"));
        },
        other => panic!("expected an error response, got {:?}", other),
    }
    assert!(repo.get(&db("zz99")).is_none());
}

#[test]
fn chat_goes_to_everyone_but_the_sender() {
    let mut repo = LobbyRepo::new();
    LobbyService::create_with_code(&mut repo, &db("ab12"), 10, &db("Host"), &db("c1")).unwrap();
    LobbyService::join(&mut repo, 20, &db("ab12"), &db("Amigo"), &db("c2")).unwrap();
    let body = encode(&Message::LobbyMessage(LobbyMessage {
        lobby_code: db("ab12"),
        body: db("howdy"),
    }));
    let plan = deliver_at(&mut repo, &db("c2"), &body, 30);
    assert_eq!(plan.len(), 1);
    assert_eq!(plan[0].connection_id, db("c1"));
    assert_eq!(
        plan[0].message,
        Message::LobbyMessageResponse(LobbyMessageResponse {
            name: db("Amigo"),
            body: db("howdy"),
        })
    );
    assert_eq!(repo.get(&db("ab12")).unwrap().updated_at, 20);
}

#[test]
fn chat_from_an_outsider_is_answered_with_an_error() {
    let mut repo = LobbyRepo::new();
    LobbyService::create_with_code(&mut repo, &db("ab12"), 10, &db("Host"), &db("c1")).unwrap();
    let body = encode(&Message::LobbyMessage(LobbyMessage {
        lobby_code: db("ab12"),
        body: db("howdy"),
    }));
    let plan = deliver_at(&mut repo, &db("c9"), &body, 30);
    assert_eq!(plan.len(), 1);
    assert_eq!(plan[0].connection_id, db("c9"));
    match &plan[0].message {
        Message::LobbyErrorResponse(resp) => {
            assert_eq!(resp.message, db("not in this lobby"));
        },
        other => panic!("expected an error response, got {:?}", other),
    }
}

#[test]
fn malformed_bodies_are_dropped_without_a_reply() {
    let mut repo = LobbyRepo::new();
    LobbyService::create_with_code(&mut repo, &db("ab12"), 10, &db("Host"), &db("c1")).unwrap();
    let plan = deliver_at(&mut repo, &db("c1"), &db("{\"type\":\"unknown_action\"}"), 30);
    assert_eq!(plan.len(), 0);
    let plan2 = deliver_at(&mut repo, &db("c1"), &db("garbage"), 30);
    assert_eq!(plan2.len(), 0);
    assert_eq!(repo.get(&db("ab12")).unwrap().updated_at, 10);
}

#[test]
fn inbound_response_messages_are_dropped() {
    let mut repo = LobbyRepo::new();
    let body = encode(&Message::LobbyMessageResponse(LobbyMessageResponse {
        name: db("X"),
        body: db("y"),
    }));
    let plan = deliver_at(&mut repo, &db("c1"), &body, 30);
    assert_eq!(plan.len(), 0);
}

#[test]
fn deliver_stamps_the_clock_itself() {
    let mut repo = LobbyRepo::new();
    let event = Event {
        request_context: RequestContext {
            connection_id: db("c1"),
            domain_name: db("example.test"),
            stage: db("dev"),
        },
        body: encode(&Message::LobbyActionCreate(LobbyActionCreate { name: db("Host") })),
    };
    let plan = hearts::dispatch::deliver(&mut repo, event);
    assert_eq!(plan.len(), 1);
    match &plan[0].message {
        Message::LobbyActionCreateResponse(resp) => {
            let stored = repo.get(&resp.lobby.id).unwrap();
            assert_eq!(stored.created_at, stored.updated_at);
            assert!(stored.created_at > 0);
        },
        other => panic!("expected a create response, got {:?}", other),
    }
}

#[test]
fn end_to_end_create_join_chat() {
    let mut repo = LobbyRepo::new();
    let create = encode(&Message::LobbyActionCreate(LobbyActionCreate { name: db("Host") }));
    let plan1 = deliver_at(&mut repo, &db("c1"), &create, 1000);
    let code = match &plan1[0].message {
        Message::LobbyActionCreateResponse(resp) => resp.lobby.id.clone(),
        other => panic!("expected a create response, got {:?}", other),
    };
    let join = encode(&Message::LobbyActionJoin(LobbyActionJoin {
        name: db("Amigo"),
        lobby_code: code.clone(),
    }));
    let plan2 = deliver_at(&mut repo, &db("c2"), &join, 2000);
    assert_eq!(plan2.len(), 2);
    let chat = encode(&Message::LobbyMessage(LobbyMessage {
        lobby_code: code.clone(),
        body: db("ready?"),
    }));
    let plan3 = deliver_at(&mut repo, &db("c1"), &chat, 3000);
    assert_eq!(plan3.len(), 1);
    assert_eq!(plan3[0].connection_id, db("c2"));
    let stored = repo.get(&code).unwrap();
    assert_eq!(stored.players.len(), 2);
    assert!(stored.updated_at > stored.created_at);
}
