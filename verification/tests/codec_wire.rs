use hearts::codec::decode;
use hearts::codec::encode;
use hearts::lobby::Player;
use hearts::messages::Lobby;
use hearts::messages::LobbyActionCreate;
use hearts::messages::LobbyActionCreateResponse;
use hearts::messages::LobbyActionJoin;
use hearts::messages::LobbyActionJoinResponse;
use hearts::messages::LobbyErrorResponse;
use hearts::messages::LobbyMessage;
use hearts::messages::LobbyMessageResponse;
use hearts::messages::Message;

fn cb(s: &str) -> Vec<u8> {
    s.as_bytes().to_vec()
}

fn sample_lobby() -> Lobby {
    Lobby {
        id: cb("ab12"),
        players: vec![
            Player { name: cb("Host"), connection_id: cb("c1") },
            Player { name: cb("Amigo"), connection_id: cb("c2") },
        ],
    }
}

#[test]
fn encode_create_is_tagged_json() {
    let m = Message::LobbyActionCreate(LobbyActionCreate { name: cb("Host") });
    assert_eq!(
        encode(&m),
        cb("{\"type\":\"lobby_action_create\",\"name\":\"Host\"}")
    );
}

#[test]
fn encode_join_is_tagged_json() {
    let m = Message::LobbyActionJoin(LobbyActionJoin {
        name: cb("Amigo"),
        lobby_code: cb("ab12"),
    });
    assert_eq!(
        encode(&m),
        cb("{\"type\":\"lobby_action_join\",\"name\":\"Amigo\",\"lobby_code\":\"ab12\"}")
    );
}

#[test]
fn encode_join_response_carries_the_snapshot() {
    let m = Message::LobbyActionJoinResponse(LobbyActionJoinResponse { lobby: sample_lobby() });
    let expected = "{\"type\":\"lobby_action_join_response\",\"lobby\":{\"id\":\"ab12\",\
                    \"players\":[{\"name\":\"Host\",\"connection_id\":\"c1\"},\
                    {\"name\":\"Amigo\",\"connection_id\":\"c2\"}]}}";
    assert_eq!(encode(&m), cb(expected));
}

#[test]
fn decode_create_from_plain_text() {
    let r = decode(b"{\"type\":\"lobby_action_create\",\"name\":\"Host\"}");
    assert_eq!(
        r,
        Some(Message::LobbyActionCreate(LobbyActionCreate { name: cb("Host") }))
    );
}

#[test]
fn decode_join_from_plain_text() {
    let r = decode(b"{\"type\":\"lobby_action_join\",\"name\":\"Amigo\",\"lobby_code\":\"hljk\"}");
    assert_eq!(
        r,
        Some(Message::LobbyActionJoin(LobbyActionJoin {
            name: cb("Amigo"),
            lobby_code: cb("hljk"),
        }))
    );
}

#[test]
fn decode_chat_from_plain_text() {
    let r = decode(b"{\"type\":\"lobby_message\",\"lobby_code\":\"ab12\",\"body\":\"howdy\"}");
    assert_eq!(
        r,
        Some(Message::LobbyMessage(LobbyMessage {
            lobby_code: cb("ab12"),
            body: cb("howdy"),
        }))
    );
}

#[test]
fn every_variant_round_trips() {
    let messages = vec![
        Message::LobbyActionCreate(LobbyActionCreate { name: cb("Host") }),
        Message::LobbyActionCreateResponse(LobbyActionCreateResponse { lobby: sample_lobby() }),
        Message::LobbyActionJoin(LobbyActionJoin { name: cb("Amigo"), lobby_code: cb("ab12") }),
        Message::LobbyActionJoinResponse(LobbyActionJoinResponse { lobby: sample_lobby() }),
        Message::LobbyMessage(LobbyMessage { lobby_code: cb("ab12"), body: cb("howdy") }),
        Message::LobbyMessageResponse(LobbyMessageResponse { name: cb("Host"), body: cb("hi") }),
        Message::LobbyErrorResponse(LobbyErrorResponse { message: cb("lobby not found") }),
    ];
    for m in messages {
        let bytes = encode(&m);
        assert_eq!(decode(bytes.as_slice()), Some(m));
    }
}

#[test]
fn quotes_and_backslashes_round_trip() {
    let m = Message::LobbyActionCreate(LobbyActionCreate {
        name: cb("a\"b\\c"),
    });
    let bytes = encode(&m);
    assert_eq!(bytes, cb("{\"type\":\"lobby_action_create\",\"name\":\"a\\\"b\\\\c\"}"));
    assert_eq!(decode(bytes.as_slice()), Some(m));
}

#[test]
fn empty_roster_round_trips() {
    let m = Message::LobbyActionCreateResponse(LobbyActionCreateResponse {
        lobby: Lobby { id: cb("ab12"), players: Vec::new() },
    });
    let bytes = encode(&m);
    assert_eq!(decode(bytes.as_slice()), Some(m));
}

#[test]
fn unknown_tag_is_rejected() {
    assert_eq!(decode(b"{\"type\":\"lobby_action_leave\",\"name\":\"X\"}"), None);
}

#[test]
fn malformed_bodies_are_rejected() {
    assert_eq!(decode(b""), None);
    assert_eq!(decode(b"{}"), None);
    assert_eq!(decode(b"{\"type\":\"lobby_action_create\"}"), None);
    assert_eq!(decode(b"{\"type\":\"lobby_action_create\",\"name\":\"Host\""), None);
    assert_eq!(decode(b"{\"type\":\"lobby_action_create\",\"name\":\"Host\"}x"), None);
    assert_eq!(decode(b"{\"type\":\"lobby_action_join\",\"name\":\"A\"}"), None);
    assert_eq!(decode(b"not json at all"), None);
}

#[test]
fn encoded_messages_are_json_a_real_parser_accepts() {
    let m = Message::LobbyActionJoinResponse(LobbyActionJoinResponse { lobby: sample_lobby() });
    let bytes = encode(&m);
    let v: serde_json::Value = serde_json::from_slice(bytes.as_slice()).expect("well-formed JSON");
    assert_eq!(v["type"], serde_json::Value::String("lobby_action_join_response".to_string()));
    assert_eq!(v["lobby"]["id"], serde_json::Value::String("ab12".to_string()));
    let players = v["lobby"]["players"].as_array().expect("an array roster");
    assert_eq!(players.len(), 2);
    assert_eq!(players[0]["name"], serde_json::Value::String("Host".to_string()));
    assert_eq!(players[1]["connection_id"], serde_json::Value::String("c2".to_string()));
}

#[test]
fn escaped_fields_agree_with_a_real_parser() {
    let m = Message::LobbyMessageResponse(LobbyMessageResponse {
        name: cb("A\"B"),
        body: cb("back\\slash"),
    });
    let bytes = encode(&m);
    let v: serde_json::Value = serde_json::from_slice(bytes.as_slice()).expect("well-formed JSON");
    assert_eq!(v["name"], serde_json::Value::String("A\"B".to_string()));
    assert_eq!(v["body"], serde_json::Value::String("back\\slash".to_string()));
}
