use hearts::lobby::CODE_LEN;
use hearts::repo::LobbyRepo;
use hearts::service::LobbyService;
use hearts::service::LobbyServiceError;
use hearts::service::ServiceError;

fn sb(s: &str) -> Vec<u8> {
    s.as_bytes().to_vec()
}

#[test]
fn create_then_join_advances_roster_and_timestamp() {
    let mut repo = LobbyRepo::new();
    let lobby = LobbyService::create_with_code(&mut repo, &sb("ab12"), 1000, &sb("Host"), &sb("c1"))
        .expect("fresh code must be free");
    assert_eq!(lobby.id, sb("ab12"));
    assert_eq!(lobby.created_at, 1000);
    assert_eq!(lobby.updated_at, 1000);
    assert_eq!(lobby.players.len(), 1);
    assert_eq!(lobby.players[0].name, sb("Host"));
    assert_eq!(lobby.players[0].connection_id, sb("c1"));

    let joined = LobbyService::join(&mut repo, 2000, &sb("ab12"), &sb("Amigo"), &sb("c2"))
        .expect("join of an existing lobby");
    assert_eq!(joined.id, sb("ab12"));
    assert_eq!(joined.players.len(), 2);
    assert_eq!(joined.players[0].name, sb("Host"));
    assert_eq!(joined.players[1].name, sb("Amigo"));
    assert_eq!(joined.players[1].connection_id, sb("c2"));
    assert!(joined.updated_at > 1000);
    assert_eq!(joined.updated_at, 2000);
}

#[test]
fn join_same_connection_twice_is_idempotent() {
    let mut repo = LobbyRepo::new();
    LobbyService::create_with_code(&mut repo, &sb("ab12"), 10, &sb("Host"), &sb("c1")).unwrap();
    let first = LobbyService::join(&mut repo, 20, &sb("ab12"), &sb("Amigo"), &sb("c2")).unwrap();
    let again = LobbyService::join(&mut repo, 30, &sb("ab12"), &sb("Other"), &sb("c2")).unwrap();
    assert_eq!(again, first);
    assert_eq!(again.players.len(), 2);
    let stored = repo.get(&sb("ab12")).unwrap();
    assert_eq!(stored.players.len(), 2);
    assert_eq!(stored.updated_at, first.updated_at);
}

#[test]
fn join_unknown_lobby_is_not_found_and_writes_nothing() {
    let mut repo = LobbyRepo::new();
    LobbyService::create_with_code(&mut repo, &sb("ab12"), 10, &sb("Host"), &sb("c1")).unwrap();
    let r = LobbyService::join(&mut repo, 20, &sb("zz99"), &sb("Amigo"), &sb("c2"));
    assert_eq!(r, Err(ServiceError::NotFound));
    assert!(repo.get(&sb("zz99")).is_none());
    let stored = repo.get(&sb("ab12")).unwrap();
    assert_eq!(stored.players.len(), 1);
    assert_eq!(stored.updated_at, 10);
}

#[test]
fn update_with_stale_timestamp_fails_and_writes_nothing() {
    let mut repo = LobbyRepo::new();
    LobbyService::create_with_code(&mut repo, &sb("ab12"), 10, &sb("Host"), &sb("c1")).unwrap();
    let mut candidate = repo.get(&sb("ab12")).unwrap();
    candidate.players.push(hearts::lobby::Player {
        name: sb("Late"),
        connection_id: sb("c9"),
    });
    candidate.updated_at = 50;
    // The stored record carries updated_at == 10; an expectation of 7 is stale.
    let r = repo.update(&sb("ab12"), 7, &candidate);
    assert!(r.is_err());
    let stored = repo.get(&sb("ab12")).unwrap();
    assert_eq!(stored.players.len(), 1);
    assert_eq!(stored.updated_at, 10);
}

#[test]
fn update_with_current_timestamp_succeeds_and_advances() {
    let mut repo = LobbyRepo::new();
    LobbyService::create_with_code(&mut repo, &sb("ab12"), 10, &sb("Host"), &sb("c1")).unwrap();
    let mut candidate = repo.get(&sb("ab12")).unwrap();
    candidate.players.push(hearts::lobby::Player {
        name: sb("Amigo"),
        connection_id: sb("c2"),
    });
    candidate.updated_at = 50;
    let written = repo.update(&sb("ab12"), 10, &candidate).expect("matching expectation");
    assert_eq!(written.updated_at, 50);
    let stored = repo.get(&sb("ab12")).unwrap();
    assert_eq!(stored.players.len(), 2);
    assert!(stored.updated_at > 10);
}

#[test]
fn put_on_taken_code_is_a_conflict() {
    let mut repo = LobbyRepo::new();
    LobbyService::create_with_code(&mut repo, &sb("ab12"), 10, &sb("Host"), &sb("c1")).unwrap();
    let r = LobbyService::create_with_code(&mut repo, &sb("ab12"), 20, &sb("Other"), &sb("c2"));
    assert!(r.is_err());
    let stored = repo.get(&sb("ab12")).unwrap();
    assert_eq!(stored.players[0].name, sb("Host"));
}

#[test]
fn create_on_an_empty_store_always_succeeds() {
    // With nothing stored there is nothing a drawn code could collide with,
    // so create is never Busy here, whatever the draw.
    let mut repo = LobbyRepo::new();
    let lobby = LobbyService::create(&mut repo, 7, &sb("Host"), &sb("c1")).unwrap();
    assert_eq!(lobby.players.len(), 1);
    assert_eq!(repo.get(&lobby.id).unwrap(), lobby);
}

#[test]
fn create_draws_a_code_from_the_alphabet() {
    let mut repo = LobbyRepo::new();
    let lobby = LobbyService::create(&mut repo, 10, &sb("Host"), &sb("c1"))
        .expect("an empty store has room");
    assert_eq!(lobby.id.len(), CODE_LEN);
    for byte in lobby.id.iter() {
        assert!(byte.is_ascii_lowercase() || byte.is_ascii_digit());
    }
    let stored = repo.get(&lobby.id).unwrap();
    assert_eq!(stored.players.len(), 1);
}

#[test]
fn distinct_joiners_all_end_up_on_the_roster() {
    let mut repo = LobbyRepo::new();
    LobbyService::create_with_code(&mut repo, &sb("ab12"), 0, &sb("Host"), &sb("c0")).unwrap();
    for k in 1..6usize {
        let name = format!("Player{}", k);
        let cid = format!("c{}", k);
        LobbyService::join(&mut repo, k as u64, &sb("ab12"), &sb(&name), &sb(&cid)).unwrap();
    }
    let stored = repo.get(&sb("ab12")).unwrap();
    assert_eq!(stored.players.len(), 6);
    for k in 0..6usize {
        let cid = format!("c{}", k);
        assert_eq!(
            stored.players.iter().filter(|p| p.connection_id == sb(&cid)).count(),
            1
        );
    }
}

#[test]
fn join_when_clock_stands_still_advances_the_timestamp() {
    let mut repo = LobbyRepo::new();
    LobbyService::create_with_code(&mut repo, &sb("ab12"), 100, &sb("Host"), &sb("c1")).unwrap();
    let joined = LobbyService::join(&mut repo, 100, &sb("ab12"), &sb("Amigo"), &sb("c2")).unwrap();
    assert_eq!(joined.updated_at, 101);
}

#[test]
fn remove_connection_prunes_the_roster() {
    let mut repo = LobbyRepo::new();
    LobbyService::create_with_code(&mut repo, &sb("ab12"), 10, &sb("Host"), &sb("c1")).unwrap();
    LobbyService::join(&mut repo, 20, &sb("ab12"), &sb("Amigo"), &sb("c2")).unwrap();
    let pruned = LobbyService::remove_connection(&mut repo, 30, &sb("ab12"), &sb("c2")).unwrap();
    assert_eq!(pruned.players.len(), 1);
    assert_eq!(pruned.players[0].connection_id, sb("c1"));
    assert_eq!(pruned.updated_at, 30);
    let stored = repo.get(&sb("ab12")).unwrap();
    assert_eq!(stored.players.len(), 1);
}

#[test]
fn remove_connection_never_empties_the_roster() {
    let mut repo = LobbyRepo::new();
    LobbyService::create_with_code(&mut repo, &sb("ab12"), 10, &sb("Host"), &sb("c1")).unwrap();
    let kept = LobbyService::remove_connection(&mut repo, 30, &sb("ab12"), &sb("c1")).unwrap();
    assert_eq!(kept.players.len(), 1);
    let stored = repo.get(&sb("ab12")).unwrap();
    assert_eq!(stored.players.len(), 1);
    assert_eq!(stored.updated_at, 10);
}

#[test]
fn remove_unknown_connection_is_a_no_op() {
    let mut repo = LobbyRepo::new();
    LobbyService::create_with_code(&mut repo, &sb("ab12"), 10, &sb("Host"), &sb("c1")).unwrap();
    let kept = LobbyService::remove_connection(&mut repo, 30, &sb("ab12"), &sb("c9")).unwrap();
    assert_eq!(kept.players.len(), 1);
    assert_eq!(kept.updated_at, 10);
}

#[test]
fn remove_from_unknown_lobby_is_not_found() {
    let mut repo = LobbyRepo::new();
    let r = LobbyService::remove_connection(&mut repo, 30, &sb("zz99"), &sb("c1"));
    assert_eq!(r, Err(ServiceError::NotFound));
}

#[test]
fn get_returns_the_stored_record() {
    let mut repo = LobbyRepo::new();
    LobbyService::create_with_code(&mut repo, &sb("ab12"), 10, &sb("Host"), &sb("c1")).unwrap();
    let lobby = LobbyService::get(&repo, &sb("ab12")).unwrap();
    assert_eq!(lobby.id, sb("ab12"));
    assert_eq!(
        LobbyService::get(&repo, &sb("none")),
        Err(ServiceError::NotFound)
    );
}

#[test]
fn service_error_carries_its_message() {
    let e = LobbyServiceError::new("Could not get Lobby");
    assert_eq!(e.details, "Could not get Lobby".to_string());
    assert_eq!(e.message_bytes(), sb("Could not get Lobby"));
}
