use roulette_table::bets::Placement;
use roulette_table::coordinator::SpinTimerMessages;
use roulette_table::identity::id_hash;
use roulette_table::messages::{Bet as ShownBet, RequestMessages, ResponseMessages, Status};
use roulette_table::registry::Game;
use roulette_table::router::{handle, handle_close, handle_with, Connection, HandleError, Handled};

const A: u128 = 0xa1a2a3a4b1b2c1c2d1d2d3d4d5d6d7d8;
const B: u128 = 2;

fn unbound() -> Connection {
    Connection { player_id: None, table_id: None }
}

fn join(table: &str, player: Option<u128>, name: &str) -> RequestMessages {
    RequestMessages::JoinTable { table_id: table.to_string(), player_id: player, name: name.to_string() }
}

fn add_bet(label: &str, amount: i32) -> RequestMessages {
    RequestMessages::AddBet {
        label: label.to_string(),
        placement: Placement::Center,
        local_position: (0, 0),
        amount,
    }
}

fn error(text: &str) -> Handled {
    Handled {
        reply: Some(ResponseMessages::Error { msg: text.to_string() }),
        notice: None,
        message: None,
    }
}

fn seated(game: &mut Game, table: &str, player: u128, name: &str) -> Connection {
    let mut connection = unbound();
    handle_with(game, &mut connection, join(table, Some(player), name), 0, 0).unwrap();
    connection
}

#[test]
fn a_new_registry_has_no_tables() {
    let game = Game::default();
    assert!(game.tables.is_empty());
    assert_eq!(game.find("T1"), None);
    assert!(game.table("T1").is_none());
}

#[test]
fn joining_without_an_identifier_gives_a_fresh_one() {
    let mut game = Game::default();
    let mut a = unbound();
    let handled = handle(&mut game, &mut a, join("T1", None, "Ada")).unwrap();
    let id = match handled.reply {
        Some(ResponseMessages::JoinTable { player_id }) => player_id,
        other => panic!("no acknowledgment: {:?}", other),
    };
    assert_eq!((id >> 76) & 0xf, 4);
    assert_eq!((id >> 62) & 0x3, 2);
    assert_eq!(a.player_id, Some(id));
    assert_eq!(a.table_id, Some("T1".to_string()));
    assert!(handled.message.is_none());
    // nobody else is there to hear of it
    let notice = handled.notice.unwrap();
    assert_eq!(notice.recipients, Vec::<u128>::new());
    assert!(game.table("T1").unwrap().players.contains_key(&id));
}

#[test]
fn the_second_player_is_announced_to_the_first_alone() {
    let mut game = Game::default();
    let mut a = unbound();
    let first = handle(&mut game, &mut a, join("T1", None, "Ada")).unwrap();
    let a_id = a.player_id.unwrap();
    assert_eq!(first.reply, Some(ResponseMessages::JoinTable { player_id: a_id }));

    let mut b = unbound();
    let second = handle(&mut game, &mut b, join("T1", None, "Bob")).unwrap();
    let b_id = b.player_id.unwrap();
    assert_ne!(a_id, b_id);
    assert_eq!(second.reply, Some(ResponseMessages::JoinTable { player_id: b_id }));
    let notice = second.notice.unwrap();
    assert_eq!(notice.recipients, vec![a_id]);
    assert_eq!(
        notice.message,
        ResponseMessages::SomePlayerJoined {
            hash_id: id_hash(b_id),
            name: "Bob".to_string(),
            bet_amount: 0,
        }
    );
    assert_eq!(game.tables.len(), 1);
    assert_eq!(game.table("T1").unwrap().players.len(), 2);
}

#[test]
fn joining_with_a_fresh_identifier_at_hand_uses_it_only_if_none_is_brought() {
    let mut game = Game::default();
    let mut a = unbound();
    let handled = handle_with(&mut game, &mut a, join("T1", None, "Ada"), 77, 0).unwrap();
    assert_eq!(handled.reply, Some(ResponseMessages::JoinTable { player_id: 77 }));
    assert_eq!(a.player_id, Some(77));
    let mut b = unbound();
    let handled = handle_with(&mut game, &mut b, join("T1", Some(B), "Bob"), 78, 0).unwrap();
    assert_eq!(handled.reply, Some(ResponseMessages::JoinTable { player_id: B }));
    assert_eq!(b.player_id, Some(B));
    assert!(!game.table("T1").unwrap().players.contains_key(&78));
}

#[test]
fn tables_are_created_on_first_join_and_kept_apart() {
    let mut game = Game::default();
    let mut a = seated(&mut game, "T1", A, "Ada");
    let mut b = seated(&mut game, "T2", B, "Bob");
    assert_eq!(game.tables.len(), 2);
    assert_eq!(game.find("T1"), Some(0));
    assert_eq!(game.find("T2"), Some(1));
    assert_eq!(game.find("T3"), None);
    handle_with(&mut game, &mut a, add_bet("17", 100), 0, 0).unwrap();
    assert_eq!(game.table("T1").unwrap().players.get(&A).unwrap().bets.len(), 1);
    assert!(!game.table("T2").unwrap().players.contains_key(&A));
    assert!(game.table("T2").unwrap().players.get(&B).unwrap().bets.is_empty());
    let listing = handle_with(&mut game, &mut b, RequestMessages::ListPlayers, 0, 0).unwrap();
    match listing.reply {
        Some(ResponseMessages::ListPlayers { players }) => {
            assert_eq!(players.len(), 1);
            assert_eq!(players[0].name, "Bob");
        }
        other => panic!("no listing: {:?}", other),
    }
}

#[test]
fn a_returning_player_is_announced_with_name_and_total() {
    let mut game = Game::default();
    let mut a = seated(&mut game, "T1", A, "Ada");
    seated(&mut game, "T1", B, "Bob");
    handle_with(&mut game, &mut a, add_bet("17", 100), 0, 0).unwrap();
    handle_with(&mut game, &mut a, add_bet("18", 20), 0, 0).unwrap();

    let mut back = unbound();
    let handled = handle_with(&mut game, &mut back, join("T1", Some(A), "Ada again"), 5, 0).unwrap();
    assert_eq!(handled.reply, Some(ResponseMessages::JoinTable { player_id: A }));
    let notice = handled.notice.unwrap();
    assert_eq!(notice.recipients, vec![B]);
    assert_eq!(
        notice.message,
        ResponseMessages::SomePlayerJoined {
            hash_id: "622f95399b47734234893234bf33d14129a152ae4cecccec572c62e497db1fdb".to_string(),
            name: "Ada again".to_string(),
            bet_amount: 120,
        }
    );
    let seat = game.table("T1").unwrap().players.get(&A).unwrap();
    assert_eq!(seat.name, "Ada");
    assert_eq!(seat.bets.len(), 2);
    assert_eq!(seat.balance, 2500);
}

#[test]
fn requests_before_a_join_are_answered_with_an_error() {
    let requests = || {
        vec![
            add_bet("17", 10),
            RequestMessages::ClearBets,
            RequestMessages::RequestSpin,
            RequestMessages::GetStatus,
            RequestMessages::ListPlayers,
        ]
    };
    let mut game = Game::default();
    seated(&mut game, "T1", A, "Ada");
    for request in requests() {
        let mut connection = unbound();
        assert_eq!(
            handle(&mut game, &mut connection, request),
            Ok(error("No table has been joined"))
        );
        assert_eq!(connection, unbound());
    }
    for request in requests() {
        let mut half = Connection { player_id: Some(A), table_id: None };
        assert_eq!(handle(&mut game, &mut half, request), Ok(error("No table has been joined")));
    }
    for request in requests() {
        let mut half = Connection { player_id: None, table_id: Some("T1".to_string()) };
        assert_eq!(handle(&mut game, &mut half, request), Ok(error("No table has been joined")));
    }
    assert!(game.table("T1").unwrap().players.get(&A).unwrap().bets.is_empty());
}

#[test]
fn a_connection_bound_to_a_missing_table_is_an_error() {
    let mut game = Game::default();
    seated(&mut game, "T1", A, "Ada");
    for request in [
        add_bet("17", 10),
        RequestMessages::ClearBets,
        RequestMessages::RequestSpin,
        RequestMessages::GetStatus,
        RequestMessages::ListPlayers,
    ] {
        let mut lost = Connection { player_id: Some(A), table_id: Some("nowhere".to_string()) };
        assert_eq!(handle(&mut game, &mut lost, request), Err(HandleError::TableNotFound));
    }
    let lost = Connection { player_id: Some(A), table_id: Some("nowhere".to_string()) };
    assert_eq!(handle_close(&game, &lost), Err(HandleError::TableNotFound));
}

#[test]
fn a_connection_bound_to_a_missing_player_is_an_error() {
    let mut game = Game::default();
    seated(&mut game, "T1", A, "Ada");
    for request in [
        add_bet("17", 10),
        RequestMessages::ClearBets,
        RequestMessages::RequestSpin,
        RequestMessages::GetStatus,
    ] {
        let mut ghost = Connection { player_id: Some(B), table_id: Some("T1".to_string()) };
        assert_eq!(handle(&mut game, &mut ghost, request), Err(HandleError::PlayerNotFound));
    }
    // listing the players does not look the asking player up
    let mut ghost = Connection { player_id: Some(B), table_id: Some("T1".to_string()) };
    let listing = handle(&mut game, &mut ghost, RequestMessages::ListPlayers).unwrap();
    assert!(matches!(listing.reply, Some(ResponseMessages::ListPlayers { .. })));
}

#[test]
fn bets_are_routed_to_the_bound_seat() {
    let mut game = Game::default();
    let mut a = seated(&mut game, "T1", A, "Ada");
    let handled = handle(&mut game, &mut a, add_bet("17", 100)).unwrap();
    assert_eq!(
        handled,
        Handled {
            reply: Some(ResponseMessages::AddBet {
                bet: ShownBet::new("17".to_string(), Placement::Center, 100),
                balance: 2500,
                total_bet: 100,
            }),
            notice: None,
            message: None,
        }
    );
    // beyond the balance: no answer at all
    let handled = handle(&mut game, &mut a, add_bet("17", 2500)).unwrap();
    assert_eq!(handled, Handled { reply: None, notice: None, message: None });
    let handled = handle(&mut game, &mut a, RequestMessages::GetStatus).unwrap();
    assert_eq!(
        handled.reply,
        Some(ResponseMessages::Status {
            status: Status {
                bets: vec![ShownBet::new("17".to_string(), Placement::Center, 100)],
                balance: 2500,
                spin_requested: false,
            }
        })
    );
    let handled = handle(&mut game, &mut a, RequestMessages::ClearBets).unwrap();
    assert_eq!(handled.reply, Some(ResponseMessages::ClearBets));
    assert!(game.table("T1").unwrap().players.get(&A).unwrap().bets.is_empty());
}

#[test]
fn a_wager_must_stake_something() {
    let mut game = Game::default();
    let mut a = seated(&mut game, "T1", A, "Ada");
    for amount in [0, -1, i32::MIN] {
        assert_eq!(
            handle(&mut game, &mut a, add_bet("17", amount)),
            Ok(error("Bad Request: amount must be positive"))
        );
    }
    assert!(game.table("T1").unwrap().players.get(&A).unwrap().bets.is_empty());
}

#[test]
fn a_wager_before_a_join_is_answered_like_any_request_before_a_join() {
    let mut game = Game::default();
    seated(&mut game, "T1", A, "Ada");
    for amount in [100, 0, -1, i32::MIN] {
        let mut nobody = unbound();
        assert_eq!(
            handle(&mut game, &mut nobody, add_bet("17", amount)),
            Ok(error("No table has been joined"))
        );
        assert_eq!(nobody, unbound());
    }
    let mut lost = Connection { player_id: Some(A), table_id: Some("nowhere".to_string()) };
    assert_eq!(handle(&mut game, &mut lost, add_bet("17", 0)), Err(HandleError::TableNotFound));
    let mut ghost = Connection { player_id: Some(B), table_id: Some("T1".to_string()) };
    assert_eq!(handle(&mut game, &mut ghost, add_bet("17", 0)), Err(HandleError::PlayerNotFound));
    assert!(game.table("T1").unwrap().players.get(&A).unwrap().bets.is_empty());
}

#[test]
fn a_call_for_a_spin_is_passed_to_the_coordinator() {
    let mut game = Game::default();
    let mut a = seated(&mut game, "T1", A, "Ada");
    let mut b = seated(&mut game, "T1", B, "Bob");
    assert_eq!(handle(&mut game, &mut a, RequestMessages::RequestSpin), Ok(error("No bets added")));
    handle(&mut game, &mut a, add_bet("17", 10)).unwrap();
    handle(&mut game, &mut b, add_bet("17", 10)).unwrap();

    let handled = handle_with(&mut game, &mut a, RequestMessages::RequestSpin, 0, 1234).unwrap();
    assert_eq!(
        handled,
        Handled {
            reply: None,
            notice: None,
            message: Some(SpinTimerMessages::NewRequest { timestamp: 1234 }),
        }
    );
    assert!(game.table("T1").unwrap().spin_requests.contains(&A));
    assert_eq!(
        handle(&mut game, &mut a, RequestMessages::RequestSpin),
        Ok(error("No table has been joined"))
    );
    assert_eq!(handle(&mut game, &mut a, add_bet("18", 1)), Ok(error("Already requested for spin")));
    assert_eq!(handle(&mut game, &mut a, RequestMessages::ClearBets), Ok(error("No table has been joined")));
    assert_eq!(handle(&mut game, &mut a, RequestMessages::ListPlayers), Ok(error("No table has been joined")));

    let handled = handle(&mut game, &mut b, RequestMessages::RequestSpin).unwrap();
    assert_eq!(
        handled,
        Handled { reply: None, notice: None, message: Some(SpinTimerMessages::SudoRequest) }
    );
    assert!(!game.table("T1").unwrap().spin_requests.contains(&B));
}

#[test]
fn a_call_for_a_spin_is_stamped_with_the_time() {
    let mut game = Game::default();
    let mut a = seated(&mut game, "T1", A, "Ada");
    seated(&mut game, "T1", B, "Bob");
    handle(&mut game, &mut a, add_bet("17", 10)).unwrap();
    let handled = handle(&mut game, &mut a, RequestMessages::RequestSpin).unwrap();
    match handled.message {
        // some time after the year 2020
        Some(SpinTimerMessages::NewRequest { timestamp }) => assert!(timestamp > 1_577_836_800),
        other => panic!("no new request: {:?}", other),
    }
}

#[test]
fn closing_a_connection_tells_the_others_and_keeps_the_seat() {
    let mut game = Game::default();
    let mut a = seated(&mut game, "T1", A, "Ada");
    seated(&mut game, "T1", B, "Bob");
    handle(&mut game, &mut a, add_bet("17", 10)).unwrap();
    let notice = handle_close(&game, &a).unwrap().unwrap();
    assert_eq!(notice.recipients, vec![B]);
    assert_eq!(
        notice.message,
        ResponseMessages::SomePlayerLeft {
            hash_id: "622f95399b47734234893234bf33d14129a152ae4cecccec572c62e497db1fdb".to_string(),
        }
    );
    let seat = game.table("T1").unwrap().players.get(&A).unwrap();
    assert_eq!(seat.bets.len(), 1);
    assert_eq!(seat.balance, 2500);
}

#[test]
fn closing_a_connection_that_never_joined_tells_nobody() {
    let mut game = Game::default();
    seated(&mut game, "T1", A, "Ada");
    assert_eq!(handle_close(&game, &unbound()), Ok(None));
    assert_eq!(handle_close(&game, &Connection { player_id: Some(A), table_id: None }), Ok(None));
    assert_eq!(
        handle_close(&game, &Connection { player_id: None, table_id: Some("T1".to_string()) }),
        Ok(None)
    );
}

#[test]
fn joining_another_table_rebinds_the_connection() {
    let mut game = Game::default();
    let mut a = seated(&mut game, "T1", A, "Ada");
    handle(&mut game, &mut a, add_bet("17", 10)).unwrap();
    handle(&mut game, &mut a, join("T2", Some(A), "Ada")).unwrap();
    assert_eq!(a.table_id, Some("T2".to_string()));
    handle(&mut game, &mut a, add_bet("5", 7)).unwrap();
    assert_eq!(game.table("T1").unwrap().players.get(&A).unwrap().bets.len(), 1);
    let seat = game.table("T2").unwrap().players.get(&A).unwrap();
    assert_eq!(seat.bets.len(), 1);
    assert_eq!(seat.bets[0].label, "5");
}
