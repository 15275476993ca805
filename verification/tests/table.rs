use roulette_table::bets::{Bet, Placement};
use roulette_table::broadcast::broadcast_response_message;
use roulette_table::identity::id_hash;
use roulette_table::messages::{
    Bet as ShownBet, Player as ListedPlayer, ResponseMessages, Status,
};
use roulette_table::session::{Player, DEFAULT_BALANCE};
use roulette_table::table::{Table, TableError};

const A: u128 = 0xa1a2a3a4b1b2c1c2d1d2d3d4d5d6d7d8;
const B: u128 = 2;
const C: u128 = 3;

fn error(text: &str) -> ResponseMessages {
    ResponseMessages::Error { msg: text.to_string() }
}

fn sorted(mut ids: Vec<u128>) -> Vec<u128> {
    ids.sort();
    ids
}

fn status_of(table: &Table, id: u128) -> Status {
    match table.get_status(id) {
        Ok(ResponseMessages::Status { status }) => status,
        other => panic!("no status: {:?}", other),
    }
}

#[test]
fn a_new_table_is_empty_and_idle() {
    let table = Table::new();
    assert!(table.players.is_empty());
    assert!(table.spin_requests.is_empty());
    assert_eq!(table.coordinator.armed_since, None);
    assert_eq!(table.player_ids(), Vec::<u128>::new());
}

#[test]
fn a_first_join_creates_a_seat_with_the_default_balance() {
    let mut table = Table::new();
    table.join(A, "Ada");
    let seat = table.players.get(&A).unwrap();
    assert_eq!(seat.name, "Ada");
    assert_eq!(seat.balance, 2500);
    assert_eq!(DEFAULT_BALANCE, 2500);
    assert!(seat.bets.is_empty());
    assert!(seat.channel_open);
    assert_eq!(table.player_ids(), vec![A]);
}

#[test]
fn joining_again_reopens_the_channel_and_keeps_the_seat() {
    let mut table = Table::new();
    table.join(A, "Ada");
    table.add_bet(A, "17", Placement::Center, (0, 0), 100).unwrap();
    table.set_channel_open(A, false);
    assert!(!table.players.get(&A).unwrap().channel_open);
    table.join(A, "Someone else");
    let seat = table.players.get(&A).unwrap();
    assert!(seat.channel_open);
    assert_eq!(seat.name, "Ada");
    assert_eq!(seat.balance, 2500);
    assert_eq!(seat.bets.len(), 1);
    assert_eq!(seat.bets[0].label, "17");
    assert_eq!(table.players.len(), 1);
}

#[test]
fn channel_state_of_an_unknown_player_changes_nothing() {
    let mut table = Table::new();
    table.join(A, "Ada");
    table.set_channel_open(B, false);
    table.set_channel_open(B, true);
    assert_eq!(table.player_ids(), vec![A]);
    assert!(table.players.get(&A).unwrap().channel_open);
}

#[test]
fn add_bet_succeeds_within_the_balance_and_is_a_no_op_beyond_it() {
    let mut table = Table::new();
    table.join(A, "Ada");
    let reply = table.add_bet(A, "17", Placement::Center, (4, 5), 100);
    assert_eq!(
        reply,
        Ok(Some(ResponseMessages::AddBet {
            bet: ShownBet::new("17".to_string(), Placement::Center, 100),
            balance: 2500,
            total_bet: 100,
        }))
    );
    let seat = table.players.get(&A).unwrap();
    assert_eq!(seat.balance, 2500);
    assert_eq!(seat.total_bet(), 100);
    assert_eq!(seat.bets[0].local_position, (4, 5));

    let second = table.add_bet(A, "red", Placement::Center, (0, 0), 2500);
    assert_eq!(second, Ok(None));
    let seat = table.players.get(&A).unwrap();
    assert_eq!(seat.balance, 2500);
    assert_eq!(seat.bets.len(), 1);
    assert_eq!(seat.total_bet(), 100);
    let status = status_of(&table, A);
    assert_eq!(status.bets, vec![ShownBet::new("17".to_string(), Placement::Center, 100)]);
    assert_eq!(status.balance, 2500);
}

#[test]
fn a_bet_may_use_up_the_balance_exactly() {
    let mut table = Table::new();
    table.join(A, "Ada");
    assert!(matches!(
        table.add_bet(A, "17", Placement::Center, (0, 0), 2400),
        Ok(Some(ResponseMessages::AddBet { total_bet: 2400, balance: 2500, .. }))
    ));
    assert_eq!(table.add_bet(A, "18", Placement::Center, (0, 0), 101), Ok(None));
    assert!(matches!(
        table.add_bet(A, "18", Placement::Center, (0, 0), 100),
        Ok(Some(ResponseMessages::AddBet { total_bet: 2500, balance: 2500, .. }))
    ));
    assert_eq!(table.add_bet(A, "19", Placement::Center, (0, 0), 1), Ok(None));
    assert_eq!(table.players.get(&A).unwrap().bets.len(), 2);
}

#[test]
fn a_rejected_bet_never_raises_a_later_total() {
    let mut table = Table::new();
    table.join(A, "Ada");
    table.add_bet(A, "17", Placement::Center, (0, 0), 2000).unwrap();
    for amount in [501, 1000, 2500, i32::MAX] {
        assert_eq!(table.add_bet(A, "5", Placement::Center, (0, 0), amount), Ok(None));
        let status = status_of(&table, A);
        let total: i32 = status.bets.iter().map(|b| b.amount).sum();
        assert_eq!(total, 2000);
        assert_eq!(status.balance, 2500);
        assert_eq!(status.bets.len(), 1);
    }
}

#[test]
fn a_wager_of_nothing_or_less_is_never_stored() {
    let mut table = Table::new();
    table.join(A, "Ada");
    table.join(B, "Bob");
    table.add_bet(A, "17", Placement::Center, (0, 0), 100).unwrap();
    for amount in [0, -1, -100, i32::MIN] {
        assert_eq!(
            table.add_bet(A, "5", Placement::Center, (0, 0), amount),
            Ok(Some(error("Bad Request: amount must be positive")))
        );
        let seat = table.players.get(&A).unwrap();
        assert_eq!(seat.bets.len(), 1);
        assert_eq!(seat.total_bet(), 100);
        assert_eq!(seat.balance, 2500);
    }
    // an unknown player is an error, a pending call for a spin comes first
    assert_eq!(
        table.add_bet(C, "5", Placement::Center, (0, 0), 0),
        Err(TableError::PlayerNotFound)
    );
    table.request_spin(A, 7).unwrap();
    assert_eq!(
        table.add_bet(A, "5", Placement::Center, (0, 0), 0),
        Ok(Some(error("Already requested for spin")))
    );
}

#[test]
fn bets_of_unknown_players_are_errors() {
    let mut table = Table::new();
    table.join(A, "Ada");
    assert_eq!(
        table.add_bet(B, "17", Placement::Center, (0, 0), 1),
        Err(TableError::PlayerNotFound)
    );
    assert_eq!(table.clear_bets(B), Err(TableError::PlayerNotFound));
    assert_eq!(table.get_status(B), Err(TableError::PlayerNotFound));
    assert_eq!(table.request_spin(B, 7), Err(TableError::PlayerNotFound));
    assert_eq!(table.player_ids(), vec![A]);
}

#[test]
fn clear_bets_empties_the_ledger() {
    let mut table = Table::new();
    table.join(A, "Ada");
    table.add_bet(A, "17", Placement::Center, (0, 0), 100).unwrap();
    table.add_bet(A, "red", Placement::Center, (0, 0), 50).unwrap();
    assert_eq!(table.clear_bets(A), Ok(ResponseMessages::ClearBets));
    let seat = table.players.get(&A).unwrap();
    assert!(seat.bets.is_empty());
    assert_eq!(seat.balance, 2500);
    assert_eq!(table.clear_bets(A), Ok(ResponseMessages::ClearBets));
}

#[test]
fn a_pending_spin_request_blocks_bets_clearing_and_listing() {
    let mut table = Table::new();
    table.join(A, "Ada");
    table.join(B, "Bob");
    table.add_bet(A, "17", Placement::Center, (0, 0), 100).unwrap();
    table.request_spin(A, 7).unwrap();
    assert!(table.spin_requests.contains(&A));

    assert_eq!(
        table.add_bet(A, "18", Placement::Center, (0, 0), 1),
        Ok(Some(error("Already requested for spin")))
    );
    assert_eq!(table.clear_bets(A), Ok(error("No table has been joined")));
    assert_eq!(table.list_players(A), error("No table has been joined"));
    let seat = table.players.get(&A).unwrap();
    assert_eq!(seat.bets.len(), 1);
    assert_eq!(seat.total_bet(), 100);

    // the other player is not held back
    assert!(matches!(table.list_players(B), ResponseMessages::ListPlayers { .. }));
    assert!(table.add_bet(B, "18", Placement::Center, (0, 0), 1).unwrap().is_some());
}

#[test]
fn status_shows_bets_balance_and_spin_request() {
    let mut table = Table::new();
    table.join(A, "Ada");
    table.join(B, "Bob");
    assert_eq!(
        status_of(&table, A),
        Status { bets: Vec::new(), balance: 2500, spin_requested: false }
    );
    table.add_bet(A, "17", Placement::TopLeft, (1, 2), 10).unwrap();
    table.add_bet(A, "odd", Placement::Center, (0, 0), 20).unwrap();
    table.request_spin(A, 7).unwrap();
    assert_eq!(
        status_of(&table, A),
        Status {
            bets: vec![
                ShownBet::new("17".to_string(), Placement::TopLeft, 10),
                ShownBet::new("odd".to_string(), Placement::Center, 20),
            ],
            balance: 2500,
            spin_requested: true,
        }
    );
    assert!(!status_of(&table, B).spin_requested);
}

#[test]
fn status_from_table_reads_one_seat() {
    let mut table = Table::new();
    table.join(A, "Ada");
    table.add_bet(A, "17", Placement::Center, (9, 9), 10).unwrap();
    let seat = table.players.get(&A).unwrap();
    let status = Status::from_table(&table, seat, &A);
    assert_eq!(status.bets, vec![ShownBet::from(&seat.bets[0])]);
    assert_eq!(status.bets[0], ShownBet::new("17".to_string(), Placement::Center, 10));
    assert_eq!(status.balance, 2500);
    assert!(!status.spin_requested);
}

#[test]
fn list_players_names_every_seat_by_hash_name_and_total() {
    let mut table = Table::new();
    table.join(A, "Ada");
    table.join(B, "Bob");
    table.add_bet(A, "17", Placement::Center, (0, 0), 100).unwrap();
    table.add_bet(A, "18", Placement::Center, (0, 0), 11).unwrap();
    table.set_channel_open(B, false);
    let mut players = match table.list_players(C) {
        ResponseMessages::ListPlayers { players } => players,
        other => panic!("no listing: {:?}", other),
    };
    players.sort_by(|x, y| x.name.cmp(&y.name));
    assert_eq!(
        players,
        vec![
            ListedPlayer {
                name: "Ada".to_string(),
                id_hash: "622f95399b47734234893234bf33d14129a152ae4cecccec572c62e497db1fdb"
                    .to_string(),
                bet_amount: 111,
            },
            ListedPlayer { name: "Bob".to_string(), id_hash: id_hash(B), bet_amount: 0 },
        ]
    );
}

#[test]
fn listed_player_is_built_from_a_seat() {
    let seat = Player::new("Ada", vec![Bet::new("1".to_string(), Placement::Center, (0, 0), 7)]);
    let entry = ListedPlayer::from_player(&seat, &A);
    assert_eq!(entry.name, "Ada");
    assert_eq!(entry.id_hash, id_hash(A));
    assert_eq!(entry.bet_amount, 7);
}

#[test]
fn a_notice_reaches_open_channels_but_for_the_excluded() {
    let mut table = Table::new();
    table.join(A, "Ada");
    table.join(B, "Bob");
    table.join(C, "Cyd");
    assert_eq!(sorted(table.recipients(&Vec::new())), sorted(vec![A, B, C]));
    assert_eq!(sorted(table.recipients(&vec![B])), sorted(vec![A, C]));
    assert_eq!(sorted(table.recipients(&vec![B, B, 99])), sorted(vec![A, C]));
    table.set_channel_open(C, false);
    assert_eq!(sorted(table.recipients(&Vec::new())), sorted(vec![A, B]));
    assert_eq!(table.recipients(&vec![B]), vec![A]);
    assert_eq!(table.recipients(&vec![A, B]), Vec::<u128>::new());
    table.set_channel_open(C, true);
    assert_eq!(sorted(table.recipients(&vec![B])), sorted(vec![A, C]));
}

#[test]
fn broadcast_hands_the_message_on_unchanged() {
    let mut table = Table::new();
    table.join(A, "Ada");
    table.join(B, "Bob");
    let notice =
        broadcast_response_message(&table, Some(vec![A]), ResponseMessages::BeginSpinTimer { start: 5 });
    assert_eq!(notice.recipients, vec![B]);
    assert_eq!(notice.message, ResponseMessages::BeginSpinTimer { start: 5 });
    let notice = broadcast_response_message(&table, None, ResponseMessages::ClearBets);
    assert_eq!(sorted(notice.recipients), sorted(vec![A, B]));
    table.set_channel_open(A, false);
    table.set_channel_open(B, false);
    let notice = broadcast_response_message(&table, None, ResponseMessages::ClearBets);
    assert_eq!(notice.recipients, Vec::<u128>::new());
}

#[test]
fn a_seat_knows_its_total() {
    let seat = Player::new(
        "Ada",
        vec![
            Bet::new("1".to_string(), Placement::Center, (0, 0), 1000),
            Bet::new("2".to_string(), Placement::Center, (0, 0), 1500),
        ],
    );
    assert_eq!(seat.total_bet(), 2500);
    assert_eq!(seat.balance, 2500);
    assert_eq!(Player::new("Bob", Vec::new()).total_bet(), 0);
}
