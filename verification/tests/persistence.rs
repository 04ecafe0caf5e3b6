use ormos::aggregate::CommanderRow;
use ormos::aggregate::ParticipationRow;
use ormos::aggregate::aggregate_games;
use ormos::directory::PlayerDirectory;
use ormos::directory::RegisterError;
use ormos::directory::RegistrationOutcome;
use ormos::directory::is_unique_violation_code;
use ormos::directory::registration_response;
use ormos::messages::GamesResponse;
use ormos::messages::Player;
use ormos::messages::PlayerPayload;
use ormos::messages::PlayersResponse;
use ormos::store::GameStore;
use ormos::store::WriteError;
use ormos::store::build_write_plan;
use ormos::wire::GameSubmission;

fn player(name: &str, rank: usize, commanders: &[&str]) -> Player {
    Player {
        name: name.to_string(),
        commanders: commanders.iter().map(|c| c.to_string()).collect(),
        rank,
    }
}

#[test]
fn register_lookup_and_list() {
    let mut directory = PlayerDirectory::new();
    assert_eq!(directory.register("Ada".to_string()), Ok(0));
    assert_eq!(directory.register("Brook".to_string()), Ok(1));
    assert_eq!(directory.lookup(&"Ada".to_string()), Some(0));
    assert_eq!(directory.lookup(&"Brook".to_string()), Some(1));
    assert_eq!(directory.lookup(&"Chi".to_string()), None);
    assert_eq!(directory.list(), vec!["Ada".to_string(), "Brook".to_string()]);
    let response = PlayersResponse { names: directory.list() };
    assert_eq!(response.names.len(), 2);
    let request = PlayerPayload { name: "Chi".to_string() };
    assert_eq!(directory.register(request.name), Ok(2));
}

#[test]
fn second_registration_of_same_name_loses() {
    let mut directory = PlayerDirectory::new();
    assert_eq!(directory.register("Ada".to_string()), Ok(0));
    let second = directory.register("Ada".to_string());
    assert!(matches!(second, Err(RegisterError::AlreadyExists)));
    // No duplicate record was created and nothing else changed.
    assert_eq!(directory.list(), vec!["Ada".to_string()]);
    assert_eq!(directory.register("Brook".to_string()), Ok(1));
}

#[test]
fn registration_responses() {
    let ok = registration_response(RegistrationOutcome::Accepted);
    assert!(ok.success);
    assert_eq!(ok.error, None);

    let taken = registration_response(RegistrationOutcome::AlreadyExists);
    assert!(!taken.success);
    assert_eq!(taken.error, Some("Player already exists".to_string()));

    let down = registration_response(RegistrationOutcome::Failure {
        detail: "connection reset".to_string(),
    });
    assert!(!down.success);
    assert_eq!(down.error, Some("connection reset".to_string()));
}

#[test]
fn unique_violation_code_check() {
    assert!(is_unique_violation_code("23505"));
    assert!(!is_unique_violation_code("40001"));
    assert!(!is_unique_violation_code("2350"));
    assert!(!is_unique_violation_code("235055"));
    assert!(!is_unique_violation_code(""));
}

#[test]
fn write_plan_resolves_every_player() {
    let mut directory = PlayerDirectory::new();
    directory.register("Ada".to_string()).unwrap();
    directory.register("Brook".to_string()).unwrap();
    let sub = GameSubmission {
        start_time: 100,
        end_time: 200,
        players: vec![
            player("Brook", 1, &["Winota, Joiner of Forces"]),
            player("Ada", 2, &["Atraxa, Praetors' Voice"]),
        ],
    };
    let plan = build_write_plan(&directory, &sub).expect("all players known");
    assert_eq!(plan.start_time, 100);
    assert_eq!(plan.end_time, 200);
    assert_eq!(plan.participations.len(), 2);
    assert_eq!(plan.participations[0].player_id, 1);
    assert_eq!(plan.participations[0].rank, 1);
    assert_eq!(plan.participations[1].player_id, 0);
    assert_eq!(
        plan.participations[1].commanders,
        vec!["Atraxa, Praetors' Voice".to_string()]
    );
}

#[test]
fn unknown_player_aborts_whole_write() {
    let mut directory = PlayerDirectory::new();
    directory.register("Ada".to_string()).unwrap();
    let mut store = GameStore::new();
    let sub = GameSubmission {
        start_time: 100,
        end_time: 200,
        players: vec![
            player("Ada", 1, &["Atraxa, Praetors' Voice"]),
            player("Zed", 2, &["Krenko, Mob Boss"]),
        ],
    };
    let r = store.record_result(&directory, &sub);
    match r {
        Err(err @ WriteError::UnknownPlayer { .. }) => {
            assert_eq!(err.message(), "unknown player Zed");
        }
        Ok(_) => panic!("the write should have been aborted"),
    }
    // Nothing was written: the store is exactly as before.
    assert_eq!(store.games().len(), 0);
    assert_eq!(store.participations().len(), 0);
    assert_eq!(store.choices().len(), 0);
}

fn rows_of(store: &GameStore, directory: &PlayerDirectory) -> (Vec<ParticipationRow>, Vec<CommanderRow>) {
    let names = directory.list();
    let mut rows = Vec::new();
    for p in store.participations().iter() {
        let game = store
            .games()
            .iter()
            .find(|g| g.id == p.game_id)
            .expect("participation references a game");
        rows.push(ParticipationRow {
            game_id: p.game_id,
            participation_id: p.id,
            start_time: game.start_time,
            end_time: game.end_time,
            player_name: names[p.player_id as usize].clone(),
            rank: p.rank,
        });
    }
    let crows = store
        .choices()
        .iter()
        .map(|c| CommanderRow {
            participation_id: c.participation_id,
            commander: c.commander.clone(),
        })
        .collect();
    (rows, crows)
}

#[test]
fn accepted_submission_round_trips() {
    let mut directory = PlayerDirectory::new();
    directory.register("Ada".to_string()).unwrap();
    directory.register("Brook".to_string()).unwrap();
    let mut store = GameStore::new();
    let sub = GameSubmission {
        start_time: 1_700_000_000_000,
        end_time: 1_700_000_360_000,
        players: vec![
            player("Brook", 1, &["Halana, Kessig Ranger", "Alena, Kessig Trapper"]),
            player("Ada", 2, &["Atraxa, Praetors' Voice"]),
        ],
    };
    let gid = store.record_result(&directory, &sub).expect("accepted write");
    assert_eq!(gid, 0);

    let (rows, crows) = rows_of(&store, &directory);
    let games = aggregate_games(&rows, &crows);
    assert_eq!(games.len(), 1);
    let game = &games[0];
    assert_eq!(game.start_datetime, 1_700_000_000_000);
    assert_eq!(game.end_datetime, 1_700_000_360_000);
    assert_eq!(game.players.len(), 2);
    assert_eq!(game.players[0].name, "Brook");
    assert_eq!(game.players[0].rank, 1);
    assert_eq!(
        game.players[0].commanders,
        vec![
            "Halana, Kessig Ranger".to_string(),
            "Alena, Kessig Trapper".to_string()
        ]
    );
    assert_eq!(game.players[1].name, "Ada");
    assert_eq!(game.players[1].rank, 2);
    assert_eq!(
        game.players[1].commanders,
        vec!["Atraxa, Praetors' Voice".to_string()]
    );
}

#[test]
fn second_game_appends_to_the_view() {
    let mut directory = PlayerDirectory::new();
    directory.register("Ada".to_string()).unwrap();
    directory.register("Brook".to_string()).unwrap();
    let mut store = GameStore::new();
    let first = GameSubmission {
        start_time: 10,
        end_time: 20,
        players: vec![
            player("Ada", 1, &["Atraxa, Praetors' Voice"]),
            player("Brook", 2, &["Krenko, Mob Boss"]),
        ],
    };
    let second = GameSubmission {
        start_time: 30,
        end_time: 40,
        players: vec![
            player("Ada", 0, &["Atraxa, Praetors' Voice"]),
            player("Brook", 0, &["Krenko, Mob Boss"]),
        ],
    };
    assert_eq!(store.record_result(&directory, &first), Ok(0));
    assert_eq!(store.record_result(&directory, &second), Ok(1));

    let (rows, crows) = rows_of(&store, &directory);
    let games = aggregate_games(&rows, &crows);
    let response = GamesResponse { games };
    let games = &response.games;
    assert_eq!(games.len(), 2);
    assert_eq!(games[0].start_datetime, 10);
    assert_eq!(games[1].start_datetime, 30);
    assert_eq!(games[1].players[0].rank, 0);
    assert_eq!(games[1].players[1].rank, 0);
}

#[test]
fn aggregation_groups_interleaved_rows() {
    // Rows of two games arriving interleaved, as a join may produce them.
    let rows = vec![
        ParticipationRow {
            game_id: 7,
            participation_id: 1,
            start_time: 100,
            end_time: 200,
            player_name: "Ada".to_string(),
            rank: 1,
        },
        ParticipationRow {
            game_id: 9,
            participation_id: 2,
            start_time: 300,
            end_time: 400,
            player_name: "Brook".to_string(),
            rank: 2,
        },
        ParticipationRow {
            game_id: 7,
            participation_id: 3,
            start_time: 100,
            end_time: 200,
            player_name: "Chi".to_string(),
            rank: 2,
        },
        ParticipationRow {
            game_id: 9,
            participation_id: 4,
            start_time: 300,
            end_time: 400,
            player_name: "Devi".to_string(),
            rank: 1,
        },
    ];
    let crows = vec![
        CommanderRow {
            participation_id: 3,
            commander: "Krenko, Mob Boss".to_string(),
        },
        CommanderRow {
            participation_id: 1,
            commander: "Atraxa, Praetors' Voice".to_string(),
        },
        CommanderRow {
            participation_id: 2,
            commander: "Urza, Lord High Artificer".to_string(),
        },
        CommanderRow {
            participation_id: 4,
            commander: "Winota, Joiner of Forces".to_string(),
        },
    ];
    let games = aggregate_games(&rows, &crows);
    assert_eq!(games.len(), 2);
    assert_eq!(games[0].start_datetime, 100);
    assert_eq!(games[0].players.len(), 2);
    assert_eq!(games[0].players[0].name, "Ada");
    assert_eq!(
        games[0].players[0].commanders,
        vec!["Atraxa, Praetors' Voice".to_string()]
    );
    assert_eq!(games[0].players[1].name, "Chi");
    assert_eq!(games[1].start_datetime, 300);
    assert_eq!(games[1].players[0].name, "Brook");
    assert_eq!(games[1].players[1].name, "Devi");
}

#[test]
fn directory_rebuilds_only_from_consistent_rows() {
    let rows = vec![(0i64, "Ada".to_string()), (3, "Brook".to_string())];
    let d = PlayerDirectory::from_rows(rows).expect("consistent rows");
    assert_eq!(d.lookup(&"Ada".to_string()), Some(0));
    assert_eq!(d.lookup(&"Brook".to_string()), Some(3));
    assert!(PlayerDirectory::from_rows(Vec::new()).is_some());
    // A repeated name, a repeated id, or an unusable id is rejected.
    assert!(
        PlayerDirectory::from_rows(vec![(0, "Ada".to_string()), (1, "Ada".to_string())]).is_none()
    );
    assert!(
        PlayerDirectory::from_rows(vec![(2, "Ada".to_string()), (2, "Brook".to_string())])
            .is_none()
    );
    assert!(PlayerDirectory::from_rows(vec![(-1, "Ada".to_string())]).is_none());
    assert!(PlayerDirectory::from_rows(vec![(i64::MAX, "Ada".to_string())]).is_none());
}
