use ormos::messages::BearerAuthFailureResponse;
use ormos::messages::CreateGamePayload;
use ormos::messages::Player;
use ormos::validate::Rejection;
use ormos::validate::validate;
use ormos::wire::WireError;
use ormos::wire::submission_from_wire;

fn player(name: &str, rank: usize, commanders: &[&str]) -> Player {
    Player {
        name: name.to_string(),
        commanders: commanders.iter().map(|c| c.to_string()).collect(),
        rank,
    }
}

fn lineup(ranks: &[usize]) -> Vec<Player> {
    let names = ["Ada", "Brook", "Chi", "Devi", "Emil"];
    ranks
        .iter()
        .enumerate()
        .map(|(i, &rank)| player(names[i], rank, &["Sol Commander"]))
        .collect()
}

#[test]
fn dense_rankings_accept() {
    assert!(validate(0, 1, &lineup(&[1, 2, 3])).is_ok());
    assert!(validate(0, 1, &lineup(&[1, 1, 3])).is_ok());
    assert!(validate(0, 1, &lineup(&[1, 2, 2])).is_ok());
    assert!(validate(0, 1, &lineup(&[2, 1])).is_ok());
    assert!(validate(0, 1, &lineup(&[1, 1, 3, 3, 5])).is_ok());
}

#[test]
fn gapped_rankings_reject() {
    assert!(matches!(
        validate(0, 1, &lineup(&[1, 3, 3])),
        Err(Rejection::RankGap { .. })
    ));
    assert!(matches!(
        validate(0, 1, &lineup(&[1, 1, 4, 4])),
        Err(Rejection::RankGap { .. })
    ));
    // With three players a rank of 4 is already out of bounds.
    assert!(matches!(
        validate(0, 1, &lineup(&[1, 1, 4])),
        Err(Rejection::RankOutOfBounds { .. })
    ));
}

#[test]
fn rank_gap_message_names_offender() {
    let r = validate(0, 1, &lineup(&[1, 3, 3]));
    match r {
        Err(rej @ Rejection::RankGap { .. }) => {
            assert_eq!(
                rej.message(),
                "invalid rank 3 for player Brook: expected 2 or a tie with a lower rank."
            );
        }
        other => panic!("expected a rank gap, got {:?}", other.is_ok()),
    }
}

#[test]
fn too_few_players_rejects() {
    assert!(matches!(
        validate(0, 1, &Vec::new()),
        Err(Rejection::TooFewPlayers)
    ));
    assert!(matches!(
        validate(0, 1, &lineup(&[1])),
        Err(Rejection::TooFewPlayers)
    ));
    let r = validate(0, 1, &Vec::new()).unwrap_err();
    assert_eq!(r.message(), "too few players.");
}

#[test]
fn full_draw_accepts() {
    assert!(validate(0, 1, &lineup(&[0, 0])).is_ok());
    assert!(validate(0, 1, &lineup(&[0, 0, 0])).is_ok());
}

#[test]
fn partial_draw_rejects() {
    let r = validate(0, 1, &lineup(&[0, 1]));
    assert!(matches!(r, Err(Rejection::PartialDraw)));
    assert_eq!(r.unwrap_err().message(), "partial draw not allowed.");
    assert!(matches!(
        validate(0, 1, &lineup(&[0, 1, 2])),
        Err(Rejection::PartialDraw)
    ));
}

#[test]
fn all_tied_for_first_rejects() {
    let r = validate(0, 1, &lineup(&[1, 1]));
    assert!(matches!(r, Err(Rejection::AllTiedForFirst)));
    assert_eq!(
        r.unwrap_err().message(),
        "all tied for first is not a valid non-draw result; use draw."
    );
    assert!(matches!(
        validate(0, 1, &lineup(&[1, 1, 1, 1])),
        Err(Rejection::AllTiedForFirst)
    ));
}

#[test]
fn end_not_after_start_rejects() {
    let r = validate(5, 5, &lineup(&[1, 2]));
    assert!(matches!(r, Err(Rejection::EndNotAfterStart)));
    assert_eq!(r.unwrap_err().message(), "end not after start.");
    assert!(matches!(
        validate(5, 4, &lineup(&[1, 2])),
        Err(Rejection::EndNotAfterStart)
    ));
    assert!(validate(5, 6, &lineup(&[1, 2])).is_ok());
}

#[test]
fn duplicate_player_rejects() {
    let players = vec![
        player("Ada", 1, &["Sol Commander"]),
        player("Ada", 2, &["Other Commander"]),
    ];
    let r = validate(0, 1, &players);
    assert!(matches!(r, Err(Rejection::DuplicatePlayer)));
    assert_eq!(r.unwrap_err().message(), "duplicate player.");
}

#[test]
fn duplicate_wins_over_bad_window() {
    // Checks apply in a fixed order: the duplicate name is reported even
    // though the time window is bad too.
    let players = vec![
        player("Ada", 1, &["Sol Commander"]),
        player("Ada", 2, &["Other Commander"]),
    ];
    assert!(matches!(
        validate(9, 3, &players),
        Err(Rejection::DuplicatePlayer)
    ));
}

#[test]
fn rank_out_of_bounds_rejects() {
    let r = validate(0, 1, &lineup(&[1, 5]));
    match r {
        Err(rej @ Rejection::RankOutOfBounds { .. }) => {
            assert_eq!(rej.message(), "rank out of bounds for player Brook.");
        }
        _ => panic!("expected out-of-bounds rejection"),
    }
}

#[test]
fn empty_commander_list_rejects() {
    let players = vec![player("Ada", 1, &["Sol Commander"]), player("Brook", 2, &[])];
    let r = validate(0, 1, &players);
    match r {
        Err(rej @ Rejection::NoCommanders { .. }) => {
            assert_eq!(rej.message(), "player Brook has no commanders.");
        }
        _ => panic!("expected missing-commanders rejection"),
    }
}

#[test]
fn empty_commander_name_rejects() {
    let players = vec![
        player("Ada", 1, &["Sol Commander"]),
        player("Brook", 2, &["Partner One", ""]),
    ];
    let r = validate(0, 1, &players);
    match r {
        Err(rej @ Rejection::EmptyCommanderName { .. }) => {
            assert_eq!(rej.message(), "player Brook has an empty commander name.");
        }
        _ => panic!("expected empty-commander-name rejection"),
    }
}

#[test]
fn draw_skips_rank_checks_but_not_commander_checks() {
    let players = vec![player("Ada", 0, &["Sol Commander"]), player("Brook", 0, &[])];
    assert!(matches!(
        validate(0, 1, &players),
        Err(Rejection::NoCommanders { .. })
    ));
}

#[test]
fn wire_parses_rfc3339_window() {
    let payload = CreateGamePayload {
        start_datetime: "2024-01-01T00:00:00Z".to_string(),
        end_datetime: "2024-01-01T01:30:00+00:00".to_string(),
        players: lineup(&[1, 2]),
    };
    let sub = submission_from_wire(payload).expect("window should parse");
    assert_eq!(sub.start_time, 1_704_067_200_000);
    assert_eq!(sub.end_time, 1_704_067_200_000 + 90 * 60 * 1000);
    assert_eq!(sub.players.len(), 2);
    assert_eq!(sub.players[0].name, "Ada");
    assert!(validate(sub.start_time, sub.end_time, &sub.players).is_ok());
}

#[test]
fn wire_rejects_bad_timestamps() {
    let bad_start = CreateGamePayload {
        start_datetime: "yesterday".to_string(),
        end_datetime: "2024-01-01T01:30:00Z".to_string(),
        players: lineup(&[1, 2]),
    };
    let r = submission_from_wire(bad_start);
    assert!(matches!(r, Err(WireError::BadStartTime)));
    assert_eq!(
        r.unwrap_err().message(),
        "start datetime is not valid RFC 3339."
    );

    let bad_end = CreateGamePayload {
        start_datetime: "2024-01-01T00:00:00Z".to_string(),
        end_datetime: "2024-01-32T00:00:00Z".to_string(),
        players: lineup(&[1, 2]),
    };
    let r = submission_from_wire(bad_end);
    assert!(matches!(r, Err(WireError::BadEndTime)));
    assert_eq!(r.unwrap_err().message(), "end datetime is not valid RFC 3339.");
}

#[test]
fn token_comparison() {
    let expected = "correct horse battery".to_string();
    assert!(ormos::token_matches(&"correct horse battery".to_string(), &expected));
    assert!(!ormos::token_matches(&"guess".to_string(), &expected));
    let failure = BearerAuthFailureResponse {
        success: false,
        error: "Incorrect bearer token provided.".to_string(),
    };
    assert!(!failure.success);
}

#[test]
fn rank_gap_message_renders_multi_digit_ranks() {
    let mut players: Vec<Player> = (0..12)
        .map(|i| player(&format!("P{}", i), 1, &["Sol Commander"]))
        .collect();
    players[11].rank = 11;
    match validate(0, 1, &players) {
        Err(rej @ Rejection::RankGap { .. }) => {
            assert_eq!(
                rej.message(),
                "invalid rank 11 for player P11: expected 12 or a tie with a lower rank."
            );
        }
        _ => panic!("expected a rank gap"),
    }
}
