use ormos::catalog::Card;
use ormos::catalog::CardFace;
use ormos::catalog::CardPart;
use ormos::catalog::commander_names;
use ormos::messages::BulkDataResponse;
use ormos::messages::CommandersResponse;
use ormos::snapshot::CatalogSnapshot;
use ormos::snapshot::FetchError;
use ormos::snapshot::SchedulerAction;
use ormos::snapshot::SchedulerEvent;
use ormos::snapshot::SchedulerPhase;
use ormos::snapshot::scheduler_step;
use ormos::snapshot::snapshot_from_text;
use ormos::snapshot::snapshot_round_trip;
use ormos::snapshot::snapshot_to_text;

fn card(name: &str, type_line: Option<&str>) -> Card {
    Card {
        name: name.to_string(),
        type_line: type_line.map(|t| t.to_string()),
        commander_legality: "legal".to_string(),
        games: vec!["paper".to_string(), "arena".to_string()],
        oracle_text: None,
        all_parts: None,
        card_faces: None,
    }
}

#[test]
fn catalog_filters_deduplicates_and_sorts() {
    let legendary = card(
        "Atraxa, Praetors' Voice",
        Some("Legendary Creature — Phyrexian Angel Horror"),
    );
    let background = card("Raised by Giants", Some("Enchantment — Background"));
    let mut double_faced = card("Esika, God of the Tree // The Prismatic Bridge", None);
    double_faced.card_faces = Some(vec![
        CardFace {
            name: "Esika, God of the Tree".to_string(),
            type_line: Some("Legendary Creature — God".to_string()),
        },
        CardFace {
            name: "The Prismatic Bridge".to_string(),
            type_line: Some("Legendary Enchantment — Saga".to_string()),
        },
    ]);
    let mut meld_result = card(
        "Brisela, Voice of Nightmares",
        Some("Legendary Creature — Eldrazi Angel"),
    );
    meld_result.all_parts = Some(vec![
        CardPart {
            component: "meld_part".to_string(),
            name: "Bruna, the Fading Light".to_string(),
        },
        CardPart {
            component: "meld_result".to_string(),
            name: "Brisela, Voice of Nightmares".to_string(),
        },
    ]);

    let second_printing = card(
        "Atraxa, Praetors' Voice",
        Some("Legendary Creature — Phyrexian Angel Horror"),
    );
    let cards = vec![background, meld_result, double_faced, legendary, second_printing];
    let names = commander_names(&cards);
    assert_eq!(
        names,
        vec![
            "Atraxa, Praetors' Voice".to_string(),
            "Esika, God of the Tree".to_string(),
            "Raised by Giants".to_string(),
        ]
    );
}

#[test]
fn catalog_skips_nonlegal_and_nonpaper_cards() {
    let mut not_legal = card("Golos, Tireless Pilgrim", Some("Legendary Creature — Artifact"));
    not_legal.commander_legality = "banned".to_string();
    let mut digital_only = card(
        "Davriel, Soul Broker",
        Some("Legendary Creature — Human Devil"),
    );
    digital_only.games = vec!["arena".to_string()];
    let plain = card("Grizzly Bears", Some("Creature — Bear"));
    let no_type = card("Mysterious Slip", None);
    let names = commander_names(&vec![not_legal, digital_only, plain, no_type]);
    assert_eq!(names, Vec::<String>::new());
}

#[test]
fn oracle_text_grants_eligibility() {
    let mut guff = card(
        "Commodore Guff",
        Some("Legendary Planeswalker — Guff"),
    );
    guff.oracle_text = Some("Commodore Guff can be your commander.".to_string());
    let names = commander_names(&vec![guff]);
    assert_eq!(names, vec!["Commodore Guff".to_string()]);
}

#[test]
fn fixed_exception_is_listed() {
    let grist = card("Grist, the Hunger Tide", Some("Legendary Planeswalker — Grist"));
    let names = commander_names(&vec![grist]);
    assert_eq!(names, vec!["Grist, the Hunger Tide".to_string()]);
}

#[test]
fn meld_part_that_is_its_own_card_stays() {
    // A meld part whose name differs from the meld result is a normal
    // legendary creature and stays listed.
    let mut bruna = card(
        "Bruna, the Fading Light",
        Some("Legendary Creature — Angel Horror"),
    );
    bruna.all_parts = Some(vec![CardPart {
        component: "meld_result".to_string(),
        name: "Brisela, Voice of Nightmares".to_string(),
    }]);
    let names = commander_names(&vec![bruna]);
    assert_eq!(names, vec!["Bruna, the Fading Light".to_string()]);
}

#[test]
fn failed_refresh_keeps_previous_snapshot() {
    let mut snapshot = CatalogSnapshot::new();
    assert!(!snapshot.has_snapshot());
    assert_eq!(snapshot.current(), Vec::<String>::new());

    let published = vec!["Atraxa, Praetors' Voice".to_string(), "Krenko, Mob Boss".to_string()];
    assert!(snapshot.publish(Ok(published.clone())).is_ok());
    assert!(snapshot.has_snapshot());
    assert_eq!(snapshot.current(), published);

    // A failed refresh leaves the published snapshot fully intact.
    let r = snapshot.publish(Err(FetchError::Network));
    assert!(matches!(r, Err(FetchError::Network)));
    assert!(snapshot.has_snapshot());
    assert_eq!(snapshot.current(), published);

    let r = snapshot.publish(Err(FetchError::Decode));
    assert!(matches!(r, Err(FetchError::Decode)));
    assert_eq!(snapshot.current(), published);

    let served = CommandersResponse { commanders: snapshot.current() };
    assert_eq!(served.commanders, published);
}

#[test]
fn bulk_data_location_is_plain_text() {
    let location = BulkDataResponse { download_uri: "https://example.invalid/cards".to_string() };
    assert!(location.download_uri.starts_with("https://"));
}

#[test]
fn scheduler_bootstraps_only_without_snapshot() {
    let (phase, action) = scheduler_step(
        SchedulerPhase::Idle,
        SchedulerEvent::Started { has_snapshot: false },
    );
    assert!(matches!(phase, SchedulerPhase::Refreshing));
    assert!(matches!(action, SchedulerAction::Refresh));

    let (phase, action) = scheduler_step(
        SchedulerPhase::Idle,
        SchedulerEvent::Started { has_snapshot: true },
    );
    assert!(matches!(phase, SchedulerPhase::Idle));
    assert!(matches!(action, SchedulerAction::Sleep));
}

#[test]
fn scheduler_loops_forever() {
    let (phase, action) = scheduler_step(SchedulerPhase::Idle, SchedulerEvent::PeriodElapsed);
    assert!(matches!(phase, SchedulerPhase::Refreshing));
    assert!(matches!(action, SchedulerAction::Refresh));

    let (phase, action) = scheduler_step(phase, SchedulerEvent::RefreshFinished);
    assert!(matches!(phase, SchedulerPhase::Idle));
    assert!(matches!(action, SchedulerAction::Sleep));

    let (phase, action) = scheduler_step(phase, SchedulerEvent::PeriodElapsed);
    assert!(matches!(phase, SchedulerPhase::Refreshing));
    assert!(matches!(action, SchedulerAction::Refresh));
}

#[test]
fn snapshot_text_round_trip() {
    let names = vec!["Atraxa, Praetors' Voice".to_string(), "Krenko, Mob Boss".to_string()];
    let text = snapshot_to_text(&names);
    assert_eq!(text, "[\"Atraxa, Praetors' Voice\",\"Krenko, Mob Boss\"]");
    assert_eq!(snapshot_from_text(&text), Some(names.clone()));
    assert_eq!(snapshot_round_trip(&names), Some(names));
    assert_eq!(snapshot_from_text("not a snapshot"), None);
    assert_eq!(snapshot_from_text("[]"), Some(Vec::<String>::new()));
}
