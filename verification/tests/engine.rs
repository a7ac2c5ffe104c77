use wirelobby::common::GlobalState;
use wirelobby::errors;
use wirelobby::game;
use wirelobby::gameplay::{CutOutcome, Game, Team};
use wirelobby::lobby;

fn code(text: &str) -> String {
    String::from(text)
}

fn lobby_at<'a>(st: &'a GlobalState, c: &str) -> Option<&'a wirelobby::gameplay::Lobby> {
    st.lobbys.iter().find(|e| e.0 == c).map(|e| &e.1)
}

fn game_at<'a>(st: &'a GlobalState, c: &str) -> Option<&'a Game> {
    st.games.iter().find(|e| e.0 == c).map(|e| &e.1)
}

fn filled_lobby(st: &mut GlobalState, c: &str, players: u32) {
    assert!(lobby::create(st, code(c)));
    for id in 1..=players {
        assert!(lobby::join(st, &code(c), id, format!("player{}", id)).is_ok());
        lobby::ready(st, &code(c), id, true);
    }
}

#[test]
fn scenario_four_players_start() {
    let mut st = GlobalState::new();
    assert!(lobby::create(&mut st, code("AAAA")));
    // the code is now taken, by either registry
    assert!(!lobby::create(&mut st, code("AAAA")));

    for id in 1..=4u32 {
        assert!(lobby::join(&mut st, &code("AAAA"), id, format!("player{}", id)).is_ok());
    }
    assert!(matches!(
        lobby::join(&mut st, &code("AAAA"), 2, code("twin")),
        Err(errors::JoinRequest::AlreadyConnected)
    ));
    assert!(matches!(
        lobby::join(&mut st, &code("ZZZZ"), 9, code("lost")),
        Err(errors::JoinRequest::UnknownRoom)
    ));

    // not everyone is ready yet
    assert!(matches!(
        lobby::start(&mut st, &code("AAAA")),
        Err(errors::Start::NotReady)
    ));
    for id in 1..=4u32 {
        lobby::ready(&mut st, &code("AAAA"), id, true);
    }

    let retired = lobby::start(&mut st, &code("AAAA")).unwrap();
    // every lobby stream was told to end with a Start event
    for p in retired.players() {
        assert!(matches!(
            p.mailbox.queue.last(),
            Some(lobby::Message::Start)
        ));
    }

    assert!(lobby_at(&st, "AAAA").is_none());
    let g = game_at(&st, "AAAA").expect("game registered under the same code");
    assert_eq!(g.players().len(), 4);
    let sherlock = g.players().iter().filter(|p| p.team == Team::Sherlock).count();
    let moriarty = g.players().iter().filter(|p| p.team == Team::Moriarty).count();
    assert_eq!(sherlock + moriarty, 4);
    assert!((2..=3).contains(&sherlock));
    // exactly one wire-cutter holder, among the four
    assert_eq!(
        g.players().iter().filter(|p| p.id == g.wire_cutters).count(),
        1
    );

    // a second start under the same code observes UnknownRoom, never a
    // duplicate game
    assert!(matches!(
        lobby::start(&mut st, &code("AAAA")),
        Err(errors::Start::UnknownRoom)
    ));
    assert_eq!(st.games.len(), 1);
}

#[test]
fn scenario_detach_reattach_and_sweep() {
    let mut st = GlobalState::new();
    filled_lobby(&mut st, "BBBB", 4);
    lobby::start(&mut st, &code("BBBB")).unwrap();

    assert!(matches!(
        game::attach_stream(&mut st, &code("NONE"), 1),
        Err(errors::Attach::UnknownRoom)
    ));
    assert!(matches!(
        game::attach_stream(&mut st, &code("BBBB"), 99),
        Err(errors::Attach::UnknownPlayer)
    ));

    assert!(game::attach_stream(&mut st, &code("BBBB"), 1).is_ok());
    assert!(matches!(
        game::attach_stream(&mut st, &code("BBBB"), 1),
        Err(errors::Attach::AlreadyAttached)
    ));

    // player 1 detaches mid-game; everyone hears about it
    let sweep = game::detach_stream(&mut st, &code("BBBB"), 1);
    assert!(sweep, "the last attached player left");
    {
        let g = game_at(&st, "BBBB").unwrap();
        let p2 = g.get_player(2).unwrap();
        assert!(matches!(
            p2.mailbox.queue.last(),
            Some(game::Message::Disconnect { player: 1 })
        ));
    }

    // a reconnect before the grace window elapses succeeds and catches up
    // through a fresh snapshot, never a replayed backlog
    assert!(game::attach_stream(&mut st, &code("BBBB"), 1).is_ok());
    {
        let g = game_at(&st, "BBBB").unwrap();
        let p1 = g.get_player(1).unwrap();
        assert_eq!(p1.mailbox.queue.len(), 3);
        assert!(matches!(
            p1.mailbox.queue[0],
            game::Message::Initialize { .. }
        ));
        assert!(matches!(
            p1.mailbox.queue[1],
            game::Message::RoundStart { .. }
        ));
        assert!(matches!(
            p1.mailbox.queue[2],
            game::Message::Connect { player: 1 }
        ));
    }

    // the sweep fires while the room is revived: it must leave it alone
    game::sweep_game(&mut st, &code("BBBB"));
    assert!(game_at(&st, "BBBB").is_some());

    // after the last detach and an undisturbed grace window, the room goes
    assert!(game::detach_stream(&mut st, &code("BBBB"), 1));
    game::sweep_game(&mut st, &code("BBBB"));
    assert!(game_at(&st, "BBBB").is_none());
}

#[test]
fn scenario_game_runs_to_a_win() {
    let mut st = GlobalState::new();
    filled_lobby(&mut st, "CCCC", 4);
    lobby::start(&mut st, &code("CCCC")).unwrap();

    let mut finished: Option<Game> = None;
    for _ in 0..64 {
        let (cutter, target) = {
            let g = game_at(&st, "CCCC").expect("game still running");
            let cutter = g.wire_cutters;
            let target = g
                .players()
                .iter()
                .filter(|p| p.id != cutter)
                .max_by_key(|p| p.cables.len())
                .map(|p| p.id)
                .unwrap();
            (cutter, target)
        };
        assert!(game::hand_size(&st, &code("CCCC"), target).unwrap() > 0);
        let (_, _, fin) = game::cut(&mut st, &code("CCCC"), cutter, target).unwrap();
        if let Some(g) = fin {
            finished = Some(g);
            break;
        }
    }
    let g = finished.expect("twenty cables cannot outlast sixty-four cuts");
    // the finished room was unregistered and every mailbox ends with Win
    assert!(game_at(&st, "CCCC").is_none());
    for p in g.players() {
        assert!(matches!(
            p.mailbox.queue.last(),
            Some(game::Message::Win { .. })
        ));
    }
    // conservation held to the very end
    let hands: usize = g.players().iter().map(|p| p.cables.len()).sum();
    let revealed: usize = g.players().iter().map(|p| p.revealed_cables.len()).sum();
    assert_eq!(hands + revealed, 20);
}

#[test]
fn cut_request_error_taxonomy() {
    let mut st = GlobalState::new();
    filled_lobby(&mut st, "DDDD", 4);
    lobby::start(&mut st, &code("DDDD")).unwrap();
    let holder = game_at(&st, "DDDD").unwrap().wire_cutters;
    let outsider = (1..=4u32).find(|id| *id != holder).unwrap();

    assert!(matches!(
        game::cut(&mut st, &code("MISS"), holder, outsider),
        Err(errors::CutRequest::UnknownRoom)
    ));
    assert!(matches!(
        game::cut(&mut st, &code("DDDD"), 99, outsider),
        Err(errors::CutRequest::CutterNotInGame)
    ));
    assert!(matches!(
        game::cut(&mut st, &code("DDDD"), holder, 99),
        Err(errors::CutRequest::TargetNotInGame)
    ));
    assert!(matches!(
        game::cut(&mut st, &code("DDDD"), outsider, holder),
        Err(errors::CutRequest::DontHaveWireCutter)
    ));
    assert!(matches!(
        game::cut(&mut st, &code("DDDD"), holder, holder),
        Err(errors::CutRequest::CannotSelfCut)
    ));
    // the failed requests left the game untouched
    let g = game_at(&st, "DDDD").unwrap();
    assert_eq!(g.wire_cutters, holder);
    assert_eq!(g.cutted_count, 0);
    assert_eq!(game::hand_size(&st, &code("DDDD"), holder), Some(5));
}

#[test]
fn lobby_lifecycle_leave_and_sweep() {
    let mut st = GlobalState::new();
    assert!(lobby::create(&mut st, code("EEEE")));

    // a lobby nobody ever joined is swept away
    lobby::sweep_lobby(&mut st, &code("EEEE"));
    assert!(lobby_at(&st, "EEEE").is_none());

    assert!(lobby::create(&mut st, code("FFFF")));
    assert!(lobby::join(&mut st, &code("FFFF"), 1, code("ada")).is_ok());
    assert!(lobby::join(&mut st, &code("FFFF"), 2, code("bob")).is_ok());

    // an inhabited lobby survives the sweep
    lobby::sweep_lobby(&mut st, &code("FFFF"));
    assert!(lobby_at(&st, "FFFF").is_some());

    // the newcomer's mailbox holds the snapshot, then the join echo
    {
        let l = lobby_at(&st, "FFFF").unwrap();
        let p2 = l.get_player(2).unwrap();
        assert_eq!(p2.mailbox.queue.len(), 2);
        if let lobby::Message::Initialize { lobby, players } = &p2.mailbox.queue[0] {
            assert_eq!(lobby, "FFFF");
            assert_eq!(players.len(), 2);
        } else {
            panic!("expected an Initialize snapshot first");
        }
        assert!(matches!(
            p2.mailbox.queue[1],
            lobby::Message::Join { .. }
        ));
    }

    lobby::leave(&mut st, &code("FFFF"), 1);
    {
        let l = lobby_at(&st, "FFFF").unwrap();
        assert_eq!(l.players().len(), 1);
        assert!(l.get_player(1).is_none());
        let p2 = l.get_player(2).unwrap();
        assert!(matches!(
            p2.mailbox.queue.last(),
            Some(lobby::Message::Leave { player: 1 })
        ));
    }

    // leaving an unknown player or room changes nothing
    lobby::leave(&mut st, &code("FFFF"), 77);
    lobby::leave(&mut st, &code("GONE"), 2);
    assert_eq!(lobby_at(&st, "FFFF").unwrap().players().len(), 1);

    // the last player out takes the room with them
    lobby::leave(&mut st, &code("FFFF"), 2);
    assert!(lobby_at(&st, "FFFF").is_none());
}

#[test]
fn ready_toggles_are_announced() {
    let mut st = GlobalState::new();
    assert!(lobby::create(&mut st, code("GGGG")));
    assert!(lobby::join(&mut st, &code("GGGG"), 5, code("eve")).is_ok());
    assert!(lobby::join(&mut st, &code("GGGG"), 6, code("mal")).is_ok());

    lobby::ready(&mut st, &code("GGGG"), 5, true);
    {
        let l = lobby_at(&st, "GGGG").unwrap();
        assert!(l.get_player(5).unwrap().ready);
        assert!(!l.get_player(6).unwrap().ready);
        assert!(matches!(
            l.get_player(6).unwrap().mailbox.queue.last(),
            Some(lobby::Message::Ready { player: 5, state: true })
        ));
    }
    lobby::ready(&mut st, &code("GGGG"), 5, false);
    assert!(!lobby_at(&st, "GGGG").unwrap().get_player(5).unwrap().ready);
    // unknown players and rooms are ignored
    lobby::ready(&mut st, &code("GGGG"), 42, true);
    lobby::ready(&mut st, &code("NOPE"), 5, true);
    assert_eq!(lobby_at(&st, "GGGG").unwrap().players().len(), 2);
}

#[test]
fn lobby_fills_up_at_eight() {
    let mut st = GlobalState::new();
    assert!(lobby::create(&mut st, code("HHHH")));
    for id in 1..=8u32 {
        assert!(lobby::join(&mut st, &code("HHHH"), id, format!("p{}", id)).is_ok());
    }
    assert!(matches!(
        lobby::join(&mut st, &code("HHHH"), 9, code("late")),
        Err(errors::JoinRequest::GameFull)
    ));
    assert_eq!(lobby_at(&st, "HHHH").unwrap().players().len(), 8);
}

#[test]
fn cut_announcements_reach_every_mailbox() {
    let mut st = GlobalState::new();
    filled_lobby(&mut st, "IIII", 4);
    lobby::start(&mut st, &code("IIII")).unwrap();
    let holder = game_at(&st, "IIII").unwrap().wire_cutters;
    let target = (1..=4u32).find(|id| *id != holder).unwrap();

    let (cable, outcome, fin) = game::cut(&mut st, &code("IIII"), holder, target).unwrap();
    if fin.is_none() {
        let g = game_at(&st, "IIII").unwrap();
        assert_eq!(g.wire_cutters, target);
        for p in g.players() {
            let heard = p.mailbox.queue.iter().any(|m| {
                if let game::Message::Cut { player, cable: c } = m {
                    *player == target && *c == cable
                } else {
                    false
                }
            });
            assert!(heard, "every player hears the cut");
        }
        if outcome == CutOutcome::RoundEnd {
            for p in g.players() {
                assert!(matches!(
                    p.mailbox.queue.last(),
                    Some(game::Message::RoundStart { .. })
                ));
            }
        }
    }
}
