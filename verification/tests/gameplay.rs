use wirelobby::common::Mailbox;
use wirelobby::errors;
use wirelobby::game;
use wirelobby::gameplay::{Cable, CutOutcome, Game, Lobby, Team};
use wirelobby::lobby;

fn ready_player(id: u32, name: &str) -> lobby::Player {
    let mut p = lobby::Player::new(id, String::from(name));
    p.ready = true;
    p
}

fn ready_lobby(n: u32) -> Lobby {
    let mut l = Lobby::new(String::from("ROOM01"));
    for id in 1..=n {
        assert!(l.add_player(ready_player(id, "player")).is_ok());
    }
    l
}

fn game_player(id: u32, team: Team, cables: Vec<Cable>, revealed: Vec<Cable>) -> game::Player {
    game::Player {
        id,
        name: format!("p{}", id),
        team,
        cables,
        revealed_cables: revealed,
        mailbox: Mailbox::new(),
    }
}

fn count_kind(cables: &[Cable], kind: Cable) -> usize {
    cables.iter().filter(|c| **c == kind).count()
}

fn totals(g: &Game) -> (usize, usize) {
    let hands: usize = g.players().iter().map(|p| p.cables.len()).sum();
    let revealed: usize = g.players().iter().map(|p| p.revealed_cables.len()).sum();
    (hands, revealed)
}

#[test]
fn team_sizes_and_cable_census_for_every_count() {
    for n in 4..=8u32 {
        let l = ready_lobby(n);
        assert!(l.may_start());
        let g = l.start();
        let n = n as usize;

        let sherlock = g.players().iter().filter(|p| p.team == Team::Sherlock).count();
        let moriarty = g.players().iter().filter(|p| p.team == Team::Moriarty).count();
        let (s_quota, m_quota) = match n {
            4 | 5 => (3, 2),
            6 => (4, 2),
            _ => (5, 3),
        };
        assert_eq!(sherlock + moriarty, n);
        assert!(sherlock <= s_quota);
        assert!(moriarty <= m_quota);
        if s_quota + m_quota == n {
            // the table row fits the roster exactly, so the sizes are exact
            assert_eq!(sherlock, s_quota);
            assert_eq!(moriarty, m_quota);
        }

        let mut safe = 0;
        let mut defusing = 0;
        let mut bomb = 0;
        for p in g.players() {
            assert_eq!(p.cables.len(), 5);
            assert_eq!(p.revealed_cables.len(), 0);
            safe += count_kind(&p.cables, Cable::Safe);
            defusing += count_kind(&p.cables, Cable::Defusing);
            bomb += count_kind(&p.cables, Cable::Bomb);
        }
        assert_eq!(safe, n * 5 - n - 1);
        assert_eq!(defusing, n);
        assert_eq!(bomb, 1);
        assert_eq!(safe + defusing + bomb, n * 5);

        assert_eq!(g.defusing_remaining, n);
        assert_eq!(g.cutted_count, 0);
        assert!(g.players().iter().any(|p| p.id == g.wire_cutters));
        assert_eq!(g.name(), "ROOM01");
    }
}

#[test]
fn cable_total_is_conserved_over_cuts_and_rounds() {
    let l = ready_lobby(4);
    let mut g = l.start();
    assert_eq!(totals(&g), (20, 0));

    for _ in 0..12 {
        let cutter = g.wire_cutters;
        // pick the fullest hand among the other players
        let target = g
            .players()
            .iter()
            .filter(|p| p.id != cutter)
            .max_by_key(|p| p.cables.len())
            .map(|p| p.id)
            .unwrap();
        let (hands_before, revealed_before) = totals(&g);
        assert_eq!(hands_before + revealed_before, 20);
        let (_, outcome) = g.cut(cutter, target).unwrap();
        let (hands, revealed) = totals(&g);
        assert_eq!(hands + revealed, 20);
        assert_eq!(hands, hands_before - 1);
        assert_eq!(revealed, revealed_before + 1);
        assert_eq!(g.wire_cutters, target);
        match outcome {
            CutOutcome::Win(_) => break,
            CutOutcome::RoundEnd => {
                if g.next_round() {
                    break;
                }
                let (hands, revealed) = totals(&g);
                assert_eq!(hands + revealed, 20);
            }
            CutOutcome::Nothing => {}
        }
    }
}

#[test]
fn read_queries_do_not_mutate() {
    let l = ready_lobby(5);
    let g = l.start();
    let holder_a = g.wire_cutters;
    let names_a: Vec<u32> = g.players().iter().map(|p| p.id).collect();
    let holder_b = g.wire_cutters;
    let names_b: Vec<u32> = g.players().iter().map(|p| p.id).collect();
    assert_eq!(holder_a, holder_b);
    assert_eq!(names_a, names_b);
    assert_eq!(g.name(), g.name());
    assert!(g.get_player(holder_a).is_some());
    assert!(g.get_player(holder_a).is_some());
}

#[test]
fn cut_without_token_always_fails() {
    let l = ready_lobby(4);
    let mut g = l.start();
    let holder = g.wire_cutters;
    let outsider = g.players().iter().map(|p| p.id).find(|id| *id != holder).unwrap();
    let counters = (g.defusing_remaining, g.cutted_count);

    // whatever the target: the holder, a third player, or the cutter itself
    for target in [holder, outsider, 12345] {
        let r = g.cut(outsider, target);
        assert!(matches!(r, Err(errors::Cut::DontHaveWireCutter)));
        assert_eq!(g.wire_cutters, holder);
        assert_eq!((g.defusing_remaining, g.cutted_count), counters);
    }
}

#[test]
fn self_cut_always_fails() {
    let l = ready_lobby(4);
    let mut g = l.start();
    let holder = g.wire_cutters;
    let r = g.cut(holder, holder);
    assert!(matches!(r, Err(errors::Cut::CannotSelfCut)));
    assert_eq!(g.wire_cutters, holder);
    assert_eq!(totals(&g), (20, 0));
}

#[test]
fn bomb_cut_wins_for_saboteurs_immediately() {
    let mut g = Game {
        name: String::from("BOMBED"),
        players: vec![
            game_player(1, Team::Moriarty, vec![Cable::Bomb; 5], Vec::new()),
            game_player(2, Team::Sherlock, vec![Cable::Safe; 5], Vec::new()),
            game_player(3, Team::Sherlock, vec![Cable::Safe; 5], Vec::new()),
            game_player(4, Team::Sherlock, vec![Cable::Safe; 5], Vec::new()),
        ],
        wire_cutters: 2,
        defusing_remaining: 0,
        cutted_count: 0,
    };
    let (cable, outcome) = g.cut(2, 1).unwrap();
    assert_eq!(cable, Cable::Bomb);
    assert_eq!(outcome, CutOutcome::Win(Team::Moriarty));
    // the bomb short-circuits: no counter was touched
    assert_eq!(g.cutted_count, 0);
    assert_eq!(g.defusing_remaining, 0);
    assert_eq!(g.wire_cutters, 1);
    assert_eq!(g.players()[0].revealed_cables, vec![Cable::Bomb]);
    assert_eq!(g.players()[0].cables.len(), 4);
}

#[test]
fn last_defusing_cut_wins_for_investigators_not_before() {
    let filler = vec![Cable::Safe; 4];
    let mut g = Game {
        name: String::from("DEFUSE"),
        players: vec![
            game_player(1, Team::Sherlock, vec![Cable::Defusing], filler.clone()),
            game_player(2, Team::Sherlock, vec![Cable::Defusing], filler.clone()),
            game_player(3, Team::Sherlock, vec![Cable::Safe], filler.clone()),
            game_player(4, Team::Moriarty, vec![Cable::Safe], filler.clone()),
        ],
        wire_cutters: 3,
        defusing_remaining: 2,
        cutted_count: 0,
    };
    let (cable, outcome) = g.cut(3, 1).unwrap();
    assert_eq!(cable, Cable::Defusing);
    // one defusing cable is still hidden: no win yet
    assert_eq!(outcome, CutOutcome::Nothing);
    assert_eq!(g.defusing_remaining, 1);
    assert_eq!(g.cutted_count, 1);

    let (cable, outcome) = g.cut(1, 2).unwrap();
    assert_eq!(cable, Cable::Defusing);
    // this cut brings the counter to zero: the win fires now
    assert_eq!(outcome, CutOutcome::Win(Team::Sherlock));
    assert_eq!(g.defusing_remaining, 0);
}

#[test]
fn round_ends_after_one_cut_per_player() {
    let mut g = Game {
        name: String::from("ROUNDS"),
        players: vec![
            game_player(1, Team::Sherlock, vec![Cable::Safe; 5], Vec::new()),
            game_player(2, Team::Sherlock, vec![Cable::Safe; 5], Vec::new()),
            game_player(3, Team::Sherlock, vec![Cable::Safe; 5], Vec::new()),
            game_player(
                4,
                Team::Moriarty,
                vec![Cable::Defusing, Cable::Safe, Cable::Safe, Cable::Safe],
                vec![Cable::Safe],
            ),
        ],
        wire_cutters: 1,
        defusing_remaining: 1,
        cutted_count: 1,
    };
    // pretend one cut already happened this round; three more close it
    let (_, outcome) = g.cut(1, 2).unwrap();
    assert_eq!(outcome, CutOutcome::Nothing);
    assert_eq!(g.cutted_count, 2);
    let (_, outcome) = g.cut(2, 3).unwrap();
    assert_eq!(outcome, CutOutcome::Nothing);
    assert_eq!(g.cutted_count, 3);
    let (_, outcome) = g.cut(3, 1).unwrap();
    assert_eq!(outcome, CutOutcome::RoundEnd);
    assert_eq!(g.cutted_count, 4);
}

#[test]
fn next_round_redistributes_evenly() {
    let mut g = Game {
        name: String::from("REDEAL"),
        players: vec![
            game_player(1, Team::Sherlock, vec![Cable::Safe; 5], vec![Cable::Safe; 3]),
            game_player(
                2,
                Team::Sherlock,
                vec![Cable::Safe, Cable::Safe, Cable::Defusing],
                vec![Cable::Safe; 3],
            ),
            game_player(3, Team::Sherlock, Vec::new(), vec![Cable::Safe; 3]),
            game_player(4, Team::Moriarty, Vec::new(), vec![Cable::Safe; 3]),
        ],
        wire_cutters: 1,
        defusing_remaining: 1,
        cutted_count: 4,
    };
    let over = g.next_round();
    assert!(!over);
    assert_eq!(g.cutted_count, 0);
    assert_eq!(g.defusing_remaining, 1);
    let mut defusing = 0;
    for p in g.players() {
        assert_eq!(p.cables.len(), 2);
        defusing += count_kind(&p.cables, Cable::Defusing);
    }
    assert_eq!(defusing, 1);
    assert_eq!(totals(&g), (8, 12));
}

#[test]
fn next_round_detects_exhaustion() {
    let mut g = Game {
        name: String::from("LASTONE"),
        players: vec![
            game_player(1, Team::Sherlock, vec![Cable::Safe], vec![Cable::Safe; 4]),
            game_player(2, Team::Sherlock, vec![Cable::Defusing], vec![Cable::Safe; 4]),
            game_player(3, Team::Sherlock, vec![Cable::Safe], vec![Cable::Safe; 4]),
            game_player(4, Team::Moriarty, vec![Cable::Bomb], vec![Cable::Safe; 4]),
        ],
        wire_cutters: 1,
        defusing_remaining: 1,
        cutted_count: 4,
    };
    // one cable per player: nothing can be dealt out meaningfully any more
    assert!(g.next_round());
    assert_eq!(g.cutted_count, 0);
    for p in g.players() {
        assert_eq!(p.cables.len(), 1);
    }
}

#[test]
fn lobby_join_rules() {
    let mut l = Lobby::new(String::from("RULES1"));
    for id in 1..=8 {
        assert!(l.add_player(ready_player(id, "p")).is_ok());
    }
    assert!(matches!(
        l.add_player(ready_player(9, "late")),
        Err(errors::Join::GameFull)
    ));
    let mut l2 = Lobby::new(String::from("RULES2"));
    assert!(l2.add_player(ready_player(7, "a")).is_ok());
    assert!(matches!(
        l2.add_player(ready_player(7, "twin")),
        Err(errors::Join::AlreadyConnected)
    ));
    assert!(l2.get_player(7).is_some());
    assert!(l2.get_player(8).is_none());
    l2.remove_player(7);
    assert!(l2.get_player(7).is_none());
}

#[test]
fn may_start_needs_four_ready_players() {
    let mut l = Lobby::new(String::from("READYUP"));
    for id in 1..=4 {
        let mut p = lobby::Player::new(id, String::from("p"));
        p.ready = id != 3;
        assert!(l.add_player(p).is_ok());
    }
    assert!(!l.may_start());
    assert!(l.set_ready(3, true));
    assert!(l.may_start());
    assert!(l.set_ready(3, false));
    assert!(!l.may_start());
    assert!(!l.set_ready(99, true));

    let mut small = Lobby::new(String::from("TRIO"));
    for id in 1..=3 {
        assert!(small.add_player(ready_player(id, "p")).is_ok());
    }
    assert!(!small.may_start());
}

#[test]
fn error_messages_match_the_rules() {
    assert_eq!(errors::Join::GameFull.message(), "this game is already full");
    assert_eq!(
        errors::Join::AlreadyConnected.message(),
        "you are already connected to this game"
    );
    assert_eq!(
        errors::Cut::DontHaveWireCutter.message(),
        "you don't have the wire cutter"
    );
    assert_eq!(
        errors::Cut::CannotSelfCut.message(),
        "you can't cut one of your own card"
    );
}

#[test]
fn message_names_tag_the_stream() {
    let lm = lobby::Message::Ready { player: 1, state: true };
    assert_eq!(lm.name(), "ready");
    assert_eq!(lobby::Message::Start.name(), "start");
    assert_eq!(lobby::Message::Leave { player: 2 }.name(), "leave");
    let gm = game::Message::Cut { player: 1, cable: Cable::Safe };
    assert_eq!(gm.name(), "cut");
    assert_eq!(
        game::Message::Win { team: Team::Sherlock, players: vec![1, 2] }.name(),
        "win"
    );
    assert_eq!(game::Message::Connect { player: 1 }.name(), "connect");
    assert_eq!(game::Message::Disconnect { player: 1 }.name(), "disconnect");
    assert_eq!(game::Message::RoundStart { cables: Vec::new() }.name(), "round_start");
    assert_eq!(game::Message::Error { reason: "x" }.name(), "error");
}

#[test]
fn mailbox_discards_backlog_on_attach() {
    let mut m: Mailbox<u32> = Mailbox::new();
    assert!(!m.attached);
    m.send(1);
    m.send(2);
    assert_eq!(m.queue.len(), 2);
    // attaching discards what piled up while detached
    assert!(m.attach());
    assert_eq!(m.queue.len(), 0);
    assert!(m.attached);
    assert!(!m.attach());
    m.send(3);
    assert_eq!(m.drain(), vec![3]);
    m.detach();
    assert!(!m.attached);
    m.send(4);
    m.detach();
    assert_eq!(m.queue, vec![4]);
}
