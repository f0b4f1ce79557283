use wasm_pong::pong::collision::collision::{Collision, CollisionRegistry, Collisions};
use wasm_pong::pong::collision::detection::{
    CollisionCandidate, CollisionDetector, CollisionDetectorConfig, CollisionGroup,
};
use wasm_pong::pong::collision::handler::CollisionHandlerRegistry;

fn candidate(id: &str, obj_type: &str) -> CollisionCandidate {
    CollisionCandidate { id: id.to_owned(), obj_type: obj_type.to_owned() }
}

fn detector() -> CollisionDetector {
    let mut detector = CollisionDetector::new();
    detector.set_groups(vec![CollisionGroup(String::from("a"), String::from("b"))]);
    detector
}

// The overlap decisions below are those of floating-point boxes:
// 20x20 boxes at (50, 50)/(50, 50) and (60, 65)/(50, 50) overlap, at (50, 50)/(80, 80)
// and 50x50 boxes at (50, 50)/(500, 50) do not.
#[test]
fn should_detect_grouped_collisions() {
    let cases: Vec<(Vec<CollisionCandidate>, Vec<Vec<bool>>, Vec<Collision>)> = vec![
        (vec![], vec![], vec![]),
        (
            vec![candidate("1", "a"), candidate("2", "b")],
            vec![vec![true, true], vec![true, true]],
            vec![Collision::new("1", "2")],
        ),
        (
            vec![candidate("1", "a"), candidate("2", "b")],
            vec![vec![true, true], vec![true, true]],
            vec![Collision::new("1", "2")],
        ),
        (
            vec![candidate("1", "a"), candidate("2", "b")],
            vec![vec![true, false], vec![false, true]],
            vec![],
        ),
        (
            vec![candidate("1", "a"), candidate("2", "b")],
            vec![vec![true, false], vec![false, true]],
            vec![],
        ),
        (
            vec![candidate("1", "a"), candidate("2", "c")],
            vec![vec![true, true], vec![true, true]],
            vec![],
        ),
    ];
    let detector = detector();
    for (objs, overlaps, expected) in cases {
        let res = detector.detect_collisions(&objs, &overlaps);
        assert_eq!(res.get_collisions(), expected.iter().collect::<Vec<&Collision>>());
    }
}

#[test]
fn groups_match_in_either_order() {
    let group = CollisionGroup(String::from("ball"), String::from("player"));
    assert!(group.matches("ball", "player"));
    assert!(group.matches("player", "ball"));
    assert!(!group.matches("ball", "ball"));
    assert!(!group.matches("bound", "player"));
}

#[test]
fn config_without_groups_matches_nothing() {
    let config = CollisionDetectorConfig::new();
    assert!(!config.matches_any_group("a", "b"));
}

#[test]
fn new_detector_reports_nothing_without_groups() {
    let detector = CollisionDetector::new();
    let objs = vec![candidate("1", "a"), candidate("2", "b")];
    let overlaps = vec![vec![true, true], vec![true, true]];
    assert!(detector.detect_collisions(&objs, &overlaps).get_collisions().is_empty());
}

#[test]
fn detection_keeps_pair_order_and_groups() {
    let mut detector = CollisionDetector::new();
    detector.set_groups(vec![
        CollisionGroup(String::from("ball"), String::from("player")),
        CollisionGroup(String::from("ball"), String::from("bound")),
    ]);
    let objs = vec![
        candidate("p1", "player"),
        candidate("b", "ball"),
        candidate("top", "bound"),
        candidate("p2", "player"),
    ];
    let all = vec![vec![true; 4]; 4];
    let res = detector.detect_collisions(&objs, &all);
    assert_eq!(
        res.get_collisions(),
        vec![&Collision::new("p1", "b"), &Collision::new("b", "top"), &Collision::new("b", "p2")]
    );
    assert_eq!(
        res.get_collisions_by_id("p2"),
        vec![&Collision::new("b", "p2")]
    );
}

#[test]
fn collisions_by_id_match_either_side() {
    let registry = Collisions::new(vec![
        Collision::new("x", "y"),
        Collision::new("z", "x"),
        Collision::new("y", "z"),
    ]);
    assert_eq!(
        registry.get_collisions_by_id("x"),
        vec![&Collision::new("x", "y"), &Collision::new("z", "x")]
    );
    assert!(registry.get_collisions_by_id("w").is_empty());
}

#[test]
fn handler_registry_prefers_the_given_order() {
    let mut registry: CollisionHandlerRegistry<u8> = CollisionHandlerRegistry::new();
    let ball_player = (String::from("ball"), String::from("player"));
    let player_ball = (String::from("player"), String::from("ball"));
    let ball_bound = (String::from("ball"), String::from("bound"));
    assert!(!registry.contains_key(&ball_player));
    registry.add(ball_player.clone(), 1);
    assert!(registry.contains_key(&ball_player));
    assert!(!registry.contains_key(&player_ball));
    assert_eq!(registry.lookup(&ball_player), Some((&1, false)));
    assert_eq!(registry.lookup(&player_ball), Some((&1, true)));
    assert_eq!(registry.lookup(&ball_bound), None);
    registry.add(player_ball.clone(), 2);
    assert_eq!(registry.lookup(&player_ball), Some((&2, false)));
    assert_eq!(registry.lookup(&ball_player), Some((&1, false)));
}

#[test]
fn any_group_matching_ignores_order() {
    let mut detector = CollisionDetector::new();
    detector.set_groups(vec![CollisionGroup(String::from("ball"), String::from("bound"))]);
    let objs = vec![candidate("w", "bound"), candidate("b", "ball")];
    let overlaps = vec![vec![true, true], vec![true, true]];
    assert_eq!(
        detector.detect_collisions(&objs, &overlaps).get_collisions(),
        vec![&Collision::new("w", "b")]
    );
}
