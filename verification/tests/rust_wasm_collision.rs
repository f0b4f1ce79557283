use wasm_pong::rust_wasm::collision::{Collision, CollisionDetector, CollisionRegistry, Collisions};
use wasm_pong::rust_wasm::geom::BoundingBox;

fn obj(id: u16, x: u16, y: u16, w: u16, h: u16) -> (u16, BoundingBox) {
    (id, BoundingBox::create(x, y, w, h))
}

#[test]
fn should_detect_collisions() {
    let cases: Vec<(Vec<(u16, BoundingBox)>, Vec<Collision>)> = vec![
        (vec![], vec![]),
        (vec![obj(1, 50, 50, 20, 20), obj(2, 50, 50, 20, 20)], vec![Collision(1, 2)]),
        (vec![obj(1, 60, 65, 20, 20), obj(2, 50, 50, 20, 20)], vec![Collision(1, 2)]),
        (vec![obj(1, 50, 50, 20, 20), obj(2, 80, 80, 20, 20)], vec![]),
        (vec![obj(1, 50, 50, 50, 50), obj(2, 500, 50, 50, 50)], vec![]),
    ];
    let detector = CollisionDetector::new();
    for (objs, expected) in cases {
        let res = detector.detect_collisions(&objs);
        assert_eq!(res.get_collisions(), expected.iter().collect::<Vec<&Collision>>());
    }
}

#[test]
fn detects_every_overlapping_pair_in_order() {
    let objs = vec![
        obj(1, 10, 10, 10, 10),
        obj(2, 12, 12, 10, 10),
        obj(3, 200, 200, 10, 10),
        obj(4, 14, 14, 10, 10),
    ];
    let res = CollisionDetector::new().detect_collisions(&objs);
    assert_eq!(
        res.get_collisions(),
        vec![&Collision(1, 2), &Collision(1, 4), &Collision(2, 4)]
    );
}

#[test]
fn collisions_by_id_keep_their_order() {
    let registry = Collisions::new(vec![Collision(1, 2), Collision(3, 4), Collision(2, 5), Collision(6, 1)]);
    assert_eq!(registry.get_collisions_by_id(2), vec![&Collision(1, 2), &Collision(2, 5)]);
    assert_eq!(registry.get_collisions_by_id(1), vec![&Collision(1, 2), &Collision(6, 1)]);
    assert!(registry.get_collisions_by_id(9).is_empty());
    assert_eq!(registry.get_collisions().len(), 4);
}
