use snake_core::body::Body;
use snake_core::field::Field;
use snake_core::fruit::Fruit;

#[test]
fn random_fruit_lands_on_a_grid_cell_inside_the_field() {
    let field = Field::new(50, 5);
    for _ in 0..200 {
        let f = Fruit::random(&field);
        assert!(-250 <= f.position.x && f.position.x <= 250);
        assert!(-250 <= f.position.y && f.position.y <= 250);
        assert_eq!(f.position.x % 50, 0);
        assert_eq!(f.position.y % 50, 0);
    }
}

#[test]
fn placement_never_lands_on_the_body() {
    let field = Field::new(50, 5);
    let mut body = Body::new(0, 0);
    for cy in 0..3i64 {
        for cx in 0..3i64 {
            if cx != 0 || cy != 0 {
                body.push(Body::new(cx * 50, cy * 50));
            }
        }
    }
    for _ in 0..1000 {
        let f = Fruit::place(&body, &field, 64).expect("most of the field is free");
        assert!(!body.collide(&f.position, &field));
        assert!(-250 <= f.position.x && f.position.x <= 250);
        assert!(-250 <= f.position.y && f.position.y <= 250);
        assert_eq!(f.position.x % 50, 0);
        assert_eq!(f.position.y % 50, 0);
    }
}

#[test]
fn placement_succeeds_first_try_when_every_cell_is_free() {
    let field = Field::new(50, 5);

    let empty = Body::Empty;
    for _ in 0..100 {
        assert!(Fruit::place(&empty, &field, 1).is_some());
    }

    let outside = Body::new(1000, 1000);
    for _ in 0..100 {
        assert!(Fruit::place(&outside, &field, 1).is_some());
    }
}

#[test]
fn placement_on_a_full_field_gives_up() {
    let field = Field::new(50, 0);
    let body = Body::new(0, 0);
    assert!(Fruit::place(&body, &field, 32).is_none());
}
