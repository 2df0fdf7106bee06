use snake_core::body::{Body, Snake};
use snake_core::field::Field;
use snake_core::geom::{Direction, Vec2};

fn positions(body: &Body) -> Vec<(i64, i64)> {
    body.spawn().iter().map(|p| (p.x, p.y)).collect()
}

#[test]
fn new_chain_is_one_segment_facing_left() {
    let body = Body::new(7, -3);
    assert_eq!(positions(&body), vec![(7, -3)]);
    assert_eq!(body.direction(), Direction::Left);
    let p = body.position();
    assert_eq!((p.x, p.y), (7, -3));
}

#[test]
fn empty_chain_reads_neutral_defaults() {
    let field = Field::new(50, 5);
    let body = Body::Empty;
    let p = body.position();
    assert_eq!((p.x, p.y), (0, 0));
    assert_eq!(body.direction(), Direction::Left);
    assert!(!body.collide_self(&field));
    assert!(body.spawn().is_empty());
}

#[test]
fn push_reaches_the_true_tail() {
    let mut body = Body::new(0, 0);
    body.push(Body::new(50, 0));
    let copy = body.push(Body::new(100, 0));
    assert_eq!(positions(&body), vec![(0, 0), (50, 0), (100, 0)]);
    assert_eq!(positions(&copy), vec![(0, 0), (50, 0), (100, 0)]);
}

#[test]
fn push_never_disturbs_existing_segments() {
    let mut body = Body::new(0, 0);
    body.set_direction(Direction::Up);
    body.push(Body::new(50, 0));
    let before = positions(&body);
    let dir_before = body.direction();
    body.push(Body::new(100, 0));
    assert_eq!(&positions(&body)[..2], &before[..]);
    assert_eq!(body.direction(), dir_before);
    assert_eq!(positions(&body).len(), before.len() + 1);
}

#[test]
fn push_onto_empty_chain_returns_the_pushed_chain() {
    let mut body = Body::Empty;
    let r = body.push(Body::new(50, 100));
    assert!(body.spawn().is_empty());
    assert_eq!(positions(&r), vec![(50, 100)]);
}

#[test]
fn last_returns_a_copy_of_the_tail() {
    let mut body = Body::new(0, 0);
    body.push(Body::new(50, 0));
    body.push(Body::new(100, 0));
    let tail = body.last();
    assert_eq!(positions(&tail), vec![(100, 0)]);
    assert_eq!(tail.direction(), Direction::Left);
    assert_eq!(positions(&body).len(), 3);
}

#[test]
fn advance_moves_head_and_followers_trail_exactly() {
    let field = Field::new(50, 5);
    let mut body = Body::new(0, 0);
    body.push(Body::new(50, 0));
    body.push(Body::new(100, 0));
    body.advance(50, &field);
    assert_eq!(positions(&body), vec![(-50, 0), (0, 0), (50, 0)]);
    assert_eq!(body.direction(), Direction::Left);
    let tail = body.last();
    assert_eq!(tail.direction(), Direction::Left);
}

#[test]
fn followers_inherit_the_heads_turn_one_tick_late() {
    let field = Field::new(50, 5);
    let mut body = Body::new(0, 0);
    body.push(Body::new(50, 0));
    body.steer(Direction::Up);
    body.advance(50, &field);
    assert_eq!(positions(&body), vec![(0, 50), (0, 0)]);
    body.advance(50, &field);
    assert_eq!(positions(&body), vec![(0, 100), (0, 50)]);
}

#[test]
fn wraparound_at_every_edge() {
    let field = Field::new(50, 5);

    let mut body = Body::new(250, 0);
    body.set_direction(Direction::Right);
    body.advance(50, &field);
    assert_eq!(positions(&body), vec![(-250, 0)]);

    let mut body = Body::new(-250, 0);
    body.set_direction(Direction::Left);
    body.advance(50, &field);
    assert_eq!(positions(&body), vec![(250, 0)]);

    let mut body = Body::new(0, 250);
    body.set_direction(Direction::Up);
    body.advance(50, &field);
    assert_eq!(positions(&body), vec![(0, -250)]);

    let mut body = Body::new(0, -250);
    body.set_direction(Direction::Down);
    body.advance(50, &field);
    assert_eq!(positions(&body), vec![(0, 250)]);
}

#[test]
fn steer_rejects_a_direct_reversal() {
    let mut body = Body::new(0, 0);
    body.set_direction(Direction::Right);
    body.steer(Direction::Left);
    assert_eq!(body.direction(), Direction::Right);
    body.steer(Direction::Up);
    assert_eq!(body.direction(), Direction::Up);
    body.steer(Direction::Down);
    assert_eq!(body.direction(), Direction::Up);
    body.steer(Direction::Left);
    assert_eq!(body.direction(), Direction::Left);
}

#[test]
fn collide_finds_any_overlapping_segment() {
    let field = Field::new(50, 5);
    let mut body = Body::new(0, 0);
    body.push(Body::new(50, 0));
    body.push(Body::new(100, 0));
    assert!(body.collide(&Vec2::new(100, 0), &field));
    assert!(body.collide(&Vec2::new(80, 20), &field));
    assert!(!body.collide(&Vec2::new(150, 0), &field));
    assert!(!body.collide(&Vec2::new(0, 50), &field));
}

#[test]
fn single_segment_never_collides_with_itself() {
    let field = Field::new(50, 5);
    let body = Body::new(0, 0);
    assert!(!body.collide_self(&field));
}

#[test]
fn collide_self_sees_only_the_head_against_the_rest() {
    let field = Field::new(50, 5);
    let mut body = Body::new(0, 0);
    body.push(Body::new(100, 0));
    body.push(Body::new(0, 0));
    assert!(body.collide_self(&field));

    let mut trailing = Body::new(0, 0);
    trailing.push(Body::new(50, 0));
    assert!(!trailing.collide_self(&field));

    let mut elsewhere = Body::new(0, 0);
    elsewhere.push(Body::new(100, 0));
    elsewhere.push(Body::new(100, 50));
    assert!(!elsewhere.collide_self(&field));
}

#[test]
fn eating_grows_the_chain_by_one_waiting_tail() {
    let field = Field::new(50, 5);
    let mut body = Body::new(0, 0);
    body.push(Body::new(50, 0));
    let ate = body.eat(&Vec2::new(0, 0), &field);
    assert!(ate);
    assert_eq!(positions(&body), vec![(0, 0), (50, 0), (50, 0)]);

    body.advance(50, &field);
    assert_eq!(positions(&body), vec![(-50, 0), (0, 0), (50, 0)]);
    body.advance(50, &field);
    assert_eq!(positions(&body), vec![(-100, 0), (-50, 0), (0, 0)]);
}

#[test]
fn a_missed_fruit_changes_nothing() {
    let field = Field::new(50, 5);
    let mut body = Body::new(0, 0);
    body.push(Body::new(50, 0));
    let ate = body.eat(&Vec2::new(200, 200), &field);
    assert!(!ate);
    assert_eq!(positions(&body), vec![(0, 0), (50, 0)]);
}

#[test]
fn snake_owns_its_body() {
    let snake = Snake { body: Body::new(0, 0) };
    assert_eq!(positions(&snake.body), vec![(0, 0)]);
}

#[test]
fn field_half_extent_scales_cells() {
    let field = Field::new(50, 5);
    assert_eq!(field.half_extent(), 250);
    assert_eq!(field.cell, 50);
}
