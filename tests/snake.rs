use snake::board::{Dir, Key, Pos, CELL_SIZE, SCREEN_HEIGHT, SCREEN_WIDTH, STEP};
use snake::game::Game;
use snake::ticker::{Ticker, TICKS_PER_SECOND};

fn p(x: i64, y: i64) -> Pos {
    Pos { x, y }
}

fn snake_of(segments: Vec<Pos>, heading: Dir) -> Game {
    Game::with_segments(segments, heading).expect("a snake with segments")
}

#[test]
fn starting_state() {
    let g = Game::new();
    assert_eq!(g.current_segments(), vec![p(0, 480), p(0, -32)]);
    assert_eq!(g.current_heading(), Dir::Right);
}

#[test]
fn two_ticks_from_the_start() {
    let mut g = Game::new();
    g.tick(&vec![]);
    assert_eq!(g.current_segments(), vec![p(2, 480), p(0, 480)]);
    g.tick(&vec![]);
    assert_eq!(g.current_segments(), vec![p(4, 480), p(2, 480)]);
}

#[test]
fn head_moves_right_by_one_step() {
    let mut g = snake_of(vec![p(10, 7), p(8, 7)], Dir::Right);
    g.tick(&vec![]);
    let segs = g.current_segments();
    assert_eq!(segs[0].x, 12);
    assert_eq!(segs[0].y, 7);
    assert_eq!(STEP, 2);
}

#[test]
fn each_direction_moves_the_head() {
    let cases = vec![
        (Dir::Up, p(0, 2)),
        (Dir::Down, p(0, -2)),
        (Dir::Left, p(-2, 0)),
        (Dir::Right, p(2, 0)),
    ];
    for (d, expected) in cases {
        let mut g = snake_of(vec![p(0, 0)], d);
        g.tick(&vec![]);
        assert_eq!(g.current_segments(), vec![expected]);
    }
}

#[test]
fn chain_follows_pre_tick_positions() {
    let mut g = snake_of(vec![p(0, 480), p(0, 0), p(0, 0)], Dir::Right);
    g.tick(&vec![]);
    assert_eq!(g.current_segments(), vec![p(2, 480), p(0, 480), p(0, 0)]);
    g.tick(&vec![]);
    assert_eq!(g.current_segments(), vec![p(4, 480), p(2, 480), p(0, 480)]);
}

#[test]
fn single_segment_snake_moves() {
    let mut g = snake_of(vec![p(5, 5)], Dir::Left);
    g.tick(&vec![]);
    assert_eq!(g.current_segments(), vec![p(3, 5)]);
}

#[test]
fn no_arrow_key_keeps_heading() {
    let mut g = snake_of(vec![p(0, 0), p(0, 0)], Dir::Up);
    g.tick(&vec![]);
    assert_eq!(g.current_heading(), Dir::Up);
    g.tick(&vec![Key::Other]);
    assert_eq!(g.current_heading(), Dir::Up);
    assert_eq!(g.current_segments(), vec![p(0, 4), p(0, 2)]);
}

#[test]
fn other_key_selects_current_heading() {
    let g = snake_of(vec![p(0, 0)], Dir::Down);
    assert_eq!(Dir::from_keycode(&g, Key::Other), Dir::Down);
    assert_eq!(Dir::from_keycode(&g, Key::Up), Dir::Up);
    assert_eq!(Dir::from_keycode(&g, Key::Down), Dir::Down);
    assert_eq!(Dir::from_keycode(&g, Key::Left), Dir::Left);
    assert_eq!(Dir::from_keycode(&g, Key::Right), Dir::Right);
}

#[test]
fn held_key_turns_before_moving() {
    let mut g = Game::new();
    g.tick(&vec![Key::Up]);
    assert_eq!(g.current_heading(), Dir::Up);
    assert_eq!(g.current_segments(), vec![p(0, 482), p(0, 480)]);
}

#[test]
fn later_arrow_in_poll_order_wins() {
    let mut g = Game::new();
    g.steer(&vec![Key::Right, Key::Up]);
    assert_eq!(g.current_heading(), Dir::Right);
    g.steer(&vec![Key::Down, Key::Up]);
    assert_eq!(g.current_heading(), Dir::Down);
    g.steer(&vec![Key::Down, Key::Left, Key::Other]);
    assert_eq!(g.current_heading(), Dir::Left);
    g.steer(&vec![Key::Up]);
    assert_eq!(g.current_heading(), Dir::Up);
}

#[test]
fn apply_heading_sets_any_heading() {
    let mut g = Game::new();
    g.apply_heading(Dir::Left);
    assert_eq!(g.current_heading(), Dir::Left);
    assert_eq!(g.current_segments(), vec![p(0, 480), p(0, -32)]);
}

#[test]
fn empty_snake_is_refused() {
    assert!(Game::with_segments(vec![], Dir::Up).is_none());
}

#[test]
fn same_inputs_give_same_runs() {
    let inputs = vec![vec![], vec![Key::Up], vec![Key::Other], vec![Key::Left, Key::Down], vec![]];
    let mut a = Game::new();
    let mut b = Game::new();
    for held in &inputs {
        a.tick(held);
        b.tick(held);
        assert_eq!(a.current_segments(), b.current_segments());
        assert_eq!(a.current_heading(), b.current_heading());
    }
    assert_eq!(a.current_segments(), vec![p(-2, 484), p(0, 484)]);
}

#[test]
fn ticker_period_at_five_per_second() {
    let t = Ticker::new(TICKS_PER_SECOND);
    assert_eq!(t.period(), 200_000_000);
    assert_eq!(t.residual(), 0);
}

#[test]
fn ticker_consumes_whole_periods() {
    let mut t = Ticker::new(5);
    t.add_elapsed(199_999_999);
    assert!(!t.check_update_time());
    t.add_elapsed(1);
    assert!(t.check_update_time());
    assert_eq!(t.residual(), 0);
    assert!(!t.check_update_time());
}

#[test]
fn large_budget_runs_several_single_steps() {
    let mut g = Game::new();
    let mut t = Ticker::new(5);
    t.add_elapsed(650_000_000);
    let steps = g.update(&mut t, &vec![]);
    assert_eq!(steps, 3);
    assert_eq!(t.residual(), 50_000_000);
    assert_eq!(g.current_segments(), vec![p(6, 480), p(4, 480)]);
}

#[test]
fn update_matches_ticks_one_by_one() {
    let mut a = snake_of(vec![p(0, 0), p(0, 0), p(0, 0), p(0, 0)], Dir::Right);
    let mut b = snake_of(vec![p(0, 0), p(0, 0), p(0, 0), p(0, 0)], Dir::Right);
    let mut t = Ticker::new(5);
    t.add_elapsed(1_000_000_000);
    assert_eq!(a.update(&mut t, &vec![Key::Down]), 5);
    for _ in 0..5 {
        b.tick(&vec![Key::Down]);
    }
    assert_eq!(a.current_segments(), b.current_segments());
    assert_eq!(a.current_segments(), vec![p(0, -10), p(0, -8), p(0, -6), p(0, -4)]);
}

#[test]
fn update_without_budget_changes_nothing() {
    let mut g = Game::new();
    let mut t = Ticker::new(5);
    t.add_elapsed(10);
    assert_eq!(g.update(&mut t, &vec![Key::Up]), 0);
    assert_eq!(g.current_heading(), Dir::Right);
    assert_eq!(g.current_segments(), vec![p(0, 480), p(0, -32)]);
    assert_eq!(t.residual(), 10);
}

#[test]
fn board_dimensions() {
    assert_eq!(CELL_SIZE, 32);
    assert_eq!(SCREEN_WIDTH, 960);
    assert_eq!(SCREEN_HEIGHT, 640);
}

#[test]
fn pos_new_is_origin() {
    assert_eq!(Pos::new(), p(0, 0));
}
